//! Bounded per-device history: an ordered sequence of samples with
//! front-eviction against a retention horizon.

use vstd::prelude::*;
use std::collections::VecDeque;
use crate::sample::Sample;

verus! {

/// The samples are ordered oldest-first, non-decreasing by timestamp.
pub open spec fn ts_sorted(s: Seq<Sample>) -> bool {
    forall|i: int, j: int| 0 <= i <= j < s.len() ==> s[i].timestamp <= s[j].timestamp
}

/// The eviction cutoff implied by an instant and a horizon, saturating at
/// the epoch: samples strictly older than `now - horizon` are expired.
pub open spec fn cutoff_of(now: u64, horizon: u64) -> u64 {
    if horizon > now {
        0
    } else {
        (now - horizon) as u64
    }
}

/// The subset of `s` with `timestamp >= since`, in the original order.
pub open spec fn retained(s: Seq<Sample>, since: u64) -> Seq<Sample> {
    s.filter(|x: Sample| x.timestamp >= since)
}

/// An incoming sample is accepted only when it does not go back in time
/// relative to the newest retained sample.
pub open spec fn accepts(s: Seq<Sample>, x: Sample) -> bool {
    s.len() == 0 || s.last().timestamp <= x.timestamp
}

/// What one `push` leaves in the history: append, then evict everything
/// older than the cutoff; an out-of-order sample changes nothing.
pub open spec fn spec_push(s: Seq<Sample>, x: Sample, cutoff: u64) -> Seq<Sample> {
    if accepts(s, x) {
        retained(s.push(x), cutoff)
    } else {
        s
    }
}

/// Every element of the retained subset satisfies the age bound.
pub proof fn lemma_retained_ge(s: Seq<Sample>, since: u64)
    ensures
        forall|i: int|
            0 <= i < #[trigger] retained(s, since).len() ==> retained(s, since)[i].timestamp
                >= since,
{
    assert forall|i: int| 0 <= i < retained(s, since).len() implies retained(s, since)[i].timestamp
        >= since by {
        s.lemma_filter_pred(|x: Sample| x.timestamp >= since, i);
    }
}

/// Every element of the retained subset occurs in the original sequence.
pub proof fn lemma_retained_elements(s: Seq<Sample>, since: u64)
    ensures
        forall|i: int|
            0 <= i < #[trigger] retained(s, since).len() ==> s.contains(retained(s, since)[i]),
    decreases s.len(),
{
    reveal(Seq::filter);
    if s.len() == 0 {
    } else {
        let d = s.drop_last();
        lemma_retained_elements(d, since);
        assert forall|i: int|
            0 <= i < retained(s, since).len() implies s.contains(retained(s, since)[i]) by {
            if i < retained(d, since).len() {
                assert(d.contains(retained(d, since)[i]));
                let j = choose|j: int| 0 <= j < d.len() && d[j] == retained(d, since)[i];
                assert(s[j] == retained(s, since)[i]);
            } else {
                assert(retained(s, since)[i] == s.last());
                assert(s[s.len() - 1] == s.last());
            }
        }
    }
}

/// Filtering by age keeps the timestamp order.
pub proof fn lemma_retained_sorted(s: Seq<Sample>, since: u64)
    requires
        ts_sorted(s),
    ensures
        ts_sorted(retained(s, since)),
    decreases s.len(),
{
    reveal(Seq::filter);
    if s.len() == 0 {
    } else {
        let d = s.drop_last();
        assert(ts_sorted(d));
        lemma_retained_sorted(d, since);
        lemma_retained_elements(d, since);
        let r = retained(s, since);
        assert forall|i: int, j: int| 0 <= i <= j < r.len() implies r[i].timestamp
            <= r[j].timestamp by {
            if j < retained(d, since).len() {
            } else {
                assert(r[j] == s.last());
                if i < retained(d, since).len() {
                    assert(d.contains(retained(d, since)[i]));
                    let k = choose|k: int| 0 <= k < d.len() && d[k] == retained(d, since)[i];
                    assert(s[k].timestamp <= s[s.len() - 1].timestamp);
                }
            }
        }
    }
}

/// On a sorted history, filtering by age is exactly dropping an expired
/// prefix: if the first `k` samples are older than the bound and the rest
/// are not, the retained subset is the suffix from `k`.
pub proof fn lemma_retained_is_suffix(s: Seq<Sample>, since: u64, k: int)
    requires
        0 <= k <= s.len(),
        forall|j: int| 0 <= j < k ==> s[j].timestamp < since,
        forall|j: int| k <= j < s.len() ==> s[j].timestamp >= since,
    ensures
        retained(s, since) == s.subrange(k, s.len() as int),
    decreases s.len(),
{
    reveal(Seq::filter);
    if s.len() == 0 {
        assert(retained(s, since) =~= s.subrange(k, s.len() as int));
    } else {
        let d = s.drop_last();
        if k == s.len() {
            lemma_retained_is_suffix(d, since, k - 1);
            assert(retained(s, since) =~= s.subrange(k, s.len() as int));
        } else {
            lemma_retained_is_suffix(d, since, k);
            assert(s.last().timestamp >= since);
            assert(d.subrange(k, d.len() as int).push(s.last()) =~= s.subrange(
                k,
                s.len() as int,
            ));
            assert(retained(s, since) =~= s.subrange(k, s.len() as int));
        }
    }
}

/// The position of the first sample no older than the bound; everything
/// before it expires.
pub open spec fn split_index(s: Seq<Sample>, since: u64) -> int
    decreases s.len(),
{
    if s.len() == 0 {
        0
    } else if s[0].timestamp >= since {
        0
    } else {
        1 + split_index(s.drop_first(), since)
    }
}

proof fn lemma_split_index_bounds(s: Seq<Sample>, since: u64)
    ensures
        0 <= split_index(s, since) <= s.len(),
        forall|j: int| 0 <= j < split_index(s, since) ==> s[j].timestamp < since,
        split_index(s, since) < s.len() ==> s[split_index(s, since)].timestamp >= since,
    decreases s.len(),
{
    if s.len() == 0 {
    } else if s[0].timestamp >= since {
    } else {
        let d = s.drop_first();
        lemma_split_index_bounds(d, since);
        assert forall|j: int| 0 <= j < split_index(s, since) implies s[j].timestamp < since by {
            if j > 0 {
                assert(d[j - 1].timestamp < since);
                assert(s[j] == d[j - 1]);
            }
        }
        if split_index(s, since) < s.len() {
            assert(s[split_index(s, since)] == d[split_index(d, since)]);
        }
    }
}

/// Law: on a history in timestamp order, filtering by age returns exactly
/// the samples no older than the bound, in their original order — it is
/// the suffix that starts at the first young-enough sample, and every
/// older sample falls before that point.
pub proof fn lemma_filtered_exact(s: Seq<Sample>, since: u64)
    requires
        ts_sorted(s),
    ensures
        0 <= split_index(s, since) <= s.len(),
        forall|j: int| 0 <= j < split_index(s, since) ==> s[j].timestamp < since,
        forall|j: int| split_index(s, since) <= j < s.len() ==> s[j].timestamp >= since,
        retained(s, since) == s.subrange(split_index(s, since), s.len() as int),
        ts_sorted(retained(s, since)),
{
    lemma_split_index_bounds(s, since);
    let k = split_index(s, since);
    assert forall|j: int| k <= j < s.len() implies s[j].timestamp >= since by {
        assert(s[k].timestamp <= s[j].timestamp);
    }
    lemma_retained_is_suffix(s, since, k);
    lemma_retained_sorted(s, since);
}

/// Law: a push never retains a sample older than the horizon behind the
/// incoming sample's instant — the eviction invariant.
pub proof fn lemma_eviction_bound(s: Seq<Sample>, x: Sample, horizon_millis: u64)
    requires
        accepts(s, x),
    ensures
        forall|i: int|
            0 <= i < spec_push(s, x, cutoff_of(x.timestamp, horizon_millis)).len()
                ==> #[trigger] spec_push(s, x, cutoff_of(x.timestamp, horizon_millis))[i].timestamp
                >= cutoff_of(x.timestamp, horizon_millis),
{
    lemma_retained_ge(s.push(x), cutoff_of(x.timestamp, horizon_millis));
}

/// One device's bounded history: a display name and the retained samples,
/// oldest first.
pub struct DeviceSeries {
    /// Stable identity of the device, assigned at first observation.
    pub device_index: usize,
    /// Last observed display name, as raw probe bytes; placeholder devices
    /// carry a generated name until first observed directly.
    pub display_name: Vec<u8>,
    /// Retained samples, oldest first, non-decreasing by timestamp.
    pub samples: VecDeque<Sample>,
}

/// Spec-level description of one device series.
#[verifier::ext_equal]
pub struct SeriesModel {
    pub device_index: int,
    pub name: Seq<u8>,
    pub samples: Seq<Sample>,
}

impl View for DeviceSeries {
    type V = SeriesModel;

    open spec fn view(&self) -> SeriesModel {
        SeriesModel {
            device_index: self.device_index as int,
            name: self.display_name@,
            samples: self.samples@,
        }
    }
}

impl DeviceSeries {
    /// The history is well-formed when its samples are in timestamp order.
    pub open spec fn wf(&self) -> bool {
        ts_sorted(self.samples@)
    }

    /// A fresh, empty series for device `device_index` named `name`.
    pub fn new(device_index: usize, name: Vec<u8>) -> (s: DeviceSeries)
        ensures
            s.wf(),
            s@.device_index == device_index as int,
            s@.name == name@,
            s@.samples == Seq::<Sample>::empty(),
    {
        DeviceSeries { device_index, display_name: name, samples: VecDeque::new() }
    }

    /// Appends `sample`, then evicts from the front every sample older than
    /// `sample.timestamp - horizon_millis`. A sample older than the newest
    /// retained one is rejected as a no-op; the result reports acceptance.
    pub fn push(&mut self, sample: Sample, horizon_millis: u64) -> (ok: bool)
        requires
            old(self).wf(),
        ensures
            final(self).wf(),
            final(self)@.device_index == old(self)@.device_index,
            final(self)@.name == old(self)@.name,
            ok == accepts(old(self)@.samples, sample),
            final(self)@.samples == spec_push(
                old(self)@.samples,
                sample,
                cutoff_of(sample.timestamp, horizon_millis),
            ),
            ok ==> forall|i: int|
                0 <= i < final(self)@.samples.len() ==> final(self)@.samples[i].timestamp >= cutoff_of(
                    sample.timestamp,
                    horizon_millis,
                ),
    {
        let n = self.samples.len();
        if n > 0 && sample.timestamp < self.samples[n - 1].timestamp {
            return false;
        }
        let ghost all = old(self)@.samples.push(sample);
        let cutoff = if horizon_millis > sample.timestamp {
            0u64
        } else {
            sample.timestamp - horizon_millis
        };
        self.samples.push_back(sample);
        assert(ts_sorted(all));
        while self.samples.len() > 0 && self.samples[0].timestamp < cutoff
            invariant
                self.device_index == old(self).device_index,
                self.display_name == old(self).display_name,
                ts_sorted(all),
                self.samples@.len() <= all.len(),
                self.samples@ == all.subrange(
                    all.len() - self.samples@.len(),
                    all.len() as int,
                ),
                forall|j: int|
                    0 <= j < all.len() - self.samples@.len() ==> all[j].timestamp < cutoff,
            decreases self.samples@.len(),
        {
            self.samples.pop_front();
            assert(self.samples@ =~= all.subrange(
                all.len() - self.samples@.len(),
                all.len() as int,
            ));
        }
        proof {
            let k = all.len() - self.samples@.len();
            assert forall|j: int| k <= j < all.len() implies all[j].timestamp >= cutoff by {
                if self.samples@.len() > 0 {
                    assert(all[k] == self.samples@[0]);
                    assert(all[k].timestamp <= all[j].timestamp);
                }
            }
            lemma_retained_is_suffix(all, cutoff, k);
            lemma_retained_ge(all, cutoff);
            assert(ts_sorted(self.samples@));
        }
        true
    }

    /// All retained samples with `timestamp >= since`, oldest first, as a
    /// fresh sequence that does not alias the internal storage. An empty
    /// history yields an empty sequence, not an error.
    pub fn filtered(&self, since: u64) -> (r: Vec<Sample>)
        requires
            self.wf(),
        ensures
            r@ == retained(self@.samples, since),
    {
        let n = self.samples.len();
        let mut idx: usize = 0;
        while idx < n && self.samples[idx].timestamp < since
            invariant
                n == self.samples@.len(),
                0 <= idx <= n,
                forall|j: int| 0 <= j < idx ==> self.samples@[j].timestamp < since,
            decreases n - idx,
        {
            idx += 1;
        }
        proof {
            assert forall|j: int| idx <= j < n implies self.samples@[j].timestamp >= since by {
                if idx < n {
                    assert(self.samples@[idx as int].timestamp <= self.samples@[j].timestamp);
                }
            }
            lemma_retained_is_suffix(self.samples@, since, idx as int);
        }
        let mut r: Vec<Sample> = Vec::new();
        let mut j: usize = idx;
        while j < n
            invariant
                n == self.samples@.len(),
                idx <= j <= n,
                r@ == self.samples@.subrange(idx as int, j as int),
            decreases n - j,
        {
            r.push(self.samples[j]);
            assert(r@ =~= self.samples@.subrange(idx as int, j + 1));
            j += 1;
        }
        assert(r@ =~= self.samples@.subrange(idx as int, n as int));
        r
    }

    /// The newest retained sample, or `None` for an empty history.
    pub fn latest(&self) -> (r: Option<Sample>)
        ensures
            match r {
                Some(x) => self@.samples.len() > 0 && x == self@.samples.last(),
                None => self@.samples.len() == 0,
            },
    {
        let n = self.samples.len();
        if n == 0 {
            None
        } else {
            Some(self.samples[n - 1])
        }
    }
}

} // verus!
