//! The telemetry store: device series keyed by a dense device index, with
//! ingest routing and time-windowed queries.

use vstd::prelude::*;
use crate::sample::Sample;
use crate::series::{accepts, cutoff_of, retained, spec_push, DeviceSeries, SeriesModel};
use crate::name::{placeholder, placeholder_name};

verus! {

/// The model of a device synthesized to fill an index gap: a generated
/// name and no samples yet.
pub open spec fn placeholder_model(i: int) -> SeriesModel {
    SeriesModel { device_index: i, name: placeholder_name(i), samples: Seq::empty() }
}

/// Extends the device list with placeholders until it holds at least `n`
/// devices; existing devices are untouched.
pub open spec fn grow_to(devs: Seq<SeriesModel>, n: int) -> Seq<SeriesModel> {
    if n <= devs.len() {
        devs
    } else {
        Seq::new(n as nat, |i: int| if i < devs.len() { devs[i] } else { placeholder_model(i) })
    }
}

/// What one ingest leaves in the store: grow to cover the device index,
/// overwrite the target's display name, and push the sample into the
/// target's history with eviction against `sample.timestamp - horizon`.
pub open spec fn spec_ingest(
    devs: Seq<SeriesModel>,
    d: int,
    name: Seq<u8>,
    sample: Sample,
    horizon_millis: u64,
) -> Seq<SeriesModel> {
    let g = grow_to(devs, d + 1);
    g.update(
        d,
        SeriesModel {
            device_index: d,
            name: name,
            samples: spec_push(g[d].samples, sample, cutoff_of(sample.timestamp, horizon_millis)),
        },
    )
}

/// What a query returns: the target's samples no older than
/// `now - window`, or nothing at all for an unknown device index.
pub open spec fn spec_query(
    devs: Seq<SeriesModel>,
    d: int,
    window_millis: u64,
    now: u64,
) -> Seq<Sample> {
    if 0 <= d < devs.len() {
        retained(devs[d].samples, cutoff_of(now, window_millis))
    } else {
        Seq::empty()
    }
}

/// All device series, keyed by their position: the store owns one series
/// per observed device, dense from index zero.
pub struct TelemetryStore {
    /// The series of device `i` is at position `i`.
    pub devices: Vec<DeviceSeries>,
}

impl View for TelemetryStore {
    type V = Seq<SeriesModel>;

    open spec fn view(&self) -> Seq<SeriesModel> {
        self.devices@.map_values(|d: DeviceSeries| d@)
    }
}

impl TelemetryStore {
    /// Every series is well-formed and sits at the index it names.
    pub open spec fn wf(&self) -> bool {
        forall|i: int|
            0 <= i < self.devices@.len() ==> (#[trigger] self.devices@[i]).wf()
                && self.devices@[i].device_index == i
    }

    /// An empty store: no devices observed yet.
    pub fn new() -> (s: TelemetryStore)
        ensures
            s.wf(),
            s@ == Seq::<SeriesModel>::empty(),
    {
        let s = TelemetryStore { devices: Vec::new() };
        proof {
            assert(s@ =~= Seq::<SeriesModel>::empty());
        }
        s
    }

    /// How many devices have been observed (directly or as gap fillers).

    pub fn device_count(&self) -> (n: usize)
        ensures
            n == self@.len(),
    {
        self.devices.len()
    }

    /// Routes one observation: devices up to `device_index` are created on
    /// demand (gap fillers carry the generated placeholder name), the
    /// target's display name is overwritten with `name` — last write wins —
    /// and the sample is appended to the target's history, evicting samples
    /// older than `sample.timestamp - horizon_millis`. Never fails; an
    /// out-of-order sample is reported by returning `false` and leaves the
    /// history unchanged (the name is still overwritten).
    pub fn ingest(
        &mut self,
        device_index: usize,
        name: Vec<u8>,
        sample: Sample,
        horizon_millis: u64,
    ) -> (ok: bool)
        requires
            old(self).wf(),
            device_index < usize::MAX,
        ensures
            final(self).wf(),
            final(self)@ == spec_ingest(
                old(self)@,
                device_index as int,
                name@,
                sample,
                horizon_millis,
            ),
            ok == accepts(grow_to(old(self)@, device_index + 1)[device_index as int].samples, sample),
            ok ==> forall|i: int|
                0 <= i < final(self)@[device_index as int].samples.len()
                    ==> final(self)@[device_index as int].samples[i].timestamp >= cutoff_of(
                    sample.timestamp,
                    horizon_millis,
                ),
    {
        let ghost orig = self.devices@;
        while self.devices.len() <= device_index
            invariant
                device_index < usize::MAX,
                orig == old(self).devices@,
                old(self).wf(),
                orig.len() <= self.devices@.len(),
                self.devices@.len() <= vstd::math::max(orig.len() as int, device_index + 1),
                forall|i: int| 0 <= i < orig.len() ==> self.devices@[i] == orig[i],
                forall|i: int|
                    orig.len() <= i < self.devices@.len() ==> (#[trigger] self.devices@[i])@
                        == placeholder_model(i),
                forall|i: int|
                    orig.len() <= i < self.devices@.len() ==> (#[trigger] self.devices@[i]).wf()
                        && self.devices@[i].device_index == i,
            decreases device_index + 1 - self.devices@.len(),
        {
            let i = self.devices.len();
            let filler = DeviceSeries::new(i, placeholder(i));
            self.devices.push(filler);
        }
        proof {
            let g = grow_to(orig.map_values(|d: DeviceSeries| d@), device_index + 1);
            assert(self.devices@.len() == vstd::math::max(
                orig.len() as int,
                device_index + 1,
            ));
            assert(self.devices@.map_values(|d: DeviceSeries| d@) =~~= g);
            assert forall|i: int|
                0 <= i < self.devices@.len() implies (#[trigger] self.devices@[i]).wf()
                    && self.devices@[i].device_index == i by {
                if i < orig.len() {
                    assert(self.devices@[i] == orig[i]);
                    assert((#[trigger] old(self).devices@[i]).wf());
                    assert(old(self).devices@[i].device_index == i);
                }
            }
        }
        let ghost grown = self.devices@;
        self.devices[device_index].display_name = name;
        proof {
            assert(self.devices@[device_index as int].samples@ == grown[device_index as int].samples@);
            assert(self.devices@[device_index as int].wf());
        }
        let ok = self.devices[device_index].push(sample, horizon_millis);
        proof {
            assert(self@ =~~= spec_ingest(
                orig.map_values(|d: DeviceSeries| d@),
                device_index as int,
                name@,
                sample,
                horizon_millis,
            ));
        }
        ok
    }

    /// The target device's samples no older than `now - window_millis`,
    /// oldest first, as a fresh sequence. An out-of-range device index
    /// yields an empty sequence, never an error.
    pub fn query_at(&self, device_index: usize, window_millis: u64, now: u64) -> (r: Vec<Sample>)
        requires
            self.wf(),
        ensures
            r@ == spec_query(self@, device_index as int, window_millis, now),
            device_index >= self@.len() ==> r@ == Seq::<Sample>::empty(),
    {
        if device_index >= self.devices.len() {
            Vec::new()
        } else {
            let cutoff = if window_millis > now {
                0u64
            } else {
                now - window_millis
            };
            self.devices[device_index].filtered(cutoff)
        }
    }

    /// The target device's samples within the given window of the current
    /// instant: reads the engine's clock, then filters against it. An
    /// out-of-range device index yields an empty sequence, never an error.
    pub fn query(&self, device_index: usize, window_millis: u64) -> (r: Vec<Sample>)
        requires
            self.wf(),
        ensures
            exists|now: u64| r@ == spec_query(self@, device_index as int, window_millis, now),
            device_index >= self@.len() ==> r@ == Seq::<Sample>::empty(),
    {
        let now = crate::clock::current_instant();
        let r = self.query_at(device_index, window_millis, now);
        proof {
            assert(r@ == spec_query(self@, device_index as int, window_millis, now));
        }
        r
    }

    /// The newest sample of the target device, or `None` when the device is
    /// unknown or has no history.
    pub fn latest(&self, device_index: usize) -> (r: Option<Sample>)
        ensures
            match r {
                Some(x) => device_index < self@.len()
                    && self@[device_index as int].samples.len() > 0
                    && x == self@[device_index as int].samples.last(),
                None => device_index >= self@.len()
                    || self@[device_index as int].samples.len() == 0,
            },
    {
        if device_index >= self.devices.len() {
            None
        } else {
            self.devices[device_index].latest()
        }
    }
}


impl Default for TelemetryStore {
    /// The default store is the empty one.
    fn default() -> (s: TelemetryStore)
        ensures
            s.wf(),
            s@ == Seq::<SeriesModel>::empty(),
    {
        TelemetryStore::new()
    }
}

/// Law: ingesting a fresh device index on an empty store creates every
/// lower index as a placeholder-named, empty series, and the target
/// carries the observed name and exactly the one sample.
pub proof fn lemma_gap_fill(d: int, name: Seq<u8>, sample: Sample, horizon_millis: u64)
    requires
        d >= 0,
    ensures
        spec_ingest(Seq::<SeriesModel>::empty(), d, name, sample, horizon_millis).len() == d + 1,
        forall|i: int|
            0 <= i < d ==> spec_ingest(Seq::<SeriesModel>::empty(), d, name, sample, horizon_millis)[i]
                == placeholder_model(i),
        spec_ingest(Seq::<SeriesModel>::empty(), d, name, sample, horizon_millis)[d].name == name,
        spec_ingest(Seq::<SeriesModel>::empty(), d, name, sample, horizon_millis)[d].samples
            == seq![sample],
{
    let g = grow_to(Seq::<SeriesModel>::empty(), d + 1);
    assert(g.len() == d + 1);
    assert(g[d].samples =~= Seq::<Sample>::empty());
    let cutoff = cutoff_of(sample.timestamp, horizon_millis);
    assert(accepts(g[d].samples, sample));
    reveal(Seq::filter);
    assert(Seq::<Sample>::empty().push(sample).drop_last() =~= Seq::<Sample>::empty());
    assert(spec_push(g[d].samples, sample, cutoff) =~= seq![sample]);
}

/// Law: ingesting the same device index twice leaves the series holding
/// only the most recent name, and — when the samples arrive in order and
/// the first still lies within the horizon of the second — both samples
/// retained.
pub proof fn lemma_name_last_write_wins(
    devs: Seq<SeriesModel>,
    d: int,
    name1: Seq<u8>,
    sample1: Sample,
    name2: Seq<u8>,
    sample2: Sample,
    horizon_millis: u64,
)
    requires
        d >= 0,
        accepts(grow_to(devs, d + 1)[d].samples, sample1),
        sample1.timestamp <= sample2.timestamp,
        sample1.timestamp >= cutoff_of(sample2.timestamp, horizon_millis),
    ensures
        spec_ingest(
            spec_ingest(devs, d, name1, sample1, horizon_millis),
            d,
            name2,
            sample2,
            horizon_millis,
        )[d].name == name2,
        spec_ingest(
            spec_ingest(devs, d, name1, sample1, horizon_millis),
            d,
            name2,
            sample2,
            horizon_millis,
        )[d].samples.contains(sample1),
        spec_ingest(
            spec_ingest(devs, d, name1, sample1, horizon_millis),
            d,
            name2,
            sample2,
            horizon_millis,
        )[d].samples.contains(sample2),
{
    let g1 = grow_to(devs, d + 1);
    let s0 = g1[d].samples;
    let c1 = cutoff_of(sample1.timestamp, horizon_millis);
    let c2 = cutoff_of(sample2.timestamp, horizon_millis);
    let after1 = spec_ingest(devs, d, name1, sample1, horizon_millis);
    assert(after1.len() == g1.len());
    assert(d < after1.len());
    let s1 = after1[d].samples;
    reveal(Seq::filter);
    assert(s0.push(sample1).drop_last() =~= s0);
    assert(sample1.timestamp >= c1);
    assert(s1 == retained(s0, c1).push(sample1));
    assert(s1.last() == sample1);
    assert(s1.len() > 0);
    let g2 = grow_to(after1, d + 1);
    assert(g2 == after1);
    assert(accepts(s1, sample2));
    let after2 = spec_ingest(after1, d, name2, sample2, horizon_millis);
    assert(after2[d].name == name2);
    let s2 = after2[d].samples;
    assert(s1.push(sample2).drop_last() =~= s1);
    assert(sample2.timestamp >= c2);
    assert(s2 == retained(s1, c2).push(sample2));
    assert(s2.last() == sample2);
    assert(s2.contains(sample2));
    s1.lemma_filter_contains(|x: Sample| x.timestamp >= c2, s1.len() - 1);
    assert(retained(s1, c2).contains(sample1));
    let j = choose|j: int| 0 <= j < retained(s1, c2).len() && retained(s1, c2)[j] == sample1;
    assert(s2[j] == sample1);
    assert(s2.contains(sample1));
}

} // verus!
