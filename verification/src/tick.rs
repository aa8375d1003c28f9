//! One polling tick: parses the whole probe output and routes every line
//! into the store. Malformed lines are skipped; prior state is kept.

use vstd::prelude::*;
use crate::parse::{field_milli, line_fields, parse_line, spec_device_index, spec_lines, split_lines};
use crate::sample::Sample;
use crate::series::SeriesModel;
use crate::store::{spec_ingest, TelemetryStore};
use crate::window::{retention_horizon_millis, spec_retention_horizon};

verus! {

/// The sample one well-formed probe line contributes at instant `now`.
pub open spec fn line_sample(line: Seq<u8>, now: u64) -> Sample {
    Sample {
        timestamp: now,
        utilization: field_milli(line_fields(line)[2]) as i64,
        memory_used: field_milli(line_fields(line)[3]) as i64,
        memory_total: field_milli(line_fields(line)[4]) as i64,
        temperature: field_milli(line_fields(line)[5]) as i64,
        power_draw: field_milli(line_fields(line)[6]) as i64,
    }
}

/// What one probe line does to the store: a line with fewer than seven
/// fields changes nothing, and so does a device index at the machine
/// bound (which could not be grown to); every other line is one ingest.
pub open spec fn spec_ingest_line(
    devs: Seq<SeriesModel>,
    line: Seq<u8>,
    pos: int,
    now: u64,
    horizon_millis: u64,
) -> Seq<SeriesModel> {
    let fs = line_fields(line);
    if fs.len() < 7 {
        devs
    } else {
        let d = spec_device_index(fs[0], pos);
        if d == usize::MAX {
            devs
        } else {
            spec_ingest(devs, d, fs[1], line_sample(line, now), horizon_millis)
        }
    }
}

/// What one whole tick does to the store: every line from position `k`
/// on, folded left to right.
pub open spec fn spec_tick_from(
    devs: Seq<SeriesModel>,
    lines: Seq<Seq<u8>>,
    k: int,
    now: u64,
    horizon_millis: u64,
) -> Seq<SeriesModel>
    decreases lines.len() - k,
{
    if k < 0 || k >= lines.len() {
        devs
    } else {
        spec_tick_from(
            spec_ingest_line(devs, lines[k], k, now, horizon_millis),
            lines,
            k + 1,
            now,
            horizon_millis,
        )
    }
}

/// What one whole tick of probe output does to the store.
pub open spec fn spec_tick(
    devs: Seq<SeriesModel>,
    text: Seq<u8>,
    now: u64,
    horizon_millis: u64,
) -> Seq<SeriesModel> {
    spec_tick_from(devs, spec_lines(text), 0, now, horizon_millis)
}

/// Routes one probe line into the store; the line's position stands in
/// for an unparsable device index.
pub fn ingest_line(
    store: &mut TelemetryStore,
    line: &Vec<u8>,
    pos: usize,
    now: u64,
    horizon_millis: u64,
)
    requires
        old(store).wf(),
        pos < usize::MAX,
    ensures
        final(store).wf(),
        final(store)@ == spec_ingest_line(old(store)@, line@, pos as int, now, horizon_millis),
{
    match parse_line(line, pos) {
        None => {
        },
        Some(rd) => {
            if rd.device_index < usize::MAX {
                let sample = Sample::new(
                    now,
                    rd.utilization,
                    rd.memory_used,
                    rd.memory_total,
                    rd.temperature,
                    rd.power_draw,
                );
                let _ = store.ingest(rd.device_index, rd.name, sample, horizon_millis);
            }
        },
    }
}

/// Ingests one whole tick of probe output, all lines stamped with the
/// same instant `now` and retained against `now - horizon_millis`.
pub fn ingest_text(store: &mut TelemetryStore, text: &Vec<u8>, now: u64, horizon_millis: u64)
    requires
        old(store).wf(),
    ensures
        final(store).wf(),
        final(store)@ == spec_tick(old(store)@, text@, now, horizon_millis),
{
    let lines = split_lines(text);
    let ghost sl = spec_lines(text@);
    let n = lines.len();
    let mut k: usize = 0;
    while k < n
        invariant
            n == lines@.len(),
            lines@.map_values(|l: Vec<u8>| l@) == sl,
            sl == spec_lines(text@),
            0 <= k <= n,
            store.wf(),
            spec_tick_from(store@, sl, k as int, now, horizon_millis) == spec_tick_from(
                old(store)@,
                sl,
                0,
                now,
                horizon_millis,
            ),
        decreases n - k,
    {
        proof {
            assert(lines@.map_values(|l: Vec<u8>| l@)[k as int] == lines@[k as int]@);
        }
        let ghost before = store@;
        ingest_line(store, &lines[k], k, now, horizon_millis);
        proof {
            assert(store@ == spec_ingest_line(before, sl[k as int], k as int, now, horizon_millis));
            assert(spec_tick_from(before, sl, k as int, now, horizon_millis) == spec_tick_from(
                store@,
                sl,
                k + 1,
                now,
                horizon_millis,
            ));
        }
        k += 1;
    }
    proof {
        assert(spec_tick_from(store@, sl, n as int, now, horizon_millis) == store@);
    }
}

/// Ingests one tick of probe output, stamped with the current instant on
/// the engine's clock and retained against the configured horizon.
pub fn ingest_text_now(store: &mut TelemetryStore, text: &Vec<u8>)
    requires
        old(store).wf(),
    ensures
        final(store).wf(),
        exists|now: u64|
            final(store)@ == spec_tick(old(store)@, text@, now, spec_retention_horizon()),
{
    let now = crate::clock::current_instant();
    let horizon = retention_horizon_millis();
    ingest_text(store, text, now, horizon);
    proof {
        assert(store@ == spec_tick(old(store)@, text@, now, spec_retention_horizon()));
    }
}

} // verus!
