//! Bench loop scheduling arithmetic: normalizing raw sample measurements.
//!
//! The runner measures, for each sample, the wall-clock time of a tight
//! loop of `sample_size` iterations, and once per run the cost of the empty
//! measurement harness itself. This module holds the verified reduction of
//! those raw readings: overhead subtraction, clamping at zero and division
//! by the iteration count, plus the enforcement rules of the scheduler.

use vstd::prelude::*;

use crate::stats::SampleSet;
use crate::time::fine_duration::FineDuration;

verus! {

/// Largest raw picosecond reading the scheduler accepts for one sample or
/// for the calibrated per-iteration overhead; keeps every downstream
/// accumulation inside 128 bits.
pub const MAX_SAMPLE_PICOS: u128 = 0x7FFF_FFFF_FFFF;

/// Why one entry produced no statistics. Each failure is confined to its
/// entry; the run continues with the next one.
#[derive(Clone, Copy, Debug, PartialEq, Eq, Structural)]
pub enum EntryError {
    /// The resolved sample count was zero: a configuration error.
    ZeroSampleCount,
    /// The resolved sample size was zero: a configuration error.
    ZeroSampleSize,
    /// A handle-driven routine invoked its timed region a number of times
    /// other than exactly once: a configuration error.
    TimedRegionMisuse { invocations: u32 },
    /// The routine terminated abnormally or produced no complete sample
    /// set; partial measurements are discarded.
    ExecutionFailure,
}

/// One normalized per-iteration duration: elapsed time minus the calibrated
/// overhead for the whole batch, clamped at zero, divided by the batch size.
pub open spec fn normalized_picos(elapsed: int, overhead: int, size: int) -> int
    recommends
        size >= 1,
{
    if elapsed >= overhead * size {
        (elapsed - overhead * size) / size
    } else {
        0
    }
}

/// The whole normalized sample sequence for one run.
pub open spec fn normalized_seq(raw: Seq<FineDuration>, overhead: int, size: int) -> Seq<
    FineDuration,
> {
    raw.map_values(
        |d: FineDuration| FineDuration { picos: normalized_picos(d.picos as int, overhead, size) as u128 },
    )
}

/// Normalizes one raw sample reading.
pub fn normalize_sample(elapsed: FineDuration, overhead: FineDuration, sample_size: u32) -> (r:
    FineDuration)
    requires
        sample_size >= 1,
        overhead.picos <= MAX_SAMPLE_PICOS,
        elapsed.picos <= MAX_SAMPLE_PICOS,
    ensures
        r.picos == normalized_picos(elapsed.picos as int, overhead.picos as int, sample_size as int),
        r.picos <= elapsed.picos,
{
    proof {
        assert(overhead.picos as int * sample_size as int <= MAX_SAMPLE_PICOS * 0xFFFF_FFFF)
            by (nonlinear_arith)
            requires
                overhead.picos <= MAX_SAMPLE_PICOS,
                0 <= sample_size <= 0xFFFF_FFFFu32,
        ;
    }
    let cost = overhead.picos * (sample_size as u128);
    if elapsed.picos >= cost {
        let d = (elapsed.picos - cost) / (sample_size as u128);
        proof {
            vstd::arithmetic::div_mod::lemma_div_is_ordered_by_denominator(
                elapsed.picos as int - cost as int,
                1,
                sample_size as int,
            );
            vstd::arithmetic::div_mod::lemma_div_basics((elapsed.picos - cost) as int);
        }
        FineDuration { picos: d }
    } else {
        FineDuration { picos: 0 }
    }
}

/// Normalizes a whole run's raw readings into its sample set, in order.
pub fn collect_samples(raw: &Vec<FineDuration>, overhead: FineDuration, sample_size: u32) -> (r:
    SampleSet)
    requires
        sample_size >= 1,
        overhead.picos <= MAX_SAMPLE_PICOS,
        forall|j: int| 0 <= j < raw@.len() ==> raw@[j].picos <= MAX_SAMPLE_PICOS,
    ensures
        r.samples@ == normalized_seq(raw@, overhead.picos as int, sample_size as int),
        r.samples@.len() == raw@.len(),
        forall|j: int| 0 <= j < raw@.len() ==> r.samples@[j].picos <= raw@[j].picos,
{
    let mut samples: Vec<FineDuration> = Vec::new();
    let mut idx: usize = 0;
    while idx < raw.len()
        invariant
            idx <= raw@.len(),
            sample_size >= 1,
            overhead.picos <= MAX_SAMPLE_PICOS,
            forall|j: int| 0 <= j < raw@.len() ==> raw@[j].picos <= MAX_SAMPLE_PICOS,
            samples@ =~= normalized_seq(
                raw@.subrange(0, idx as int),
                overhead.picos as int,
                sample_size as int,
            ),
            forall|j: int| 0 <= j < idx ==> samples@[j].picos <= raw@[j].picos,
        decreases raw@.len() - idx,
    {
        let s = normalize_sample(raw[idx], overhead, sample_size);
        samples.push(s);
        proof {
            assert(raw@.subrange(0, idx as int + 1) =~= raw@.subrange(0, idx as int).push(
                raw@[idx as int],
            ));
        }
        idx = idx + 1;
    }
    proof {
        assert(raw@.subrange(0, raw@.len() as int) =~= raw@);
    }
    SampleSet { samples }
}

/// Enforces the handle-driven contract: the routine must invoke its timed
/// region exactly once per sample; zero or several invocations is a
/// configuration error for the entry.
pub fn check_timed_region(invocations: u32) -> (r: Result<(), EntryError>)
    ensures
        r is Ok <==> invocations == 1,
        r is Err ==> r->Err_0 == (EntryError::TimedRegionMisuse { invocations }),
{
    if invocations == 1 {
        Result::Ok(())
    } else {
        Result::Err(EntryError::TimedRegionMisuse { invocations })
    }
}

/// Whether the run proceeds to the next entry after an entry's outcome:
/// always, unless the entry failed and fail-fast is configured.
pub fn continue_after(failed: bool, fail_fast: bool) -> (r: bool)
    ensures
        r == !(failed && fail_fast),
{
    !(failed && fail_fast)
}

} // verus!
