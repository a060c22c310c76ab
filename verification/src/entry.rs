//! Benchmark entries, the registry that holds them, and the driver that
//! turns raw measurements for each entry into one outcome per entry.
//!
//! The registry is a read-only, order-preserving collection of registration
//! records assembled before any entry runs. The driver filters entries by a
//! substring of their name or path, resolves each survivor's configuration,
//! normalizes the raw per-sample readings the runner hands it, aggregates
//! them, and renders every statistic. A failure stays confined to its entry.

use vstd::prelude::*;

use crate::bench::{collect_samples, normalized_seq, EntryError, MAX_SAMPLE_PICOS};
use crate::config::{resolve, resolved_value, Options, DEFAULT_SAMPLE_COUNT, DEFAULT_SAMPLE_SIZE};
use crate::stats::{
    lemma_sq_dev_bounded, lemma_sum_bounded, spec_median, sq_dev_sum, sum_picos, Statistics,
};
use crate::time::fine_duration::{spec_duration_str, FineDuration};

verus! {

use vstd::string::StrSliceExecFns;

/// Execution variant of a registered routine: driven entirely by the
/// scheduler, or handed a measurement handle that it must invoke exactly
/// once per sample.
#[derive(Clone, Copy, Debug, PartialEq, Eq, Structural)]
pub enum BenchKind {
    Static,
    Runtime,
}

/// One registered benchmark: an immutable record created before any
/// execution. `id` is the identity token that detects duplicate
/// registration of the same underlying routine; `options` are the values
/// declared on the entry itself and `groups` the declarations of its
/// enclosing groups, innermost first.
pub struct Entry {
    pub name: String,
    pub path: String,
    pub file: String,
    pub line: u32,
    pub ignore: bool,
    pub kind: BenchKind,
    pub id: u64,
    pub options: Options,
    pub groups: Vec<Options>,
}

/// No two entries share an identity token.
pub open spec fn unique_ids(s: Seq<Entry>) -> bool {
    forall|i: int, j: int| 0 <= i < j < s.len() ==> s[i].id != s[j].id
}

/// Checks the registry's identity invariant: `Ok` exactly when every
/// identity token is unique; otherwise the duplicated token, a fatal
/// startup error.
pub fn validate_registry(entries: &Vec<Entry>) -> (r: Result<(), u64>)
    ensures
        r is Ok <==> unique_ids(entries@),
        r is Err ==> exists|i: int, j: int|
            0 <= i < j < entries@.len() && entries@[i].id == entries@[j].id && entries@[i].id
                == r->Err_0,
{
    let mut i: usize = 0;
    while i < entries.len()
        invariant
            i <= entries@.len(),
            forall|a: int, b: int| 0 <= a < b < entries@.len() && a < i ==> entries@[a].id
                != entries@[b].id,
        decreases entries@.len() - i,
    {
        let mut j: usize = i + 1;
        while j < entries.len()
            invariant
                i < j <= entries@.len() || (i >= entries@.len() && j == i + 1),
                i < entries@.len(),
                forall|b: int| i < b < j ==> entries@[i as int].id != entries@[b].id,
            decreases entries@.len() - j,
        {
            if entries[i].id == entries[j].id {
                return Result::Err(entries[i].id);
            }
            j = j + 1;
        }
        i = i + 1;
    }
    Result::Ok(())
}

/// Whether `needle` occurs as a contiguous run of characters in `hay`.
pub open spec fn contains_seq(hay: Seq<char>, needle: Seq<char>) -> bool {
    exists|k: int|
        0 <= k && k + needle.len() <= hay.len() && #[trigger] hay.subrange(k, k + needle.len() as int)
            == needle
}

/// Substring search by character comparison.
pub fn contains_substring(hay: &str, needle: &str) -> (r: bool)
    ensures
        r == contains_seq(hay@, needle@),
{
    let h = hay.unicode_len();
    let n = needle.unicode_len();
    if n > h {
        return false;
    }
    let mut k: usize = 0;
    while k <= h - n
        invariant
            n <= h == hay@.len(),
            n == needle@.len(),
            k <= h - n + 1,
            forall|k2: int| 0 <= k2 < k ==> #[trigger] hay@.subrange(k2, k2 + needle@.len() as int)
                != needle@,
        decreases h - n + 1 - k,
    {
        let mut t: usize = 0;
        let mut matched = true;
        while matched && t < n
            invariant
                t <= n,
                n <= h == hay@.len(),
                n == needle@.len(),
                k + n <= h,
                matched ==> forall|t2: int| 0 <= t2 < t ==> hay@[k + t2] == needle@[t2],
                !matched ==> exists|t2: int| 0 <= t2 < n && hay@[k + t2] != needle@[t2],
            decreases n - t + (if matched {
                1int
            } else {
                0int
            }),
        {
            if hay.get_char(k + t) != needle.get_char(t) {
                matched = false;
            } else {
                t = t + 1;
            }
        }
        if matched {
            proof {
                assert(hay@.subrange(k as int, k as int + needle@.len() as int) =~= needle@);
            }
            return true;
        }
        proof {
            let t2 = choose|t2: int| 0 <= t2 < n && hay@[k + t2] != needle@[t2];
            assert(hay@.subrange(k as int, k as int + needle@.len() as int)[t2] != needle@[t2]);
        }
        k = k + 1;
    }
    proof {
        assert(!contains_seq(hay@, needle@)) by {
            if contains_seq(hay@, needle@) {
                let k2 = choose|k2: int|
                    0 <= k2 && k2 + needle@.len() <= hay@.len() && #[trigger] hay@.subrange(
                        k2,
                        k2 + needle@.len() as int,
                    ) == needle@;
                assert(hay@.subrange(k2, k2 + needle@.len() as int) != needle@);
            }
        }
    }
    false
}

/// Whether the name filter selects an entry: no filter selects everything,
/// a filter selects entries whose display name or path contains it.
pub open spec fn selected_spec(e: Entry, filter: Option<String>) -> bool {
    match filter {
        Option::None => true,
        Option::Some(f) => contains_seq(e.name@, f@) || contains_seq(e.path@, f@),
    }
}

/// The entry's resolved sample count.
pub open spec fn resolved_count_spec(cli: Options, env: Options, e: Entry) -> u32 {
    resolved_value(
        cli.sample_count,
        env.sample_count,
        e.options.sample_count,
        e.groups@.map_values(|o: Options| o.sample_count),
        DEFAULT_SAMPLE_COUNT,
    )
}

/// The entry's resolved sample size.
pub open spec fn resolved_size_spec(cli: Options, env: Options, e: Entry) -> u32 {
    resolved_value(
        cli.sample_size,
        env.sample_size,
        e.options.sample_size,
        e.groups@.map_values(|o: Options| o.sample_size),
        DEFAULT_SAMPLE_SIZE,
    )
}

/// The entry's resolved ignore flag.
pub open spec fn resolved_ignore_spec(cli: Options, env: Options, e: Entry) -> bool {
    resolved_value(
        cli.ignore,
        env.ignore,
        e.options.ignore,
        e.groups@.map_values(|o: Options| o.ignore),
        false,
    )
}

/// The name an entry is reported under: its declared display-name override
/// if any, else its registered name.
pub open spec fn display_name_spec(e: Entry) -> Seq<char> {
    if e.options.display_name is Some {
        e.options.display_name->0@
    } else {
        e.name@
    }
}

/// One emitted result record: the resolved name and path, the resolved
/// counts, the statistics snapshot and each statistic rendered through the
/// duration model.
pub struct EntryReport {
    pub name: String,
    pub path: String,
    pub sample_count: u32,
    pub sample_size: u32,
    pub iter_count: u64,
    pub stats: Statistics,
    pub total_str: String,
    pub mean_str: String,
    pub min_str: String,
    pub max_str: String,
    pub median_str: String,
    pub std_dev_str: String,
}

/// The driver's verdict on one entry.
pub enum EntryOutcome {
    /// Not selected by the filter, or resolved as ignored: zero execution.
    Skipped,
    /// A configuration error or an abnormal termination, confined to this
    /// entry.
    Failed(EntryError),
    /// A completed run with its result record.
    Completed(EntryReport),
}

/// Everything the driver promises about the outcome of one entry, given
/// the raw per-sample readings `raw` and the calibrated per-iteration
/// overhead.
pub open spec fn outcome_matches(
    e: Entry,
    cli: Options,
    env: Options,
    filter: Option<String>,
    raw: Seq<FineDuration>,
    overhead: int,
    outcome: EntryOutcome,
) -> bool {
    let count = resolved_count_spec(cli, env, e);
    let size = resolved_size_spec(cli, env, e);
    if !selected_spec(e, filter) || resolved_ignore_spec(cli, env, e) {
        outcome is Skipped
    } else if count == 0 {
        outcome == EntryOutcome::Failed(EntryError::ZeroSampleCount)
    } else if size == 0 {
        outcome == EntryOutcome::Failed(EntryError::ZeroSampleSize)
    } else if raw.len() != count {
        outcome == EntryOutcome::Failed(EntryError::ExecutionFailure)
    } else {
        let ns = normalized_seq(raw, overhead, size as int);
        let mean = sum_picos(ns) / count as int;
        &&& outcome is Completed
        &&& {
            let rep = outcome->Completed_0;
            &&& rep.name@ == display_name_spec(e)
            &&& rep.path@ == e.path@
            &&& rep.sample_count == count
            &&& rep.sample_size == size
            &&& rep.iter_count == count as int * size as int
            &&& rep.stats.count == count
            &&& rep.stats.total.picos == sum_picos(ns)
            &&& rep.stats.mean.picos == mean
            &&& (exists|j: int| 0 <= j < ns.len() && ns[j].picos == rep.stats.min.picos)
            &&& (forall|j: int| 0 <= j < ns.len() ==> rep.stats.min.picos <= ns[j].picos)
            &&& (exists|j: int| 0 <= j < ns.len() && ns[j].picos == rep.stats.max.picos)
            &&& (forall|j: int| 0 <= j < ns.len() ==> ns[j].picos <= rep.stats.max.picos)
            &&& rep.stats.median.picos == spec_median(ns)
            &&& rep.stats.variance == sq_dev_sum(ns, mean) / count as int
            &&& rep.stats.std_dev.picos * rep.stats.std_dev.picos <= rep.stats.variance
            &&& rep.stats.variance < (rep.stats.std_dev.picos + 1) * (rep.stats.std_dev.picos + 1)
            &&& rep.total_str@ == spec_duration_str(rep.stats.total.picos as nat)
            &&& rep.mean_str@ == spec_duration_str(rep.stats.mean.picos as nat)
            &&& rep.min_str@ == spec_duration_str(rep.stats.min.picos as nat)
            &&& rep.max_str@ == spec_duration_str(rep.stats.max.picos as nat)
            &&& rep.median_str@ == spec_duration_str(rep.stats.median.picos as nat)
            &&& rep.std_dev_str@ == spec_duration_str(rep.stats.std_dev.picos as nat)
        }
    }
}

/// Runs the driver pipeline for one entry: filtering, configuration
/// resolution, normalization of the raw readings, aggregation and
/// rendering. The raw readings are the per-sample elapsed times the runner
/// measured; a reading count other than the resolved sample count means the
/// run ended abnormally, so the partial measurements are discarded and the
/// entry reported failed.
pub fn run_entry(
    entry: &Entry,
    cli: &Options,
    env: &Options,
    filter: &Option<String>,
    raw: &Vec<FineDuration>,
    overhead: FineDuration,
) -> (r: EntryOutcome)
    requires
        overhead.picos <= MAX_SAMPLE_PICOS,
        forall|j: int| 0 <= j < raw@.len() ==> raw@[j].picos <= MAX_SAMPLE_PICOS,
    ensures
        outcome_matches(*entry, *cli, *env, *filter, raw@, overhead.picos as int, r),
{
    let selected = match filter {
        Option::None => true,
        Option::Some(f) => {
            contains_substring(entry.name.as_str(), f.as_str()) || contains_substring(
                entry.path.as_str(),
                f.as_str(),
            )
        },
    };
    if !selected {
        return EntryOutcome::Skipped;
    }
    let resolved = resolve(cli, env, &entry.options, &entry.groups);
    if resolved.ignore {
        return EntryOutcome::Skipped;
    }
    if resolved.sample_count == 0 {
        return EntryOutcome::Failed(EntryError::ZeroSampleCount);
    }
    if resolved.sample_size == 0 {
        return EntryOutcome::Failed(EntryError::ZeroSampleSize);
    }
    if raw.len() != resolved.sample_count as usize {
        return EntryOutcome::Failed(EntryError::ExecutionFailure);
    }
    let set = collect_samples(raw, overhead, resolved.sample_size);
    proof {
        let ns = set.samples@;
        let count = ns.len() as int;
        assert(forall|j: int| 0 <= j < ns.len() ==> ns[j].picos <= MAX_SAMPLE_PICOS);
        lemma_sum_bounded(ns, MAX_SAMPLE_PICOS as int);
        assert(MAX_SAMPLE_PICOS as int * count <= MAX_SAMPLE_PICOS * 0x1_0000_0000)
            by (nonlinear_arith)
            requires
                0 <= count <= 0x1_0000_0000,
        ;
        let mean = sum_picos(ns) / count;
        vstd::arithmetic::div_mod::lemma_div_is_ordered(
            sum_picos(ns),
            MAX_SAMPLE_PICOS as int * count,
            count,
        );
        vstd::arithmetic::div_mod::lemma_div_multiples_vanish(
            MAX_SAMPLE_PICOS as int,
            count,
        );
        vstd::arithmetic::mul::lemma_mul_is_commutative(MAX_SAMPLE_PICOS as int, count);
        vstd::arithmetic::div_mod::lemma_div_pos_is_pos(sum_picos(ns), count);
        assert(0 <= mean <= MAX_SAMPLE_PICOS);
        lemma_sq_dev_bounded(ns, mean, MAX_SAMPLE_PICOS as int);
        let b = MAX_SAMPLE_PICOS as int;
        assert((b * b) * count <= (b * b) * 0x1_0000_0000) by (nonlinear_arith)
            requires
                0 <= count <= 0x1_0000_0000,
                b == MAX_SAMPLE_PICOS as int,
        ;
    }
    let stats = Statistics::from_sample_set(&set);
    let name: String = match &resolved.display_name {
        Option::Some(n) => n.clone(),
        Option::None => entry.name.clone(),
    };
    proof {
        let c = resolved.sample_count as int;
        let z = resolved.sample_size as int;
        assert(c * z < 0x10000000000000000) by (nonlinear_arith)
            requires
                0 <= c <= 0xFFFF_FFFF,
                0 <= z <= 0xFFFF_FFFF,
        ;
    }
    let iter_count = (resolved.sample_count as u64) * (resolved.sample_size as u64);
    let report = EntryReport {
        name,
        path: entry.path.clone(),
        sample_count: resolved.sample_count,
        sample_size: resolved.sample_size,
        iter_count,
        total_str: stats.total.fmt(),
        mean_str: stats.mean.fmt(),
        min_str: stats.min.fmt(),
        max_str: stats.max.fmt(),
        median_str: stats.median.fmt(),
        std_dev_str: stats.std_dev.fmt(),
        stats,
    };
    EntryOutcome::Completed(report)
}

/// Drives a whole registry: one outcome per entry, in registry order, each
/// outcome exactly as `run_entry` decides it from that entry's raw
/// readings. A failed entry never affects any other entry's outcome.
pub fn run_registry(
    entries: &Vec<Entry>,
    cli: &Options,
    env: &Options,
    filter: &Option<String>,
    measurements: &Vec<Vec<FineDuration>>,
    overhead: FineDuration,
) -> (r: Vec<EntryOutcome>)
    requires
        measurements@.len() == entries@.len(),
        overhead.picos <= MAX_SAMPLE_PICOS,
        forall|j: int, t: int|
            0 <= j < measurements@.len() && 0 <= t < measurements@[j]@.len()
                ==> measurements@[j]@[t].picos <= MAX_SAMPLE_PICOS,
    ensures
        r@.len() == entries@.len(),
        forall|j: int| 0 <= j < entries@.len() ==> outcome_matches(
            entries@[j],
            *cli,
            *env,
            *filter,
            measurements@[j]@,
            overhead.picos as int,
            r@[j],
        ),
{
    let mut outcomes: Vec<EntryOutcome> = Vec::new();
    let mut idx: usize = 0;
    while idx < entries.len()
        invariant
            idx <= entries@.len(),
            measurements@.len() == entries@.len(),
            overhead.picos <= MAX_SAMPLE_PICOS,
            forall|j: int, t: int|
                0 <= j < measurements@.len() && 0 <= t < measurements@[j]@.len()
                    ==> measurements@[j]@[t].picos <= MAX_SAMPLE_PICOS,
            outcomes@.len() == idx,
            forall|j: int| 0 <= j < idx ==> outcome_matches(
                entries@[j],
                *cli,
                *env,
                *filter,
                measurements@[j]@,
                overhead.picos as int,
                outcomes@[j],
            ),
        decreases entries@.len() - idx,
    {
        let outcome = run_entry(&entries[idx], cli, env, filter, &measurements[idx], overhead);
        outcomes.push(outcome);
        idx = idx + 1;
    }
    outcomes
}

/// The process exit code for a finished run: zero exactly when no entry
/// failed.
pub fn exit_code(outcomes: &Vec<EntryOutcome>) -> (r: i32)
    ensures
        (r == 0) <==> (forall|j: int| 0 <= j < outcomes@.len() ==> !(outcomes@[j] is Failed)),
        r == 0 || r == 1,
{
    let mut idx: usize = 0;
    while idx < outcomes.len()
        invariant
            idx <= outcomes@.len(),
            forall|j: int| 0 <= j < idx ==> !(outcomes@[j] is Failed),
        decreases outcomes@.len() - idx,
    {
        let failed = match &outcomes[idx] {
            EntryOutcome::Failed(_) => true,
            _ => false,
        };
        if failed {
            return 1;
        }
        idx = idx + 1;
    }
    0
}

} // verus!
