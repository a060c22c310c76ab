use divan::bench::{check_timed_region, collect_samples, continue_after, normalize_sample, EntryError};
use divan::config::Options;
use divan::entry::{
    contains_substring, exit_code, run_entry, run_registry, validate_registry, BenchKind, Entry,
    EntryOutcome,
};
use divan::time::fine_duration::FineDuration;

fn fd(picos: u128) -> FineDuration {
    FineDuration { picos }
}

fn entry(name: &str, id: u64, ignore: Option<bool>) -> Entry {
    Entry {
        name: name.to_string(),
        path: format!("bench::{}", name),
        file: "benches/main.rs".to_string(),
        line: 1,
        ignore: ignore.unwrap_or(false),
        kind: BenchKind::Static,
        id,
        options: Options { sample_count: None, sample_size: None, ignore, display_name: None },
        groups: Vec::new(),
    }
}

#[test]
fn three_entries_one_ignored_yields_two_records() {
    // Three registered entries, one flagged ignored, run with
    // sample_count = 10 and sample_size = 1 on constant-time readings:
    // exactly two result records, each reporting 10 samples and a
    // non-negative mean.
    let entries = vec![
        entry("alpha", 1, None),
        entry("beta", 2, Some(true)),
        entry("gamma", 3, None),
    ];
    assert!(validate_registry(&entries).is_ok());
    let cli = Options {
        sample_count: Some(10),
        sample_size: Some(1),
        ignore: None,
        display_name: None,
    };
    let env = Options::none();
    let constant: Vec<FineDuration> = (0..10).map(|_| fd(500)).collect();
    let measurements = vec![constant.clone(), Vec::new(), constant];
    let outcomes = run_registry(&entries, &cli, &env, &None, &measurements, fd(0));
    assert_eq!(outcomes.len(), 3);
    let mut records: usize = 0;
    for outcome in &outcomes {
        match outcome {
            EntryOutcome::Completed(rep) => {
                records += 1;
                assert_eq!(rep.sample_count, 10);
                assert_eq!(rep.sample_size, 1);
                assert_eq!(rep.stats.count, 10);
                assert_eq!(rep.stats.mean.picos, 500);
                assert_eq!(rep.mean_str, "500ps");
            }
            EntryOutcome::Skipped => {}
            EntryOutcome::Failed(_) => panic!("no entry may fail here"),
        }
    }
    assert_eq!(records, 2);
    assert!(matches!(outcomes[1], EntryOutcome::Skipped));
    assert_eq!(exit_code(&outcomes), 0);
}

#[test]
fn zero_sample_count_is_a_configuration_error() {
    let e = entry("alpha", 1, None);
    let cli = Options { sample_count: Some(0), sample_size: None, ignore: None, display_name: None };
    let outcome = run_entry(&e, &cli, &Options::none(), &None, &Vec::new(), fd(0));
    assert!(matches!(outcome, EntryOutcome::Failed(EntryError::ZeroSampleCount)));
}

#[test]
fn zero_sample_size_is_a_configuration_error() {
    let e = entry("alpha", 1, None);
    let cli = Options {
        sample_count: Some(2),
        sample_size: Some(0),
        ignore: None,
        display_name: None,
    };
    let outcome = run_entry(&e, &cli, &Options::none(), &None, &vec![fd(1), fd(2)], fd(0));
    assert!(matches!(outcome, EntryOutcome::Failed(EntryError::ZeroSampleSize)));
}

#[test]
fn partial_sample_set_marks_the_entry_failed() {
    // An aborted run leaves fewer raw readings than the resolved sample
    // count: the partial measurements are discarded and the entry fails.
    let e = entry("alpha", 1, None);
    let cli = Options {
        sample_count: Some(5),
        sample_size: Some(1),
        ignore: None,
        display_name: None,
    };
    let outcome = run_entry(&e, &cli, &Options::none(), &None, &vec![fd(1), fd(2)], fd(0));
    assert!(matches!(outcome, EntryOutcome::Failed(EntryError::ExecutionFailure)));
    let outcomes = vec![outcome];
    assert_eq!(exit_code(&outcomes), 1);
}

#[test]
fn name_filter_selects_by_substring() {
    let e = entry("alpha", 1, None);
    let cli = Options {
        sample_count: Some(1),
        sample_size: Some(1),
        ignore: None,
        display_name: None,
    };
    let hit = run_entry(&e, &cli, &Options::none(), &Some("alp".to_string()), &vec![fd(3)], fd(0));
    assert!(matches!(hit, EntryOutcome::Completed(_)));
    let miss = run_entry(&e, &cli, &Options::none(), &Some("zzz".to_string()), &vec![fd(3)], fd(0));
    assert!(matches!(miss, EntryOutcome::Skipped));
}

#[test]
fn substring_search() {
    assert!(contains_substring("bench::alpha", "alpha"));
    assert!(contains_substring("bench::alpha", ""));
    assert!(contains_substring("bench::alpha", "bench::alpha"));
    assert!(!contains_substring("bench::alpha", "bench::alphas"));
    assert!(!contains_substring("abc", "cb"));
    assert!(contains_substring("aaab", "aab"));
}

#[test]
fn duplicate_identity_tokens_are_fatal() {
    let entries = vec![entry("alpha", 7, None), entry("beta", 8, None), entry("gamma", 7, None)];
    assert_eq!(validate_registry(&entries), Err(7));
}

#[test]
fn overhead_is_subtracted_and_clamped() {
    // elapsed 1000, overhead 30 per iteration, 4 iterations:
    // (1000 - 120) / 4 = 220.
    assert_eq!(normalize_sample(fd(1000), fd(30), 4).picos, 220);
    // Overhead larger than the reading clamps at zero.
    assert_eq!(normalize_sample(fd(100), fd(30), 4).picos, 0);
    let set = collect_samples(&vec![fd(1000), fd(100)], fd(30), 4);
    assert_eq!(set.samples.len(), 2);
    assert_eq!(set.samples[0].picos, 220);
    assert_eq!(set.samples[1].picos, 0);
}

#[test]
fn timed_region_must_run_exactly_once() {
    assert!(check_timed_region(1).is_ok());
    assert_eq!(check_timed_region(0), Err(EntryError::TimedRegionMisuse { invocations: 0 }));
    assert_eq!(check_timed_region(3), Err(EntryError::TimedRegionMisuse { invocations: 3 }));
}

#[test]
fn fail_fast_stops_the_run() {
    assert!(continue_after(false, false));
    assert!(continue_after(false, true));
    assert!(continue_after(true, false));
    assert!(!continue_after(true, true));
}
