use divan::stats::{
    isqrt_u128, max_duration, median_picos, min_duration, sorted_picos, total_picos, SampleSet,
    Statistics,
};
use divan::time::fine_duration::FineDuration;

fn fd(picos: u128) -> FineDuration {
    FineDuration { picos }
}

fn sample_set(picos: &[u128]) -> SampleSet {
    SampleSet { samples: picos.iter().map(|p| fd(*p)).collect() }
}

#[test]
fn uniform_unit_snapshot() {
    // {1,2,3,4,5}: mean 3, median 3, min 1, max 5, population variance 2,
    // standard deviation truncated from the square root of 2.
    let set = sample_set(&[1, 2, 3, 4, 5]);
    let stats = Statistics::from_sample_set(&set);
    assert_eq!(stats.count, 5);
    assert_eq!(stats.total.picos, 15);
    assert_eq!(stats.mean.picos, 3);
    assert_eq!(stats.median.picos, 3);
    assert_eq!(stats.min.picos, 1);
    assert_eq!(stats.max.picos, 5);
    assert_eq!(stats.variance, 2);
    assert_eq!(stats.std_dev.picos, 1);
    assert!(stats.std_dev.picos * stats.std_dev.picos <= stats.variance);
    assert!(stats.variance < (stats.std_dev.picos + 1) * (stats.std_dev.picos + 1));
}

#[test]
fn even_count_median_averages_middle_pair() {
    let set = sample_set(&[40, 10, 20, 31]);
    let stats = Statistics::from_sample_set(&set);
    assert_eq!(stats.median.picos, 25);
    assert_eq!(stats.min.picos, 10);
    assert_eq!(stats.max.picos, 40);
    assert_eq!(stats.mean.picos, 25);
}

#[test]
fn single_sample_snapshot() {
    let set = sample_set(&[7]);
    let stats = Statistics::from_sample_set(&set);
    assert_eq!(stats.count, 1);
    assert_eq!(stats.mean.picos, 7);
    assert_eq!(stats.median.picos, 7);
    assert_eq!(stats.min.picos, 7);
    assert_eq!(stats.max.picos, 7);
    assert_eq!(stats.variance, 0);
    assert_eq!(stats.std_dev.picos, 0);
}

#[test]
fn equal_samples_have_zero_spread() {
    let set = sample_set(&[9, 9, 9, 9]);
    let stats = Statistics::from_sample_set(&set);
    assert_eq!(stats.variance, 0);
    assert_eq!(stats.std_dev.picos, 0);
    assert_eq!(stats.min.picos, 9);
    assert_eq!(stats.max.picos, 9);
    assert_eq!(stats.median.picos, 9);
}

#[test]
fn sorting_is_a_sorted_permutation() {
    let set = sample_set(&[5, 3, 3, 8, 1]);
    let sorted = sorted_picos(&set.samples);
    assert_eq!(sorted, vec![1, 3, 3, 5, 8]);
}

#[test]
fn sum_min_max_helpers() {
    let set = sample_set(&[4, 4, 2, 10]);
    assert_eq!(total_picos(&set.samples), 20);
    assert_eq!(min_duration(&set.samples).picos, 2);
    assert_eq!(max_duration(&set.samples).picos, 10);
    assert_eq!(median_picos(&set.samples), 4);
}

#[test]
fn integer_square_roots() {
    assert_eq!(isqrt_u128(0), 0);
    assert_eq!(isqrt_u128(1), 1);
    assert_eq!(isqrt_u128(2), 1);
    assert_eq!(isqrt_u128(3), 1);
    assert_eq!(isqrt_u128(4), 2);
    assert_eq!(isqrt_u128(99), 9);
    assert_eq!(isqrt_u128(100), 10);
    assert_eq!(isqrt_u128(u128::MAX), u64::MAX as u128);
}
