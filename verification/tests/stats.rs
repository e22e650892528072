use splat_settings::stats::{median_at, p95_at, sort_frame_times, summarize_frame_times, MedianAt};

#[test]
fn sorts_ascending_keeping_duplicates() {
    let times: Vec<u128> = vec![5, 3, 9, 3, 1, 7];
    assert_eq!(sort_frame_times(&times), vec![1, 3, 3, 5, 7, 9]);
}

#[test]
fn sorts_empty_and_single() {
    assert_eq!(sort_frame_times(&Vec::new()), Vec::<u128>::new());
    assert_eq!(sort_frame_times(&vec![42]), vec![42]);
}

#[test]
fn sorts_reversed_input() {
    let times: Vec<u128> = (0..50).rev().collect();
    let expected: Vec<u128> = (0..50).collect();
    assert_eq!(sort_frame_times(&times), expected);
}

#[test]
fn median_positions() {
    assert_eq!(median_at(1), MedianAt::Middle(0));
    assert_eq!(median_at(2), MedianAt::Between(0, 1));
    assert_eq!(median_at(5), MedianAt::Middle(2));
    assert_eq!(median_at(200), MedianAt::Between(99, 100));
}

#[test]
fn p95_positions() {
    assert_eq!(p95_at(1), 0);
    assert_eq!(p95_at(2), 1);
    assert_eq!(p95_at(19), 18);
    assert_eq!(p95_at(20), 19);
    assert_eq!(p95_at(21), 19);
    assert_eq!(p95_at(199), 189);
    assert_eq!(p95_at(200), 190);
    assert_eq!(p95_at(usize::MAX), usize::MAX - usize::MAX / 20 - 1);
}

#[test]
fn p95_matches_float_formula() {
    for n in 1usize..5000 {
        let float_idx = ((n as f64) * 0.95) as usize;
        assert_eq!(p95_at(n), float_idx.min(n - 1), "n = {}", n);
    }
}

#[test]
fn summary_of_measurement() {
    let times: Vec<u128> = vec![16_000_000, 17_000_000, 15_000_000, 30_000_000];
    let s = summarize_frame_times(&times);
    assert_eq!(s.sorted, vec![15_000_000, 16_000_000, 17_000_000, 30_000_000]);
    assert_eq!(s.median, MedianAt::Between(1, 2));
    assert_eq!(s.p95, 3);
}
