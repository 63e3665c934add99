use freebj::running_stats::RunningStats;

fn mean_of(stats: &RunningStats) -> f64 {
    stats.sum() as f64 / stats.count() as f64
}

fn variance_of(stats: &RunningStats) -> f64 {
    let n = stats.count() as f64;
    let sum = stats.sum() as f64;
    let sumsq = stats.sum_squares() as f64;
    (n * sumsq - sum * sum) / (n * (n - 1.0))
}

#[test]
fn it_is_empty() {
    let stats = RunningStats::default();

    assert_eq!(stats.count(), 0);
    assert!(stats.min().is_none());
    assert!(stats.max().is_none());
    assert_eq!(stats.sum(), 0);
    assert_eq!(stats.sum_squares(), 0);
}

#[test]
fn it_pushes_one_value() {
    let mut stats = RunningStats::default();

    stats.push(42);

    assert_eq!(stats.count(), 1);
    assert_eq!(stats.min(), Some(42));
    assert_eq!(stats.max(), Some(42));
    assert_eq!(stats.sum(), 42);
    assert_eq!(stats.sum_squares(), 42 * 42);
}

const VALUES: [i64; 12] = [4, -2, 7, 0, -13, 5, 5, 21, -8, 3, 1, -1];

#[test]
fn it_tallies_a_sequence_exactly() {
    let mut stats = RunningStats::default();
    for &v in VALUES.iter() {
        stats.push(v);
    }

    assert_eq!(stats.count(), 12);
    assert_eq!(stats.min(), Some(-13));
    assert_eq!(stats.max(), Some(21));
    assert_eq!(stats.sum(), 22);
    assert_eq!(stats.sum_squares(), 804);
    assert!((mean_of(&stats) - 22.0 / 12.0).abs() < 1e-12);
}

#[test]
fn it_sums_running_stats() {
    let mut direct = RunningStats::default();
    for &v in VALUES.iter() {
        direct.push(v);
    }

    let mut part1 = RunningStats::default();
    for &v in &VALUES[0..5] {
        part1.push(v);
    }
    let mut part2 = RunningStats::default();
    for &v in &VALUES[5..9] {
        part2.push(v);
    }
    let mut part3 = RunningStats::default();
    for &v in &VALUES[9..12] {
        part3.push(v);
    }

    let merged = part1.add(part2).add(part3);

    assert_eq!(merged.count(), direct.count());
    assert_eq!(merged.min(), direct.min());
    assert_eq!(merged.max(), direct.max());
    assert_eq!(merged.sum(), direct.sum());
    assert_eq!(merged.sum_squares(), direct.sum_squares());
    assert_eq!(variance_of(&merged), variance_of(&direct));
}

#[test]
fn it_sums_assign_running_stats() {
    let mut left_to_right = RunningStats::default();
    let mut chunks: Vec<RunningStats> = Vec::new();
    for chunk in VALUES.chunks(4) {
        let mut s = RunningStats::default();
        for &v in chunk {
            s.push(v);
        }
        chunks.push(s);
    }
    for c in &chunks {
        left_to_right.add_assign(c);
    }

    // merging in the reverse order changes nothing
    let mut right_to_left = RunningStats::default();
    for c in chunks.iter().rev() {
        right_to_left.add_assign(c);
    }

    assert_eq!(left_to_right.count(), right_to_left.count());
    assert_eq!(left_to_right.min(), right_to_left.min());
    assert_eq!(left_to_right.max(), right_to_left.max());
    assert_eq!(left_to_right.sum(), right_to_left.sum());
    assert_eq!(left_to_right.sum_squares(), right_to_left.sum_squares());
    assert_eq!(mean_of(&left_to_right), mean_of(&right_to_left));
    assert_eq!(variance_of(&left_to_right), variance_of(&right_to_left));
}
