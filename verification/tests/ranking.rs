use text_to_cypher::ranking::{
    count_buckets, percentile_position, sorted_order, summary_ranks, PercentilePosition, StatsError,
    SummaryRanks,
};

#[test]
fn sorted_order_is_stable() {
    let keys = vec![30, 10, 20, 10, 30];
    assert_eq!(sorted_order(&keys), vec![1, 3, 2, 0, 4]);
}

#[test]
fn sorted_order_of_empty_and_sorted_input() {
    assert_eq!(sorted_order(&vec![]), Vec::<usize>::new());
    assert_eq!(sorted_order(&vec![1, 2, 3]), vec![0, 1, 2]);
    assert_eq!(sorted_order(&vec![3, 2, 1]), vec![2, 1, 0]);
}

#[test]
fn count_buckets_clamps_to_last_bucket() {
    let raw = vec![0, 1, 1, 4, 9, 3];
    assert_eq!(count_buckets(&raw, 4), vec![1, 2, 0, 3]);
}

#[test]
fn count_buckets_total_is_number_of_scores() {
    let raw = vec![2, 2, 0, 7, 1, 1, 1];
    let counts = count_buckets(&raw, 3);
    assert_eq!(counts.iter().sum::<u64>(), raw.len() as u64);
    assert_eq!(count_buckets(&vec![], 2), vec![0, 0]);
    assert_eq!(count_buckets(&vec![], 0), Vec::<u64>::new());
}

#[test]
fn percentile_position_exact_and_between() {
    assert_eq!(percentile_position(0, 25), None);
    assert_eq!(percentile_position(1, 75), Some(PercentilePosition { lo: 0, hi: 0, rem: 0 }));
    assert_eq!(percentile_position(5, 25), Some(PercentilePosition { lo: 1, hi: 1, rem: 0 }));
    assert_eq!(percentile_position(4, 25), Some(PercentilePosition { lo: 0, hi: 1, rem: 75 }));
    assert_eq!(percentile_position(4, 75), Some(PercentilePosition { lo: 2, hi: 3, rem: 25 }));
    assert_eq!(percentile_position(10, 100), Some(PercentilePosition { lo: 9, hi: 9, rem: 0 }));
    assert_eq!(percentile_position(1, 200), Some(PercentilePosition { lo: 0, hi: 0, rem: 0 }));
}

#[test]
fn percentile_25_never_after_75() {
    for n in 1..50usize {
        let a = percentile_position(n, 25).unwrap();
        let b = percentile_position(n, 75).unwrap();
        assert!(a.lo <= b.lo && a.hi <= b.hi);
    }
}

#[test]
fn summary_ranks_odd_even_empty() {
    assert_eq!(summary_ranks(0), Err(StatsError::NoScores));
    assert_eq!(
        summary_ranks(5),
        Ok(SummaryRanks { min: 0, max: 4, median_lo: 2, median_hi: 2 })
    );
    assert_eq!(
        summary_ranks(4),
        Ok(SummaryRanks { min: 0, max: 3, median_lo: 1, median_hi: 2 })
    );
    assert_eq!(
        summary_ranks(1),
        Ok(SummaryRanks { min: 0, max: 0, median_lo: 0, median_hi: 0 })
    );
}

#[test]
fn no_scores_message_names_field_and_dir() {
    assert_eq!(
        StatsError::NoScores.message("score", "/data/out"),
        "No JSON files with a valid 'score' field found in: /data/out"
    );
}
