use demo_stats::sorting::sort;
use demo_stats::{
    calculate_stats, combine, CombinedStats, Rate, Stats, RATE_SCALE, TICKS_PER_SECOND,
    UNIT_GAP_RATE,
};

fn stats(average: u64, median: u64, max: u64, overall_changes: usize) -> Stats {
    Stats {
        average: Rate { micros: average },
        median: Rate { micros: median },
        max: Rate { micros: max },
        overall_changes,
    }
}

#[test]
fn unit_gap_rate_is_ticks_per_second_in_rate_units() {
    assert_eq!(UNIT_GAP_RATE, TICKS_PER_SECOND * RATE_SCALE);
    assert_eq!(TICKS_PER_SECOND, 50);
    assert_eq!(RATE_SCALE, 1_000_000);
}

#[test]
fn empty_log_gives_zero_stats() {
    assert_eq!(calculate_stats(vec![]), stats(0, 0, 0, 0));
}

#[test]
fn single_event_gives_zero_rates_and_count_one() {
    assert_eq!(calculate_stats(vec![17]), stats(0, 0, 0, 1));
}

#[test]
fn default_stats_are_zero() {
    assert_eq!(Stats::default(), stats(0, 0, 0, 0));
    assert_eq!(Stats::zero(), stats(0, 0, 0, 0));
}

#[test]
fn two_events_one_second_apart() {
    assert_eq!(calculate_stats(vec![100, 150]), stats(1_000_000, 1_000_000, 1_000_000, 2));
}

#[test]
fn rate_of_a_gap_is_rounded_down() {
    // 50 ticks per second over 3 ticks: 16.666666 changes per second
    assert_eq!(calculate_stats(vec![0, 3]), stats(16_666_666, 16_666_666, 16_666_666, 2));
}

#[test]
fn coincident_pair_is_skipped() {
    // gaps 10, 0, 25 ticks: rates 5.0 and 2.0 per second
    let result = calculate_stats(vec![0, 10, 10, 35]);
    assert_eq!(result, stats(3_500_000, 3_500_000, 5_000_000, 4));
    let per_second = |rate: Rate| rate.micros as f64 / RATE_SCALE as f64;
    assert_eq!(per_second(result.average), 3.5);
    assert_eq!(per_second(result.median), 3.5);
    assert_eq!(per_second(result.max), 5.0);
}

#[test]
fn all_events_at_one_tick_give_zero_rates() {
    assert_eq!(calculate_stats(vec![42, 42, 42]), stats(0, 0, 0, 3));
    assert_eq!(calculate_stats(vec![-7, -7]), stats(0, 0, 0, 2));
}

#[test]
fn overall_changes_counts_events_not_samples() {
    let log = vec![5, 5, 5, 5, 6, 6, 6];
    let result = calculate_stats(log.clone());
    assert_eq!(result.overall_changes, log.len());
    assert_eq!(result, stats(50_000_000, 50_000_000, 50_000_000, 7));
}

#[test]
fn odd_number_of_samples_has_middle_as_median() {
    // gaps 1, 2, 5: rates 50, 25, 10 per second
    let result = calculate_stats(vec![0, 1, 3, 8]);
    assert_eq!(result.median, Rate { micros: 25_000_000 });
    assert_eq!(result.max, Rate { micros: 50_000_000 });
    assert_eq!(result.average, Rate { micros: 28_333_333 });
    assert_eq!(result.overall_changes, 4);
}

#[test]
fn even_number_of_samples_has_mean_of_middle_pair_as_median() {
    // gaps 1, 2, 5, 10: rates 50, 25, 10, 5 per second
    let result = calculate_stats(vec![0, 1, 3, 8, 18]);
    assert_eq!(result.median, Rate { micros: 17_500_000 });
    assert_eq!(result.max, Rate { micros: 50_000_000 });
    assert_eq!(result.average, Rate { micros: 22_500_000 });
    assert_eq!(result.overall_changes, 5);
}

#[test]
fn average_and_median_do_not_exceed_max() {
    let result = calculate_stats(vec![3, 4, 9, 100, 101, 250, 251, 252]);
    assert!(result.average.micros <= result.max.micros);
    assert!(result.median.micros <= result.max.micros);
    assert_eq!(result.max, Rate { micros: 50_000_000 });
}

#[test]
fn order_of_events_does_not_matter() {
    let sorted = vec![0, 10, 10, 35, 36, 90];
    let shuffled = vec![35, 0, 90, 10, 36, 10];
    assert_eq!(calculate_stats(shuffled), calculate_stats(sorted));
}

#[test]
fn rerunning_on_sorted_log_gives_identical_stats() {
    let log = vec![0, 7, 7, 19, 60];
    let first = calculate_stats(log.clone());
    let second = calculate_stats(log);
    assert_eq!(first, second);
}

#[test]
fn extreme_ticks_do_not_overflow() {
    // a gap of 2^32 - 1 ticks rounds down to rate zero
    assert_eq!(calculate_stats(vec![i32::MAX, i32::MIN]), stats(0, 0, 0, 2));
    assert_eq!(
        calculate_stats(vec![i32::MIN, i32::MIN + 1]),
        stats(50_000_000, 50_000_000, 50_000_000, 2)
    );
}

#[test]
fn negative_ticks_are_ordered_before_positive() {
    // sorted: -50, 0, 25: gaps 50 and 25, rates 1.0 and 2.0
    assert_eq!(calculate_stats(vec![25, -50, 0]), stats(1_500_000, 1_500_000, 2_000_000, 3));
}

#[test]
fn sort_orders_ascending_and_keeps_duplicates() {
    assert_eq!(sort(&vec![3, -1, 3, 0, 2]), vec![-1, 0, 2, 3, 3]);
    assert_eq!(sort(&vec![]), Vec::<i64>::new());
    assert_eq!(sort(&vec![9]), vec![9]);
    assert_eq!(sort(&vec![i64::MAX, i64::MIN, 0]), vec![i64::MIN, 0, i64::MAX]);
}

#[test]
fn combine_copies_both_and_adds_counts() {
    let direction = stats(1, 2, 3, 4);
    let hook = stats(5, 6, 7, 8);
    assert_eq!(
        combine(direction, hook),
        CombinedStats {
            direction_change_rate_average: Rate { micros: 1 },
            direction_change_rate_median: Rate { micros: 2 },
            direction_change_rate_max: Rate { micros: 3 },
            hook_state_change_rate_average: Rate { micros: 5 },
            hook_state_change_rate_median: Rate { micros: 6 },
            hook_state_change_rate_max: Rate { micros: 7 },
            direction_changes: 4,
            hook_changes: 8,
            overall_changes: 12,
        }
    );
}

#[test]
fn one_direction_event_and_three_hook_events() {
    let direction = calculate_stats(vec![20]);
    let hook = calculate_stats(vec![10, 30, 80]);
    assert_eq!(direction, stats(0, 0, 0, 1));
    // gaps 20 and 50 ticks: rates 2.5 and 1.0 per second
    assert_eq!(hook, stats(1_750_000, 1_750_000, 2_500_000, 3));
    let both = combine(direction, hook);
    assert_eq!(both.direction_changes, 1);
    assert_eq!(both.hook_changes, 3);
    assert_eq!(both.overall_changes, 4);
    assert_eq!(both.direction_change_rate_max, Rate { micros: 0 });
    assert_eq!(both.hook_state_change_rate_max, Rate { micros: 2_500_000 });
}
