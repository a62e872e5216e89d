//! The hiccup state and the coordinated-omission correction.

use rusty_advisor::hiccup::correction_values;
use rusty_advisor::hiccup::HiccupState;

#[test]
fn first_observation_yields_zero_hiccup() {
    let mut state = HiccupState::new();
    assert_eq!(state.observe(123_456), 0);
}

#[test]
fn hiccup_is_excess_over_shortest_observed() {
    let mut state = HiccupState::new();
    assert_eq!(state.observe(1_000), 0);
    assert_eq!(state.observe(1_400), 400);
    // A shorter measurement lowers the baseline and itself yields zero.
    assert_eq!(state.observe(800), 0);
    assert_eq!(state.observe(1_000), 200);
}

#[test]
fn zero_resolution_emits_exactly_one_record() {
    assert_eq!(correction_values(0, 0), vec![0]);
    assert_eq!(correction_values(7, 0), vec![7]);
    assert_eq!(correction_values(u64::MAX, 0), vec![u64::MAX]);
}

#[test]
fn correction_backfills_one_record_per_skipped_interval() {
    // 1 + max(0, floor(10 / 3) - 1) = 3 records, each at most the hiccup.
    assert_eq!(correction_values(10, 3), vec![10, 7, 4]);
    assert_eq!(correction_values(9, 3), vec![9, 6, 3]);
    assert_eq!(correction_values(2, 3), vec![2]);
    assert_eq!(correction_values(3, 3), vec![3]);
    assert_eq!(correction_values(6, 3), vec![6, 3]);
    assert_eq!(correction_values(0, 3), vec![0]);
}

#[test]
fn correction_record_count_matches_formula() {
    for (hiccup, resolution) in [(100u64, 7u64), (1000, 1), (5, 5), (4, 5), (0, 1)] {
        let vals = correction_values(hiccup, resolution);
        let expected = 1 + (hiccup / resolution).saturating_sub(1);
        assert_eq!(vals.len() as u64, expected);
        assert!(vals.iter().all(|v| *v <= hiccup));
        assert_eq!(vals[0], hiccup);
    }
}
