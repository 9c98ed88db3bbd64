use supply_chain::freshness::{is_fresh, MaxAge};

#[test]
fn exactly_max_age_is_stale() {
    let max = MaxAge::from_secs(3600);
    assert!(!is_fresh(1_000, 1_000 + 3600, max));
    assert!(is_fresh(1_000, 1_000 + 3599, max));
    assert!(!is_fresh(1_000, 1_000 + 3601, max));
}

#[test]
fn default_max_age_is_two_days() {
    let max = MaxAge::default_max_age();
    assert!(is_fresh(0, 48 * 3600 - 1, max));
    assert!(!is_fresh(0, 48 * 3600, max));
}

#[test]
fn sub_second_part_counts() {
    let max = MaxAge { secs: 10, nanos: 1 };
    assert!(is_fresh(5, 15, max));
    assert!(!is_fresh(5, 16, max));
}

#[test]
fn future_snapshot_and_zero_age() {
    assert!(is_fresh(100, 50, MaxAge::from_secs(1)));
    assert!(!is_fresh(100, 100, MaxAge::from_secs(0)));
}
