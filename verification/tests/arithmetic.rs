use duration_calculator::duration::{Duration, MAX_SECONDS, MIN_SECONDS};

fn held(span: chrono::Duration) -> Duration {
    Duration::seconds(span.num_seconds())
}

#[test]
fn test_saturated_add_and_sub() {
    let cases = vec![
        (
            chrono::Duration::days(5),
            chrono::Duration::days(3),
            chrono::Duration::days(8),
            chrono::Duration::days(2),
        ),
        (
            chrono::Duration::hours(5),
            chrono::Duration::hours(3),
            chrono::Duration::hours(8),
            chrono::Duration::hours(2),
        ),
        (
            chrono::Duration::minutes(30),
            chrono::Duration::minutes(20),
            chrono::Duration::minutes(50),
            chrono::Duration::minutes(10),
        ),
    ];

    for (a, b, expected_add, expected_sub) in cases {
        let result_add = held(a).saturated_add(&held(b));
        let result_sub = held(a).saturated_sub(&held(b));
        assert_eq!(result_add, held(expected_add));
        assert_eq!(result_sub, held(expected_sub));
    }
}

#[test]
fn constructors_scale_by_the_unit() {
    assert_eq!(Duration::zero().num_seconds(), 0);
    assert_eq!(Duration::seconds(15).num_seconds(), 15);
    assert_eq!(Duration::seconds(-15).num_seconds(), -15);
    assert_eq!(Duration::minutes(10).num_seconds(), 600);
    assert_eq!(Duration::hours(20).num_seconds(), 72_000);
    assert_eq!(Duration::hours(-2).num_seconds(), -7_200);
    assert_eq!(Duration::days(3).num_seconds(), 259_200);
    assert_eq!(Duration::days(5), Duration::seconds(432_000));
}

#[test]
fn constructors_agree_with_chrono() {
    for n in [0i64, 1, -1, 59, 365, -4_000, 1_000_000] {
        assert_eq!(Duration::seconds(n).num_seconds(), chrono::Duration::seconds(n).num_seconds());
        assert_eq!(Duration::minutes(n).num_seconds(), chrono::Duration::minutes(n).num_seconds());
        assert_eq!(Duration::hours(n).num_seconds(), chrono::Duration::hours(n).num_seconds());
        assert_eq!(Duration::days(n).num_seconds(), chrono::Duration::days(n).num_seconds());
    }
}

#[test]
fn limits_are_those_of_chrono() {
    assert_eq!(MAX_SECONDS, 9_223_372_036_854_775);
    assert_eq!(MIN_SECONDS, -9_223_372_036_854_775);
    assert_eq!(MAX_SECONDS, chrono::Duration::MAX.num_seconds());
    assert_eq!(MIN_SECONDS, chrono::Duration::MIN.num_seconds());
    assert_eq!(Duration::maximum().num_seconds(), MAX_SECONDS);
    assert_eq!(Duration::minimum().num_seconds(), MIN_SECONDS);
    assert!(chrono::Duration::try_seconds(MAX_SECONDS).is_some());
    assert!(chrono::Duration::try_seconds(MAX_SECONDS + 1).is_none());
    assert!(chrono::Duration::try_seconds(MIN_SECONDS).is_some());
    assert!(chrono::Duration::try_seconds(MIN_SECONDS - 1).is_none());
}

#[test]
fn constructors_clamp_to_the_limits() {
    assert_eq!(Duration::seconds(MAX_SECONDS), Duration::maximum());
    assert_eq!(Duration::seconds(MAX_SECONDS + 1), Duration::maximum());
    assert_eq!(Duration::seconds(i64::MAX), Duration::maximum());
    assert_eq!(Duration::seconds(MIN_SECONDS - 1), Duration::minimum());
    assert_eq!(Duration::seconds(i64::MIN), Duration::minimum());
    assert_eq!(Duration::minutes(i64::MAX), Duration::maximum());
    assert_eq!(Duration::minutes(i64::MIN), Duration::minimum());
    assert_eq!(Duration::hours(2_562_047_788_015).num_seconds(), 9_223_372_036_854_000);
    assert_eq!(Duration::hours(2_562_047_788_016), Duration::maximum());
    assert_eq!(Duration::hours(-2_562_047_788_016), Duration::minimum());
    assert_eq!(Duration::days(106_751_991_167).num_seconds(), 9_223_372_036_828_800);
    assert_eq!(Duration::days(106_751_991_168), Duration::maximum());
    assert_eq!(Duration::days(-106_751_991_168), Duration::minimum());
}

#[test]
fn checked_operations_are_exact_within_the_limits() {
    let a = Duration::seconds(100);
    let b = Duration::seconds(-30);
    assert_eq!(a.checked_add(&b), Some(Duration::seconds(70)));
    assert_eq!(a.checked_sub(&b), Some(Duration::seconds(130)));
    assert_eq!(b.checked_sub(&a), Some(Duration::seconds(-130)));
    let max = Duration::maximum();
    let min = Duration::minimum();
    assert_eq!(max.checked_add(&Duration::zero()), Some(max));
    assert_eq!(max.checked_add(&min), Some(Duration::zero()));
    assert_eq!(min.checked_sub(&min), Some(Duration::zero()));
    assert_eq!(Duration::seconds(MAX_SECONDS - 1).checked_add(&Duration::seconds(1)), Some(max));
}

#[test]
fn checked_operations_fail_outside_the_limits() {
    let max = Duration::maximum();
    let min = Duration::minimum();
    let one = Duration::seconds(1);
    assert_eq!(max.checked_add(&one), None);
    assert_eq!(min.checked_sub(&one), None);
    assert_eq!(min.checked_add(&Duration::seconds(-1)), None);
    assert_eq!(max.checked_sub(&Duration::seconds(-1)), None);
    assert_eq!(max.checked_sub(&min), None);
}

#[test]
fn saturated_add_holds_the_longest_span() {
    let max = Duration::maximum();
    assert_eq!(max.saturated_add(&Duration::seconds(1)), max);
    assert_eq!(max.saturated_add(&Duration::days(400)), max);
    assert_eq!(max.saturated_add(&max), max);
    assert_eq!(Duration::seconds(MAX_SECONDS - 5).saturated_add(&Duration::seconds(6)), max);
    assert_eq!(
        Duration::seconds(MAX_SECONDS - 5).saturated_add(&Duration::seconds(5)),
        max
    );
    assert_eq!(
        Duration::seconds(MAX_SECONDS - 5).saturated_add(&Duration::seconds(4)).num_seconds(),
        MAX_SECONDS - 1
    );
}

#[test]
fn saturated_sub_holds_the_longest_span_backwards() {
    let min = Duration::minimum();
    assert_eq!(min.saturated_sub(&Duration::seconds(1)), min);
    assert_eq!(min.saturated_sub(&Duration::days(400)), min);
    assert_eq!(min.saturated_sub(&Duration::maximum()), min);
    assert_eq!(
        Duration::seconds(MIN_SECONDS + 5).saturated_sub(&Duration::seconds(4)).num_seconds(),
        MIN_SECONDS + 1
    );
}

#[test]
fn saturation_goes_to_one_side_only() {
    let max = Duration::maximum();
    let min = Duration::minimum();
    assert_eq!(min.saturated_add(&Duration::seconds(-1)), max);
    assert_eq!(max.saturated_sub(&Duration::seconds(-1)), min);
}
