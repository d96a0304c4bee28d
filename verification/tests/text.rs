use kubectl_watch::text::{signed_to_string, unsigned_to_string};
use kubectl_watch::utils::{format_creation_since, format_duration};

#[test]
fn decimal_notation_of_unsigned() {
    assert_eq!(unsigned_to_string(0), "0");
    assert_eq!(unsigned_to_string(7), "7");
    assert_eq!(unsigned_to_string(10), "10");
    assert_eq!(unsigned_to_string(1234567890), "1234567890");
    assert_eq!(unsigned_to_string(u64::MAX), "18446744073709551615");
}

#[test]
fn decimal_notation_of_signed() {
    assert_eq!(signed_to_string(0), "0");
    assert_eq!(signed_to_string(-1), "-1");
    assert_eq!(signed_to_string(305), "305");
    assert_eq!(signed_to_string(i64::MAX), "9223372036854775807");
    assert_eq!(signed_to_string(i64::MIN), "-9223372036854775808");
}

#[test]
fn decimal_notation_agrees_with_std() {
    for n in [0i64, 9, 10, 99, 100, 101, 4096, -4096, 1_000_000_007, -1_000_000_007] {
        assert_eq!(signed_to_string(n), n.to_string());
    }
}

#[test]
fn short_spans_are_written_in_seconds() {
    assert_eq!(format_duration(0), "0s");
    assert_eq!(format_duration(59), "59s");
    assert_eq!(format_duration(120), "120s");
    assert_eq!(format_duration(-5), "-5s");
}

#[test]
fn spans_are_written_in_their_two_largest_units() {
    assert_eq!(format_duration(121), "2m1s");
    assert_eq!(format_duration(7200), "120m0s");
    assert_eq!(format_duration(7260), "2h1m");
    assert_eq!(format_duration(48 * 3600 + 59 * 60 + 59), "48h59m");
    assert_eq!(format_duration(49 * 3600), "2d1h");
    assert_eq!(format_duration(10 * 86400 + 5 * 3600 + 30), "10d5h");
}

#[test]
fn age_is_the_span_since_creation() {
    assert_eq!(format_creation_since(1_000, 1_000), "0s");
    assert_eq!(format_creation_since(1_000 + 3 * 3600, 1_000), "3h0m");
    assert_eq!(format_creation_since(1_000, 1_030), "-30s");
}

#[test]
fn age_is_held_to_the_range_of_the_clock() {
    assert_eq!(format_creation_since(i64::MAX, i64::MIN), format_duration(i64::MAX));
    assert_eq!(format_creation_since(i64::MIN, i64::MAX), format_duration(i64::MIN));
    assert_eq!(format_duration(i64::MIN), "-9223372036854775808s");
}
