use pro_cache_backend::digits::{i64_to_dec, u64_to_dec};
use pro_cache_backend::msg::{build_delta_message, build_drift_message, build_snapshot_message};
use pro_cache_backend::paths::{normalize_path, PathInput};

#[test]
fn decimal_rendering_of_unsigned_values() {
    assert_eq!(u64_to_dec(0), "0");
    assert_eq!(u64_to_dec(7), "7");
    assert_eq!(u64_to_dec(42), "42");
    assert_eq!(u64_to_dec(1000), "1000");
    assert_eq!(u64_to_dec(u64::MAX), "18446744073709551615");
}

#[test]
fn decimal_rendering_of_signed_values() {
    assert_eq!(i64_to_dec(0), "0");
    assert_eq!(i64_to_dec(-1), "-1");
    assert_eq!(i64_to_dec(-123), "-123");
    assert_eq!(i64_to_dec(i64::MAX), "9223372036854775807");
    assert_eq!(i64_to_dec(i64::MIN), "-9223372036854775808");
}

#[test]
fn path_normalization_is_canonical() {
    assert_eq!(normalize_path(&PathInput::Text(String::from("/a"))), "/a");
    assert_eq!(normalize_path(&PathInput::IntNum(42)), "42");
    assert_eq!(normalize_path(&PathInput::IntNum(-3)), "-3");
    assert_eq!(normalize_path(&PathInput::UintNum(42)), "42");
    assert_eq!(
        normalize_path(&PathInput::Rendered(String::from("[1,2]"))),
        "[1,2]"
    );
}

#[test]
fn snapshot_message_is_a_json_object() {
    let empty: Vec<(String, i64)> = Vec::new();
    assert_eq!(build_snapshot_message(&empty), "{}");
    let one = vec![(String::from("/a"), 100i64)];
    assert_eq!(build_snapshot_message(&one), "{\"/a\":100}");
    let two = vec![(String::from("/a"), 100i64), (String::from("/b"), -5i64)];
    assert_eq!(build_snapshot_message(&two), "{\"/a\":100,\"/b\":-5}");
}

#[test]
fn delta_message_carries_routes_and_provenance() {
    let pairs = vec![(String::from("/a"), 100i64)];
    assert_eq!(
        build_delta_message(&pairs, 7),
        "{\"type\":\"invalidate-delta\",\"data\":{\"/a\":100},\"drift_time\":7}"
    );
}

#[test]
fn route_keys_are_json_escaped() {
    // A route holding a quote must come out escaped, exactly as JSON wants it.
    let pairs = vec![(String::from("a\"b"), 5i64)];
    assert_eq!(
        build_delta_message(&pairs, 0),
        "{\"type\":\"invalidate-delta\",\"data\":{\"a\\\"b\":5},\"drift_time\":0}"
    );
    let snap = vec![(String::from("x\\y"), 1i64)];
    assert_eq!(build_snapshot_message(&snap), "{\"x\\\\y\":1}");
}

#[test]
fn drift_message_has_empty_delta() {
    assert_eq!(
        build_drift_message(777),
        "{\"type\":\"invalidate\",\"data\":{},\"drift_time\":777}"
    );
    assert_eq!(
        build_drift_message(-1),
        "{\"type\":\"invalidate\",\"data\":{},\"drift_time\":-1}"
    );
}
