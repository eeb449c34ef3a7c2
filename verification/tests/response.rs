//! What the handlers answer: the help text, and a count in decimal.

use hit_counter::decimal::render_count;
use hit_counter::error::StoreError;
use hit_counter::route::{hit, root, HELP_TEXT};

#[test]
fn root_answers_with_the_help_text() {
    assert_eq!(root(), "Navigate to `/hit/foo` to increment the hit count for `foo`");
    assert_eq!(root(), HELP_TEXT);
}

#[test]
fn single_digits_render_as_themselves() {
    let expected = ["0", "1", "2", "3", "4", "5", "6", "7", "8", "9"];
    for (count, text) in expected.iter().enumerate() {
        assert_eq!(render_count(count as i64), *text);
    }
}

#[test]
fn counts_render_in_decimal() {
    assert_eq!(render_count(10), "10");
    assert_eq!(render_count(42), "42");
    assert_eq!(render_count(100), "100");
    assert_eq!(render_count(1_000_000), "1000000");
    assert_eq!(render_count(9_007_199_254_740_993), "9007199254740993");
    assert_eq!(render_count(1_234_567_890_123_456_789), "1234567890123456789");
}

#[test]
fn negative_counts_render_with_a_minus_sign() {
    assert_eq!(render_count(-1), "-1");
    assert_eq!(render_count(-7), "-7");
    assert_eq!(render_count(-10), "-10");
    assert_eq!(render_count(-1_000), "-1000");
}

#[test]
fn the_extremes_render_in_full() {
    assert_eq!(render_count(i64::MAX), "9223372036854775807");
    assert_eq!(render_count(i64::MIN), "-9223372036854775808");
    assert_eq!(render_count(i64::MIN + 1), "-9223372036854775807");
}

#[test]
fn rendering_agrees_with_the_standard_formatter() {
    let mut count: i64 = 1;
    for _ in 0..62 {
        for shifted in [count - 1, count, count + 1, -count] {
            assert_eq!(render_count(shifted), format!("{shifted}"));
        }
        count *= 2;
    }
    let mut count: i64 = 1;
    for _ in 0..18 {
        for shifted in [count - 1, count, count + 1, -count] {
            assert_eq!(render_count(shifted), format!("{shifted}"));
        }
        count *= 10;
    }
}

#[test]
fn hit_renders_the_count_as_the_body() {
    assert_eq!(hit(Ok(1)), Ok("1".to_string()));
    assert_eq!(hit(Ok(2)), Ok("2".to_string()));
    assert_eq!(hit(Ok(12345)), Ok("12345".to_string()));
}

#[test]
fn hit_passes_a_store_error_on() {
    assert_eq!(hit(Err(StoreError::ConnectionUnavailable)), Err(StoreError::ConnectionUnavailable));
    assert_eq!(hit(Err(StoreError::QueryFailed)), Err(StoreError::QueryFailed));
}

#[test]
fn the_two_errors_differ() {
    assert_ne!(StoreError::ConnectionUnavailable, StoreError::QueryFailed);
}
