use ag_tui::poll::continue_polling;
use ag_tui::timefmt::{format_countdown, format_reset_time};

const NOW_MS: i64 = 1704067200000; // 2024-01-01T00:00:00Z

#[test]
fn countdown_breaks_into_largest_units() {
    assert_eq!(format_countdown(3930), "1h5m30s");
    assert_eq!(format_countdown(3600), "1h0m0s");
    assert_eq!(format_countdown(330), "5m30s");
    assert_eq!(format_countdown(45), "45s");
}

#[test]
fn countdown_clamps_past_instants_to_now() {
    assert_eq!(format_countdown(0), "now");
    assert_eq!(format_countdown(-5), "now");
}

#[test]
fn reset_time_one_hour_five_minutes_thirty_seconds_ahead() {
    assert_eq!(format_reset_time("2024-01-01T01:05:30Z", NOW_MS), "1h5m30s");
}

#[test]
fn reset_time_in_the_past_renders_now() {
    assert_eq!(format_reset_time("2023-12-31T22:00:00Z", NOW_MS), "now");
}

#[test]
fn reset_time_honors_the_offset_in_the_text() {
    // 02:05:30 at +01:00 is 01:05:30 UTC.
    assert_eq!(format_reset_time("2024-01-01T02:05:30+01:00", NOW_MS), "1h5m30s");
}

#[test]
fn unparsable_reset_text_is_returned_unchanged() {
    assert_eq!(format_reset_time("tomorrow", NOW_MS), "tomorrow");
}

#[test]
fn polling_continues_only_in_recurring_mode() {
    assert!(continue_polling(false, 5));
    assert!(!continue_polling(true, 5));
    assert!(!continue_polling(false, 0));
    assert!(!continue_polling(true, 0));
}
