use ag_tui::decode::decode;
use ag_tui::model::{Quota, QuotaEntry};
use ag_tui::render::{
    classify_cell,
    earliest_reset,
    find_quota,
    grid_cell,
    quota_cell_text,
    render_tables,
    status_label,
    CellClass,
    Theme,
};
use ag_tui::text::{get_short_email, pad_right, repeat_char, u64_to_string};

fn plain() -> Theme {
    Theme {
        reset: String::new(),
        bold: String::new(),
        dim: String::new(),
        red: String::new(),
        green: String::new(),
        yellow: String::new(),
        cyan: String::new(),
    }
}

fn quota(permyriad: u32, reset: Option<&str>) -> Quota {
    Quota { remaining_permyriad: permyriad, reset_time: reset.map(String::from) }
}

const NOW_MS: i64 = 1704067200000; // 2024-01-01T00:00:00Z

#[test]
fn exhausted_cell_without_reset_has_no_wait_suffix() {
    let q = quota(0, None);
    assert_eq!(quota_cell_text(Some(&q), false, NOW_MS), "0%");
    assert_eq!(classify_cell(Some(&q), false), CellClass::Exhausted);
}

#[test]
fn healthy_cell_renders_percentage() {
    let q = quota(5000, None);
    assert_eq!(quota_cell_text(Some(&q), false, NOW_MS), "50%");
    assert_eq!(classify_cell(Some(&q), false), CellClass::Healthy);
}

#[test]
fn low_cell_has_no_wait_suffix_even_with_reset_time() {
    let q = quota(2000, Some("2024-01-01T01:05:30Z"));
    assert_eq!(quota_cell_text(Some(&q), false, NOW_MS), "20%");
    assert_eq!(classify_cell(Some(&q), false), CellClass::Low);
}

#[test]
fn exhausted_cell_with_reset_shows_countdown() {
    let q = quota(0, Some("2024-01-01T01:05:30Z"));
    assert_eq!(quota_cell_text(Some(&q), false, NOW_MS), "0% (wait 1h5m30s)");
}

#[test]
fn rate_limited_cell_is_exhausted_regardless_of_quota() {
    let q = quota(5000, Some("2024-01-01T00:00:45Z"));
    assert_eq!(classify_cell(Some(&q), true), CellClass::Exhausted);
    assert_eq!(quota_cell_text(Some(&q), true, NOW_MS), "50% (wait 45s)");
}

#[test]
fn past_reset_time_renders_now() {
    let q = quota(0, Some("2023-12-31T23:00:00Z"));
    assert_eq!(quota_cell_text(Some(&q), false, NOW_MS), "0% (wait now)");
}

#[test]
fn unparsable_reset_time_is_shown_raw() {
    let q = quota(0, Some("soon"));
    assert_eq!(quota_cell_text(Some(&q), false, NOW_MS), "0% (wait soon)");
}

#[test]
fn missing_entry_renders_not_available() {
    assert_eq!(quota_cell_text(None, false, NOW_MS), "N/A");
    assert_eq!(classify_cell(None, false), CellClass::Missing);
}

#[test]
fn absent_model_cell_is_not_available_even_when_account_is_ok() {
    let snap = decode(
        r#"{"accounts":[{"email":"a@x","limits":{"m1":{"remainingFraction":0.9}}}],"models":["m1","m2"]}"#,
    )
    .unwrap();
    let a = &snap.accounts[0];
    assert!(find_quota(&a.limits, "m2").is_none());
    let lines = render_tables(&snap, &plain(), NOW_MS);
    // title, stats, blank, header, rule, one account row, blank, grid
    // header, rule, two model rows
    assert_eq!(lines.len(), 11);
    assert_eq!(lines[9], format!("{:<28}{:<20}", "m1", "90%"));
    assert_eq!(lines[10], format!("{:<28}{:<20}", "m2", "N/A"));
}

#[test]
fn grid_cell_wraps_text_in_colors() {
    let theme = Theme {
        reset: String::from("<r>"),
        bold: String::new(),
        dim: String::new(),
        red: String::from("<red>"),
        green: String::from("<green>"),
        yellow: String::new(),
        cyan: String::new(),
    };
    let q = quota(0, None);
    assert_eq!(grid_cell(Some(&q), false, NOW_MS, &theme), format!("<red>{:<20}<r>", "0%"));
}

#[test]
fn status_label_counts_limited_models() {
    let snap = decode(
        r#"{"accounts":[{"email":"a@x","modelRateLimits":{"m1":{"isRateLimited":true},"m2":{"isRateLimited":false},"m3":{"isRateLimited":true}}}],"models":[]}"#,
    )
    .unwrap();
    assert_eq!(status_label(&snap.accounts[0]), "(2/3) limited");
}

#[test]
fn earliest_reset_is_the_least_instant() {
    let entries = vec![
        QuotaEntry { model: String::from("a"), quota: quota(100, Some("2024-03-01T00:00:00Z")) },
        QuotaEntry { model: String::from("b"), quota: quota(200, None) },
        // An earlier instant written with an offset, so the lexicographic
        // order of the texts would pick the wrong one.
        QuotaEntry {
            model: String::from("c"),
            quota: quota(300, Some("2024-01-15T01:00:00+02:00")),
        },
        QuotaEntry { model: String::from("d"), quota: quota(400, Some("2024-02-01T00:00:00Z")) },
        QuotaEntry { model: String::from("e"), quota: quota(500, Some("not a time")) },
    ];
    let (text, millis) = earliest_reset(&entries).unwrap();
    assert_eq!(text, "2024-01-15T01:00:00+02:00");
    assert_eq!(millis, 1705273200000);
    let none: Vec<QuotaEntry> = vec![
        QuotaEntry { model: String::from("a"), quota: quota(100, None) },
        QuotaEntry { model: String::from("b"), quota: quota(200, Some("garbage")) },
    ];
    assert!(earliest_reset(&none).is_none());
    let empty: Vec<QuotaEntry> = Vec::new();
    assert!(earliest_reset(&empty).is_none());
}

#[test]
fn tables_tolerate_empty_accounts_and_models() {
    let snap = decode(r#"{"timestamp":"t","accounts":[],"models":[]}"#).unwrap();
    let lines = render_tables(&snap, &plain(), NOW_MS);
    assert_eq!(lines.len(), 8);
    assert_eq!(lines[0], "Account Limits (t)");
    assert_eq!(lines[1], "Accounts: 0 total, 0 available, 0 rate-limited, 0 invalid");
    assert_eq!(lines[4], "-".repeat(85));
    assert_eq!(lines[7], "-".repeat(28));
}

#[test]
fn summary_row_layout_is_fixed_width() {
    let snap = decode(
        r#"{"timestamp":"t","accounts":[{"email":"alice@example.com"}],"models":[]}"#,
    )
    .unwrap();
    let lines = render_tables(&snap, &plain(), NOW_MS);
    assert_eq!(lines.len(), 9);
    assert_eq!(
        lines[5],
        format!("{:<20} {:<15} {:<25} {:<25}", "alice", "ok", "never", "N/A")
    );
}

#[test]
fn short_email_is_the_local_part() {
    assert_eq!(get_short_email("user@example.com"), "user");
    assert_eq!(get_short_email("plainname"), "plainname");
    assert_eq!(get_short_email("@host"), "");
}

#[test]
fn text_helpers_render_exactly() {
    assert_eq!(u64_to_string(0), "0");
    assert_eq!(u64_to_string(12345), "12345");
    assert_eq!(pad_right("ab", 5), "ab   ");
    assert_eq!(pad_right("abcdef", 3), "abcdef");
    assert_eq!(repeat_char('-', 4), "----");
}
