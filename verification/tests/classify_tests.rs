use ag_tui::classify::{count_stats, get_account_status};
use ag_tui::model::{Account, RateLimitEntry, StatusKind};

fn account(enabled: bool, invalid: bool, limited_flags: &[bool]) -> Account {
    Account {
        email: String::from("a@x"),
        enabled,
        is_invalid: invalid,
        last_used: None,
        limits: Vec::new(),
        rate_limits: limited_flags
            .iter()
            .enumerate()
            .map(|(i, &b)| RateLimitEntry { model: format!("m{}", i), is_rate_limited: b })
            .collect(),
    }
}

#[test]
fn invalid_takes_priority_over_everything() {
    let a = account(false, true, &[true, true]);
    assert_eq!(get_account_status(&a), StatusKind::Invalid);
}

#[test]
fn disabled_takes_priority_over_limited() {
    let a = account(false, false, &[true]);
    assert_eq!(get_account_status(&a), StatusKind::Disabled);
}

#[test]
fn limited_when_any_model_is_rate_limited() {
    let a = account(true, false, &[false, true, false]);
    assert_eq!(get_account_status(&a), StatusKind::Limited);
}

#[test]
fn ok_when_nothing_applies() {
    let a = account(true, false, &[false, false]);
    assert_eq!(get_account_status(&a), StatusKind::Okay);
    let b = account(true, false, &[]);
    assert_eq!(get_account_status(&b), StatusKind::Okay);
}

#[test]
fn status_ignores_rate_limit_order() {
    let a = account(true, false, &[false, true]);
    let mut b = account(true, false, &[false, true]);
    b.rate_limits.reverse();
    assert_eq!(get_account_status(&a), get_account_status(&b));
}

#[test]
fn counts_follow_the_priority_order() {
    let accounts = vec![
        account(true, false, &[]),            // available
        account(true, false, &[true]),        // rate-limited
        account(false, false, &[true]),       // rate-limited even though disabled
        account(false, true, &[true]),        // invalid
        account(false, false, &[false]),      // disabled and otherwise ok: no bucket
    ];
    let (available, rate_limited, invalid) = count_stats(&accounts);
    assert_eq!((available, rate_limited, invalid), (1, 2, 1));
    assert!(available + rate_limited + invalid <= accounts.len());
    assert_eq!(available + rate_limited + invalid, accounts.len() - 1);
}

#[test]
fn counts_cover_all_accounts_without_hidden_ones() {
    let accounts = vec![
        account(true, false, &[]),
        account(true, false, &[true]),
        account(true, true, &[]),
    ];
    let (available, rate_limited, invalid) = count_stats(&accounts);
    assert_eq!(available + rate_limited + invalid, accounts.len());
}

#[test]
fn counts_on_empty_input_are_zero() {
    let accounts: Vec<Account> = Vec::new();
    assert_eq!(count_stats(&accounts), (0, 0, 0));
}
