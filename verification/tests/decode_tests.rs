use ag_tui::decode::{decode, DecodeError};

const DIRECT: &str = r#"{"timestamp":"2024-01-01 10:00:00","accounts":[{"email":"alice@example.com","enabled":true,"isInvalid":false,"lastUsed":1704067200000,"limits":{"m1":{"remainingFraction":0.5,"resetTime":"2024-01-01T01:05:30Z"}},"modelRateLimits":{"m1":{"isRateLimited":false}}}],"models":["m1","m2"]}"#;

const WRAPPED: &str = r#"{"result":"{\"timestamp\":\"2024-01-01 10:00:00\",\"accounts\":[{\"email\":\"alice@example.com\",\"enabled\":true,\"isInvalid\":false,\"lastUsed\":1704067200000,\"limits\":{\"m1\":{\"remainingFraction\":0.5,\"resetTime\":\"2024-01-01T01:05:30Z\"}},\"modelRateLimits\":{\"m1\":{\"isRateLimited\":false}}}],\"models\":[\"m1\",\"m2\"]}"}"#;

#[test]
fn direct_shape_decodes() {
    let snap = decode(DIRECT).unwrap();
    assert_eq!(snap.timestamp.as_deref(), Some("2024-01-01 10:00:00"));
    assert_eq!(snap.accounts.len(), 1);
    assert_eq!(snap.models.len(), 2);
    assert_eq!(snap.models[0], "m1");
    assert_eq!(snap.models[1], "m2");
    let a = &snap.accounts[0];
    assert_eq!(a.email, "alice@example.com");
    assert!(a.enabled);
    assert!(!a.is_invalid);
    assert_eq!(a.last_used, Some(1704067200000));
    assert_eq!(a.limits.len(), 1);
    assert_eq!(a.limits[0].model, "m1");
    assert_eq!(a.limits[0].quota.remaining_permyriad, 5000);
    assert_eq!(a.limits[0].quota.reset_time.as_deref(), Some("2024-01-01T01:05:30Z"));
    assert_eq!(a.rate_limits.len(), 1);
    assert!(!a.rate_limits[0].is_rate_limited);
}

#[test]
fn wrapped_decodes_like_direct() {
    let d = decode(DIRECT).unwrap();
    let w = decode(WRAPPED).unwrap();
    assert_eq!(d.timestamp, w.timestamp);
    assert_eq!(d.models, w.models);
    assert_eq!(d.accounts.len(), w.accounts.len());
    let (da, wa) = (&d.accounts[0], &w.accounts[0]);
    assert_eq!(da.email, wa.email);
    assert_eq!(da.enabled, wa.enabled);
    assert_eq!(da.is_invalid, wa.is_invalid);
    assert_eq!(da.last_used, wa.last_used);
    assert_eq!(da.limits.len(), wa.limits.len());
    assert_eq!(da.limits[0].model, wa.limits[0].model);
    assert_eq!(
        da.limits[0].quota.remaining_permyriad,
        wa.limits[0].quota.remaining_permyriad
    );
    assert_eq!(da.limits[0].quota.reset_time, wa.limits[0].quota.reset_time);
    assert_eq!(da.rate_limits.len(), wa.rate_limits.len());
}

#[test]
fn malformed_body_is_syntax_error() {
    assert!(matches!(decode("not json at all"), Err(DecodeError::Syntax)));
    assert!(matches!(decode(""), Err(DecodeError::Syntax)));
    assert!(matches!(decode(r#"{"accounts":"#), Err(DecodeError::Syntax)));
}

#[test]
fn wrong_shape_is_shape_error() {
    assert!(matches!(decode("[]"), Err(DecodeError::Shape)));
    assert!(matches!(decode("{}"), Err(DecodeError::Shape)));
    assert!(matches!(decode(r#"{"accounts":[],"models":"m1"}"#), Err(DecodeError::Shape)));
    assert!(matches!(decode(r#"{"accounts":{},"models":[]}"#), Err(DecodeError::Shape)));
}

#[test]
fn envelope_with_bad_inner_json_is_syntax_error() {
    assert!(matches!(decode(r#"{"result":"oops"}"#), Err(DecodeError::Syntax)));
}

#[test]
fn defaults_apply_when_fields_are_absent() {
    let snap = decode(r#"{"accounts":[{"email":"bob@x"}],"models":[]}"#).unwrap();
    assert!(snap.timestamp.is_none());
    let a = &snap.accounts[0];
    assert!(a.enabled);
    assert!(!a.is_invalid);
    assert!(a.last_used.is_none());
    assert!(a.limits.is_empty());
    assert!(a.rate_limits.is_empty());
}

#[test]
fn null_optionals_mean_absent() {
    let snap = decode(
        r#"{"timestamp":null,"accounts":[{"email":"b@x","enabled":null,"isInvalid":null,"lastUsed":null,"limits":null,"modelRateLimits":null}],"models":[]}"#,
    )
    .unwrap();
    assert!(snap.timestamp.is_none());
    let a = &snap.accounts[0];
    assert!(a.enabled);
    assert!(!a.is_invalid);
    assert!(a.last_used.is_none());
    assert!(a.limits.is_empty());
}

#[test]
fn fractional_last_used_is_shape_error() {
    assert!(matches!(
        decode(r#"{"accounts":[{"email":"b@x","lastUsed":1.5}],"models":[]}"#),
        Err(DecodeError::Shape)
    ));
}

#[test]
fn missing_email_is_shape_error() {
    assert!(matches!(
        decode(r#"{"accounts":[{"enabled":true}],"models":[]}"#),
        Err(DecodeError::Shape)
    ));
}

#[test]
fn fraction_values_clamp_and_scale() {
    let snap = decode(
        r#"{"accounts":[{"email":"b@x","limits":{"a":{"remainingFraction":-0.5},"b":{"remainingFraction":2.0},"c":{"remainingFraction":0.25},"d":{"remainingFraction":5e-1},"e":{"remainingFraction":0.123456}}}],"models":[]}"#,
    )
    .unwrap();
    let l = &snap.accounts[0].limits;
    assert_eq!(l[0].quota.remaining_permyriad, 0);
    assert_eq!(l[1].quota.remaining_permyriad, 10000);
    assert_eq!(l[2].quota.remaining_permyriad, 2500);
    assert_eq!(l[3].quota.remaining_permyriad, 5000);
    assert_eq!(l[4].quota.remaining_permyriad, 1234);
}

#[test]
fn unicode_escape_in_strings() {
    let snap = decode(r#"{"accounts":[{"email":"a\u0040b"}],"models":["\u00e9m"]}"#).unwrap();
    assert_eq!(snap.accounts[0].email, "a@b");
    assert_eq!(snap.models[0], "\u{e9}m");
}

#[test]
fn duplicate_struct_field_is_shape_error() {
    assert!(matches!(
        decode(r#"{"accounts":[{"email":"a@x","email":"b@x"}],"models":[]}"#),
        Err(DecodeError::Shape)
    ));
}

#[test]
fn tiny_nonzero_fraction_is_not_exhausted() {
    let snap = decode(
        r#"{"accounts":[{"email":"a@x","limits":{"m":{"remainingFraction":0.00001}}}],"models":[]}"#,
    )
    .unwrap();
    assert_eq!(snap.accounts[0].limits[0].quota.remaining_permyriad, 1);
}

#[test]
fn twenty_digit_last_used_fits_u64() {
    let snap = decode(
        r#"{"accounts":[{"email":"a@x","lastUsed":18446744073709551615}],"models":[]}"#,
    )
    .unwrap();
    assert_eq!(snap.accounts[0].last_used, Some(u64::MAX));
    assert!(matches!(
        decode(r#"{"accounts":[{"email":"a@x","lastUsed":18446744073709551616}],"models":[]}"#),
        Err(DecodeError::Shape)
    ));
}

#[test]
fn surrogate_pair_escape_decodes() {
    let snap = decode(r#"{"accounts":[],"models":["\ud83d\ude00"],"timestamp":null}"#).unwrap();
    assert_eq!(snap.models[0], "\u{1F600}");
    assert!(matches!(
        decode(r#"{"accounts":[],"models":["\ud83d"]}"#),
        Err(DecodeError::Syntax)
    ));
}

#[test]
fn duplicate_quota_entries_take_last_on_lookup() {
    let snap = decode(
        r#"{"accounts":[{"email":"a@x","limits":{"m":{"remainingFraction":0.1},"m":{"remainingFraction":0.9}}}],"models":["m"]}"#,
    )
    .unwrap();
    let q = ag_tui::render::find_quota(&snap.accounts[0].limits, "m").unwrap();
    assert_eq!(q.remaining_permyriad, 9000);
}

#[test]
fn exponent_in_last_used_is_shape_error() {
    assert!(matches!(
        decode(r#"{"accounts":[{"email":"b@x","lastUsed":1e3}],"models":[]}"#),
        Err(DecodeError::Shape)
    ));
}
