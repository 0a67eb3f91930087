//! The normalized snapshot model: one poll cycle's view of accounts,
//! models, quotas and rate limits, with implicit defaults already applied.

use vstd::prelude::*;

verus! {

/// Remaining quota for one model on one account.  The remaining fraction
/// is held in units of 1/10000, clamped to [0, 10000]; the optional reset
/// time is kept as the text the server sent.
#[derive(Debug)]
pub struct Quota {
    pub remaining_permyriad: u32,
    pub reset_time: Option<String>,
}

/// One entry of an account's model-to-quota mapping, in the order the
/// server sent the keys.
#[derive(Debug)]
pub struct QuotaEntry {
    pub model: String,
    pub quota: Quota,
}

/// One entry of an account's model-to-rate-limit mapping.
#[derive(Debug)]
pub struct RateLimitEntry {
    pub model: String,
    pub is_rate_limited: bool,
}

/// One account, with the optional input fields already defaulted: a
/// missing enabled flag means enabled, a missing invalid flag means not
/// invalid, and a missing mapping means an empty one.
#[derive(Debug)]
pub struct Account {
    pub email: String,
    pub enabled: bool,
    pub is_invalid: bool,
    pub last_used: Option<u64>,
    pub limits: Vec<QuotaEntry>,
    pub rate_limits: Vec<RateLimitEntry>,
}

/// A point-in-time view: the server's optional timestamp text, the
/// accounts in rendering order, and the server-declared model list in
/// rendering order.
#[derive(Debug)]
pub struct Snapshot {
    pub timestamp: Option<String>,
    pub accounts: Vec<Account>,
    pub models: Vec<String>,
}

/// An account's lifecycle status, in priority order.
#[derive(Clone, Copy, Debug, PartialEq, Eq, Structural)]
pub enum StatusKind {
    Invalid,
    Disabled,
    Limited,
    Okay,
}

/// Whether any model of this rate-limit mapping is currently limited.
pub open spec fn is_limited(rls: Seq<RateLimitEntry>) -> bool {
    exists|i: int| 0 <= i < rls.len() && rls[i].is_rate_limited
}

/// How many models of this rate-limit mapping are currently limited.
pub open spec fn limited_count(rls: Seq<RateLimitEntry>) -> int
    decreases rls.len(),
{
    if rls.len() == 0 {
        0
    } else {
        limited_count(rls.drop_last()) + if rls.last().is_rate_limited {
            1int
        } else {
            0int
        }
    }
}

/// The status selected for an account: invalid overrides disabled
/// overrides rate-limited overrides ok.
pub open spec fn status_of(a: Account) -> StatusKind {
    if a.is_invalid {
        StatusKind::Invalid
    } else if !a.enabled {
        StatusKind::Disabled
    } else if is_limited(a.rate_limits@) {
        StatusKind::Limited
    } else {
        StatusKind::Okay
    }
}

/// Aggregator bucket: counts as invalid.
pub open spec fn agg_invalid(a: Account) -> bool {
    a.is_invalid
}

/// Aggregator bucket: counts as rate-limited (not invalid, some model
/// limited; a disabled account can fall here, by design).
pub open spec fn agg_limited(a: Account) -> bool {
    !a.is_invalid && is_limited(a.rate_limits@)
}

/// Aggregator bucket: counts as available.
pub open spec fn agg_available(a: Account) -> bool {
    !a.is_invalid && !is_limited(a.rate_limits@) && a.enabled
}

/// An account that counts toward no aggregator bucket: disabled and
/// otherwise ok.
pub open spec fn agg_hidden(a: Account) -> bool {
    !a.is_invalid && !is_limited(a.rate_limits@) && !a.enabled
}

/// How many accounts of `s` satisfy `p`.
pub open spec fn count_by(s: Seq<Account>, p: spec_fn(Account) -> bool) -> int
    decreases s.len(),
{
    if s.len() == 0 {
        0
    } else {
        count_by(s.drop_last(), p) + if p(s.last()) {
            1int
        } else {
            0int
        }
    }
}

} // verus!
