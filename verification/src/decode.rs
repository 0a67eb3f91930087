//! Decoding a parsed JSON value into a normalized `Snapshot`, applying
//! the protocol's defaults, and the two-attempt strategy for the
//! optionally double-encoded body.

use vstd::prelude::*;
use crate::json::{JVal, Json, Member, jview, lookup, obj_get, parse_json, sp_text};
use crate::model::{Account, Quota, QuotaEntry, RateLimitEntry, Snapshot};
use crate::num::{digits_val, spec_permyriad, u64_ok, fraction_permyriad, num_to_u64};
use crate::text::str_eq;

verus! {

/// Why a response body could not be decoded: it is not JSON at all, or it
/// is JSON of the wrong shape.
#[derive(Clone, Copy, Debug, PartialEq, Eq, Structural)]
pub enum DecodeError {
    Syntax,
    Shape,
}

/// An optional text field: absent and null mean none.
pub open spec fn opt_text_ok(f: Option<Json>) -> bool {
    match f {
        None => true,
        Some(j) => match j {
            Json::Null => true,
            Json::Str(_) => true,
            _ => false,
        },
    }
}

/// How an optional text field relates to its decoded value.
pub open spec fn opt_text_matches(f: Option<Json>, o: Option<String>) -> bool {
    match f {
        None => o is None,
        Some(j) => match j {
            Json::Null => o is None,
            Json::Str(s) => match o {
                Some(t) => t@ == s@,
                None => false,
            },
            _ => false,
        },
    }
}

/// An optional flag field: absent and null mean the default.
pub open spec fn opt_flag_ok(f: Option<Json>) -> bool {
    match f {
        None => true,
        Some(j) => match j {
            Json::Null => true,
            Json::Bool(_) => true,
            _ => false,
        },
    }
}

/// The value of an optional flag field under its default.
pub open spec fn opt_flag_val(f: Option<Json>, dflt: bool) -> bool {
    match f {
        Some(j) => match j {
            Json::Bool(b) => b,
            _ => dflt,
        },
        None => dflt,
    }
}

/// An optional epoch-millisecond field: absent and null mean none; a
/// number must be a plain unsigned integer.
pub open spec fn opt_millis_ok(f: Option<Json>) -> bool {
    match f {
        None => true,
        Some(j) => match j {
            Json::Null => true,
            Json::Num(n) => u64_ok(n),
            _ => false,
        },
    }
}

/// How an optional epoch-millisecond field relates to its decoded value.
pub open spec fn opt_millis_matches(f: Option<Json>, o: Option<u64>) -> bool {
    match f {
        None => o is None,
        Some(j) => match j {
            Json::Null => o is None,
            Json::Num(n) => match o {
                Some(v) => v == digits_val(n.int_digits@),
                None => false,
            },
            _ => false,
        },
    }
}

/// How many members of `ms` are named `name`.
pub open spec fn key_count(ms: Seq<Member>, name: Seq<char>) -> int
    decreases ms.len(),
{
    if ms.len() == 0 {
        0
    } else {
        key_count(ms.drop_last(), name) + if ms.last().key@ == name {
            1int
        } else {
            0int
        }
    }
}

fn count_key(ms: &Vec<Member>, name: &str) -> (n: usize)
    ensures
        n == key_count(ms@, name@),
        n <= ms@.len(),
{
    let mut n: usize = 0;
    let mut i: usize = 0;
    while i < ms.len()
        invariant
            i <= ms@.len(),
            n <= i,
            n == key_count(ms@.subrange(0, i as int), name@),
        decreases ms@.len() - i,
    {
        proof {
            assert(ms@.subrange(0, i + 1).drop_last() =~= ms@.subrange(0, i as int));
            assert(ms@.subrange(0, i + 1).last() == ms@[i as int]);
        }
        if str_eq(ms[i].key.as_str(), name) {
            n = n + 1;
        }
        i = i + 1;
    }
    proof {
        assert(ms@.subrange(0, ms@.len() as int) =~= ms@);
    }
    n
}

/// A well-shaped quota object: a number under "remainingFraction" and an
/// optional text under "resetTime", neither repeated, as the original's
/// typed deserializer required of its fields.
pub open spec fn quota_ok(j: Json) -> bool {
    match j {
        Json::Obj(ms) => {
            &&& key_count(ms@, "remainingFraction"@) <= 1
            &&& key_count(ms@, "resetTime"@) <= 1
            &&& (match lookup(ms@, "remainingFraction"@) {
                Some(Json::Num(_)) => true,
                _ => false,
            })
            &&& opt_text_ok(lookup(ms@, "resetTime"@))
        },
        _ => false,
    }
}

/// How a quota object relates to its decoded value.
pub open spec fn quota_matches(j: Json, q: Quota) -> bool {
    match j {
        Json::Obj(ms) => {
            &&& (match lookup(ms@, "remainingFraction"@) {
                Some(Json::Num(n)) => q.remaining_permyriad == spec_permyriad(n),
                _ => false,
            })
            &&& opt_text_matches(lookup(ms@, "resetTime"@), q.reset_time)
        },
        _ => false,
    }
}

/// A well-shaped rate-limit object: a flag under "isRateLimited".
pub open spec fn rl_ok(j: Json) -> bool {
    match j {
        Json::Obj(ms) => key_count(ms@, "isRateLimited"@) <= 1 && (match lookup(
            ms@,
            "isRateLimited"@,
        ) {
            Some(Json::Bool(_)) => true,
            _ => false,
        }),
        _ => false,
    }
}

/// How a rate-limit object relates to its decoded flag.
pub open spec fn rl_matches(j: Json, b: bool) -> bool {
    match j {
        Json::Obj(ms) => match lookup(ms@, "isRateLimited"@) {
            Some(Json::Bool(x)) => b == x,
            _ => false,
        },
        _ => false,
    }
}

/// A well-shaped account object: a required "email" text; optional
/// "enabled", "isInvalid", "lastUsed" scalars; optional "limits" and
/// "modelRateLimits" objects whose members are well shaped.
pub open spec fn account_ok(j: Json) -> bool {
    match j {
        Json::Obj(ms) => {
            &&& key_count(ms@, "email"@) <= 1
            &&& key_count(ms@, "enabled"@) <= 1
            &&& key_count(ms@, "isInvalid"@) <= 1
            &&& key_count(ms@, "lastUsed"@) <= 1
            &&& key_count(ms@, "limits"@) <= 1
            &&& key_count(ms@, "modelRateLimits"@) <= 1
            &&& (match lookup(ms@, "email"@) {
                Some(Json::Str(_)) => true,
                _ => false,
            })
            &&& opt_flag_ok(lookup(ms@, "enabled"@))
            &&& opt_flag_ok(lookup(ms@, "isInvalid"@))
            &&& opt_millis_ok(lookup(ms@, "lastUsed"@))
            &&& (match lookup(ms@, "limits"@) {
                None => true,
                Some(Json::Null) => true,
                Some(Json::Obj(qs)) => forall|i: int|
                    0 <= i < qs@.len() ==> quota_ok(#[trigger] qs@[i].value),
                _ => false,
            })
            &&& (match lookup(ms@, "modelRateLimits"@) {
                None => true,
                Some(Json::Null) => true,
                Some(Json::Obj(rs)) => forall|i: int|
                    0 <= i < rs@.len() ==> rl_ok(#[trigger] rs@[i].value),
                _ => false,
            })
        },
        _ => false,
    }
}

/// How an account object relates to its decoded value, member by member,
/// defaults applied, mapping entries kept in order.
pub open spec fn account_matches(j: Json, a: Account) -> bool {
    match j {
        Json::Obj(ms) => {
            &&& (match lookup(ms@, "email"@) {
                Some(Json::Str(s)) => a.email@ == s@,
                _ => false,
            })
            &&& a.enabled == opt_flag_val(lookup(ms@, "enabled"@), true)
            &&& a.is_invalid == opt_flag_val(lookup(ms@, "isInvalid"@), false)
            &&& opt_millis_matches(lookup(ms@, "lastUsed"@), a.last_used)
            &&& (match lookup(ms@, "limits"@) {
                None => a.limits@.len() == 0,
                Some(Json::Null) => a.limits@.len() == 0,
                Some(Json::Obj(qs)) => a.limits@.len() == qs@.len() && (forall|i: int|
                    0 <= i < qs@.len() ==> (#[trigger] a.limits@[i]).model@ == qs@[i].key@
                        && quota_matches(qs@[i].value, a.limits@[i].quota)),
                _ => false,
            })
            &&& (match lookup(ms@, "modelRateLimits"@) {
                None => a.rate_limits@.len() == 0,
                Some(Json::Null) => a.rate_limits@.len() == 0,
                Some(Json::Obj(rs)) => a.rate_limits@.len() == rs@.len() && (forall|i: int|
                    0 <= i < rs@.len() ==> (#[trigger] a.rate_limits@[i]).model@ == rs@[i].key@
                        && rl_matches(rs@[i].value, a.rate_limits@[i].is_rate_limited)),
                _ => false,
            })
        },
        _ => false,
    }
}

/// Every element of an accounts array is a well-shaped account object.
pub open spec fn accounts_ok_seq(arr: Seq<Json>) -> bool {
    forall|i: int| 0 <= i < arr.len() ==> account_ok(#[trigger] arr[i])
}

/// Every element of a models array is a text.
pub open spec fn models_ok_seq(arr: Seq<Json>) -> bool {
    forall|i: int| 0 <= i < arr.len() ==> (#[trigger] arr[i]) matches Json::Str(_)
}

/// A well-shaped snapshot object: an optional "timestamp" text, a
/// required "accounts" array of account objects, and a required "models"
/// array of texts.
pub open spec fn snapshot_ok(j: Json) -> bool {
    match j {
        Json::Obj(ms) => {
            &&& key_count(ms@, "timestamp"@) <= 1
            &&& key_count(ms@, "accounts"@) <= 1
            &&& key_count(ms@, "models"@) <= 1
            &&& opt_text_ok(lookup(ms@, "timestamp"@))
            &&& (match lookup(ms@, "accounts"@) {
                Some(Json::Arr(arr)) => accounts_ok_seq(arr@),
                _ => false,
            })
            &&& (match lookup(ms@, "models"@) {
                Some(Json::Arr(arr)) => models_ok_seq(arr@),
                _ => false,
            })
        },
        _ => false,
    }
}

/// How a snapshot object relates to its decoded value: same accounts in
/// the same order, same model list in the same order.
pub open spec fn snapshot_matches(j: Json, s: Snapshot) -> bool {
    match j {
        Json::Obj(ms) => {
            &&& opt_text_matches(lookup(ms@, "timestamp"@), s.timestamp)
            &&& (match lookup(ms@, "accounts"@) {
                Some(Json::Arr(arr)) => s.accounts@.len() == arr@.len() && (forall|i: int|
                    0 <= i < arr@.len() ==> account_matches(
                        #[trigger] arr@[i],
                        s.accounts@[i],
                    )),
                _ => false,
            })
            &&& (match lookup(ms@, "models"@) {
                Some(Json::Arr(arr)) => s.models@.len() == arr@.len() && (forall|i: int|
                    0 <= i < arr@.len() ==> (match #[trigger] arr@[i] {
                        Json::Str(t) => s.models@[i]@ == t@,
                        _ => false,
                    })),
                _ => false,
            })
        },
        _ => false,
    }
}

fn get_opt_text(ms: &Vec<Member>, name: &str) -> (r: Result<Option<String>, DecodeError>)
    ensures
        match r {
            Ok(o) => opt_text_ok(lookup(ms@, name@)) && opt_text_matches(lookup(ms@, name@), o),
            Err(e) => !opt_text_ok(lookup(ms@, name@)) && e == DecodeError::Shape,
        },
{
    match obj_get(ms, name) {
        None => Ok(None),
        Some(j) => match j {
            Json::Null => Ok(None),
            Json::Str(s) => Ok(Some(s.clone())),
            _ => Err(DecodeError::Shape),
        },
    }
}

fn get_opt_flag(ms: &Vec<Member>, name: &str, dflt: bool) -> (r: Result<bool, DecodeError>)
    ensures
        match r {
            Ok(b) => opt_flag_ok(lookup(ms@, name@)) && b == opt_flag_val(lookup(ms@, name@), dflt),
            Err(e) => !opt_flag_ok(lookup(ms@, name@)) && e == DecodeError::Shape,
        },
{
    match obj_get(ms, name) {
        None => Ok(dflt),
        Some(j) => match j {
            Json::Null => Ok(dflt),
            Json::Bool(b) => Ok(*b),
            _ => Err(DecodeError::Shape),
        },
    }
}

fn get_opt_millis(ms: &Vec<Member>, name: &str) -> (r: Result<Option<u64>, DecodeError>)
    ensures
        match r {
            Ok(o) => opt_millis_ok(lookup(ms@, name@)) && opt_millis_matches(
                lookup(ms@, name@),
                o,
            ),
            Err(e) => !opt_millis_ok(lookup(ms@, name@)) && e == DecodeError::Shape,
        },
{
    match obj_get(ms, name) {
        None => Ok(None),
        Some(j) => match j {
            Json::Null => Ok(None),
            Json::Num(n) => match num_to_u64(n) {
                Some(v) => Ok(Some(v)),
                None => Err(DecodeError::Shape),
            },
            _ => Err(DecodeError::Shape),
        },
    }
}

/// Decodes one quota object.
pub fn quota_from_json(j: &Json) -> (r: Result<Quota, DecodeError>)
    ensures
        match r {
            Ok(q) => quota_ok(*j) && quota_matches(*j, q),
            Err(e) => !quota_ok(*j) && e == DecodeError::Shape,
        },
{
    match j {
        Json::Obj(ms) => {
            if count_key(ms, "remainingFraction") > 1 || count_key(ms, "resetTime") > 1 {
                return Err(DecodeError::Shape);
            }
            let remaining = match obj_get(ms, "remainingFraction") {
                Some(f) => match f {
                    Json::Num(n) => fraction_permyriad(n),
                    _ => {
                        return Err(DecodeError::Shape);
                    },
                },
                None => {
                    return Err(DecodeError::Shape);
                },
            };
            let reset = match get_opt_text(ms, "resetTime") {
                Ok(o) => o,
                Err(e) => {
                    return Err(e);
                },
            };
            Ok(Quota { remaining_permyriad: remaining, reset_time: reset })
        },
        _ => Err(DecodeError::Shape),
    }
}

/// Decodes one rate-limit object to its flag.
pub fn rl_from_json(j: &Json) -> (r: Result<bool, DecodeError>)
    ensures
        match r {
            Ok(b) => rl_ok(*j) && rl_matches(*j, b),
            Err(e) => !rl_ok(*j) && e == DecodeError::Shape,
        },
{
    match j {
        Json::Obj(ms) => {
            if count_key(ms, "isRateLimited") > 1 {
                return Err(DecodeError::Shape);
            }
            match obj_get(ms, "isRateLimited") {
                Some(f) => match f {
                    Json::Bool(b) => Ok(*b),
                    _ => Err(DecodeError::Shape),
                },
                None => Err(DecodeError::Shape),
            }
        },
        _ => Err(DecodeError::Shape),
    }
}

/// Decodes one account object, applying the defaults: enabled when the
/// flag is absent, not invalid when that flag is absent, and empty
/// mappings when they are absent.
pub fn account_from_json(j: &Json) -> (r: Result<Account, DecodeError>)
    ensures
        match r {
            Ok(a) => account_ok(*j) && account_matches(*j, a),
            Err(e) => !account_ok(*j) && e == DecodeError::Shape,
        },
{
    match j {
        Json::Obj(ms) => {
            if count_key(ms, "email") > 1 || count_key(ms, "enabled") > 1 || count_key(
                ms,
                "isInvalid",
            ) > 1 || count_key(ms, "lastUsed") > 1 || count_key(ms, "limits") > 1 || count_key(
                ms,
                "modelRateLimits",
            ) > 1 {
                return Err(DecodeError::Shape);
            }
            let email = match obj_get(ms, "email") {
                Some(f) => match f {
                    Json::Str(s) => s.clone(),
                    _ => {
                        return Err(DecodeError::Shape);
                    },
                },
                None => {
                    return Err(DecodeError::Shape);
                },
            };
            let enabled = match get_opt_flag(ms, "enabled", true) {
                Ok(b) => b,
                Err(e) => {
                    return Err(e);
                },
            };
            let is_invalid = match get_opt_flag(ms, "isInvalid", false) {
                Ok(b) => b,
                Err(e) => {
                    return Err(e);
                },
            };
            let last_used = match get_opt_millis(ms, "lastUsed") {
                Ok(o) => o,
                Err(e) => {
                    return Err(e);
                },
            };
            let mut limits: Vec<QuotaEntry> = Vec::new();
            match obj_get(ms, "limits") {
                None => {},
                Some(f) => match f {
                    Json::Null => {},
                    Json::Obj(qs) => {
                        let mut i: usize = 0;
                        while i < qs.len()
                            invariant
                                *j == Json::Obj(*ms),
                                lookup(ms@, "limits"@) == Some(Json::Obj(*qs)),
                                i <= qs@.len(),
                                limits@.len() == i,
                                forall|k: int|
                                    0 <= k < i ==> quota_ok(#[trigger] qs@[k].value),
                                forall|k: int|
                                    0 <= k < i ==> (#[trigger] limits@[k]).model@ == qs@[k].key@
                                        && quota_matches(qs@[k].value, limits@[k].quota),
                            decreases qs@.len() - i,
                        {
                            match quota_from_json(&qs[i].value) {
                                Ok(q) => {
                                    limits.push(QuotaEntry { model: qs[i].key.clone(), quota: q });
                                },
                                Err(e) => {
                                    proof {
                                        assert(!quota_ok(qs@[i as int].value));
                                    }
                                    return Err(e);
                                },
                            }
                            i = i + 1;
                        }
                    },
                    _ => {
                        return Err(DecodeError::Shape);
                    },
                },
            }
            let mut rate_limits: Vec<RateLimitEntry> = Vec::new();
            match obj_get(ms, "modelRateLimits") {
                None => {},
                Some(f) => match f {
                    Json::Null => {},
                    Json::Obj(rs) => {
                        let mut i: usize = 0;
                        while i < rs.len()
                            invariant
                                *j == Json::Obj(*ms),
                                lookup(ms@, "modelRateLimits"@) == Some(Json::Obj(*rs)),
                                i <= rs@.len(),
                                rate_limits@.len() == i,
                                forall|k: int| 0 <= k < i ==> rl_ok(#[trigger] rs@[k].value),
                                forall|k: int|
                                    0 <= k < i ==> (#[trigger] rate_limits@[k]).model@
                                        == rs@[k].key@ && rl_matches(
                                        rs@[k].value,
                                        rate_limits@[k].is_rate_limited,
                                    ),
                            decreases rs@.len() - i,
                        {
                            match rl_from_json(&rs[i].value) {
                                Ok(b) => {
                                    rate_limits.push(
                                        RateLimitEntry {
                                            model: rs[i].key.clone(),
                                            is_rate_limited: b,
                                        },
                                    );
                                },
                                Err(e) => {
                                    proof {
                                        assert(!rl_ok(rs@[i as int].value));
                                    }
                                    return Err(e);
                                },
                            }
                            i = i + 1;
                        }
                    },
                    _ => {
                        return Err(DecodeError::Shape);
                    },
                },
            }
            Ok(Account { email, enabled, is_invalid, last_used, limits, rate_limits })
        },
        _ => Err(DecodeError::Shape),
    }
}

/// Decodes one snapshot object.
pub fn snapshot_from_json(j: &Json) -> (r: Result<Snapshot, DecodeError>)
    ensures
        match r {
            Ok(s) => snapshot_ok(*j) && snapshot_matches(*j, s),
            Err(e) => !snapshot_ok(*j) && e == DecodeError::Shape,
        },
{
    match j {
        Json::Obj(ms) => {
            if count_key(ms, "timestamp") > 1 || count_key(ms, "accounts") > 1 || count_key(
                ms,
                "models",
            ) > 1 {
                return Err(DecodeError::Shape);
            }
            let timestamp = match get_opt_text(ms, "timestamp") {
                Ok(o) => o,
                Err(e) => {
                    return Err(e);
                },
            };
            let mut accounts: Vec<Account> = Vec::new();
            match obj_get(ms, "accounts") {
                Some(f) => match f {
                    Json::Arr(arr) => {
                        let mut i: usize = 0;
                        while i < arr.len()
                            invariant
                                *j == Json::Obj(*ms),
                                lookup(ms@, "accounts"@) == Some(Json::Arr(*arr)),
                                i <= arr@.len(),
                                accounts@.len() == i,
                                forall|k: int| 0 <= k < i ==> account_ok(#[trigger] arr@[k]),
                                forall|k: int|
                                    0 <= k < i ==> account_matches(
                                        #[trigger] arr@[k],
                                        accounts@[k],
                                    ),
                            decreases arr@.len() - i,
                        {
                            match account_from_json(&arr[i]) {
                                Ok(a) => {
                                    accounts.push(a);
                                },
                                Err(e) => {
                                    proof {
                                        assert(!account_ok(arr@[i as int]));
                                        assert(!accounts_ok_seq(arr@));
                                    }
                                    return Err(e);
                                },
                            }
                            i = i + 1;
                        }
                    },
                    _ => {
                        return Err(DecodeError::Shape);
                    },
                },
                None => {
                    return Err(DecodeError::Shape);
                },
            }
            let mut models: Vec<String> = Vec::new();
            match obj_get(ms, "models") {
                Some(f) => match f {
                    Json::Arr(arr) => {
                        let mut i: usize = 0;
                        while i < arr.len()
                            invariant
                                *j == Json::Obj(*ms),
                                lookup(ms@, "models"@) == Some(Json::Arr(*arr)),
                                i <= arr@.len(),
                                models@.len() == i,
                                forall|k: int|
                                    0 <= k < i ==> (#[trigger] arr@[k]) matches Json::Str(_),
                                forall|k: int|
                                    0 <= k < i ==> (match #[trigger] arr@[k] {
                                        Json::Str(t) => models@[k]@ == t@,
                                        _ => false,
                                    }),
                            decreases arr@.len() - i,
                        {
                            match &arr[i] {
                                Json::Str(t) => {
                                    models.push(t.clone());
                                },
                                _ => {
                                    proof {
                                        assert(!models_ok_seq(arr@));
                                    }
                                    return Err(DecodeError::Shape);
                                },
                            }
                            i = i + 1;
                        }
                    },
                    _ => {
                        return Err(DecodeError::Shape);
                    },
                },
                None => {
                    return Err(DecodeError::Shape);
                },
            }
            Ok(Snapshot { timestamp, accounts, models })
        },
        _ => Err(DecodeError::Shape),
    }
}

/// Whether a payload value is the string envelope: an object with
/// exactly one member, named "result", holding a text.
pub open spec fn is_envelope_v(j: JVal) -> bool {
    match j {
        JVal::Obj(ms) => ms.len() == 1 && ms[0].0 == "result"@ && (ms[0].1 matches JVal::Str(_)),
        _ => false,
    }
}

/// The text an envelope value carries.
pub open spec fn envelope_text_v(j: JVal) -> Seq<char> {
    match j {
        JVal::Obj(ms) => match ms[0].1 {
            JVal::Str(t) => t,
            _ => Seq::empty(),
        },
        _ => Seq::empty(),
    }
}

/// The payload value a response body stands for: the body's own parse,
/// except that a one-member "result" envelope stands for the parse of the
/// text it carries.
pub open spec fn payload_of(s: Seq<char>) -> Option<JVal> {
    match sp_text(s) {
        Some(j) => if is_envelope_v(j) {
            sp_text(envelope_text_v(j))
        } else {
            Some(j)
        },
        None => None,
    }
}

/// Whether a parsed tree is the string envelope: an object with exactly
/// one member, named "result", holding a text.
pub open spec fn is_envelope(j: Json) -> bool {
    match j {
        Json::Obj(ms) => ms@.len() == 1 && ms@[0].key@ == "result"@ && (ms@[0].value matches Json::Str(_)),
        _ => false,
    }
}

/// The text an envelope carries.
pub open spec fn envelope_text(j: Json) -> Seq<char> {
    match j {
        Json::Obj(ms) => match ms@[0].value {
            Json::Str(t) => t@,
            _ => Seq::empty(),
        },
        _ => Seq::empty(),
    }
}

fn envelope_inner<'a>(j: &'a Json) -> (r: Option<&'a String>)
    ensures
        match r {
            Some(t) => is_envelope(*j) && t@ == envelope_text(*j),
            None => !is_envelope(*j),
        },
{
    match j {
        Json::Obj(ms) => {
            if ms.len() == 1 && str_eq(ms[0].key.as_str(), "result") {
                match &ms[0].value {
                    Json::Str(t) => Some(t),
                    _ => None,
                }
            } else {
                None
            }
        },
        _ => None,
    }
}

/// Decodes a response body.  The body is parsed by the grammar
/// (`sp_text`); a one-member "result" envelope stands for the parse of
/// the text it carries (`payload_of`), and any other value is decoded
/// directly.  The result is Ok exactly when the payload exists and is
/// well shaped, and then matches it; a body, or an embedded text, that
/// the grammar refuses is a syntax error; a payload of the wrong shape is
/// a shape error.
pub fn decode(text: &str) -> (r: Result<Snapshot, DecodeError>)
    ensures
        match r {
            Ok(s) => exists|j: Json|
                payload_of(text@) == Some(jview(j)) && #[trigger] snapshot_ok(j)
                    && snapshot_matches(j, s),
            Err(DecodeError::Syntax) => payload_of(text@) is None,
            Err(DecodeError::Shape) => exists|j: Json|
                payload_of(text@) == Some(jview(j)) && !(#[trigger] snapshot_ok(j)),
        },
{
    match parse_json(text) {
        None => Err(DecodeError::Syntax),
        Some(j) => match envelope_inner(&j) {
            Some(inner) => {
                proof {
                    lemma_envelope_view(j);
                }
                match parse_json(inner.as_str()) {
                    None => Err(DecodeError::Syntax),
                    Some(j2) => {
                        proof {
                            assert(payload_of(text@) == Some(jview(j2)));
                        }
                        snapshot_from_json(&j2)
                    },
                }
            },
            None => {
                proof {
                    lemma_envelope_view(j);
                    assert(payload_of(text@) == Some(jview(j)));
                }
                snapshot_from_json(&j)
            },
        },
    }
}

/// The envelope test on a parsed tree agrees with the test on the value
/// it stands for, and so does the text carried.
proof fn lemma_envelope_view(j: Json)
    ensures
        is_envelope_v(jview(j)) == is_envelope(j),
        is_envelope(j) ==> envelope_text_v(jview(j)) == envelope_text(j),
{
    match j {
        Json::Obj(ms) => {
            crate::json::lemma_jview_obj(ms);
            if ms@.len() > 0 {
                match ms@[0].value {
                    Json::Null => {
                        assert(jview(ms@[0].value) == JVal::Null);
                    },
                    Json::Bool(b) => {
                        assert(jview(ms@[0].value) == JVal::Bool(b));
                    },
                    Json::Num(n) => {
                        assert(jview(ms@[0].value) matches JVal::Num(_));
                    },
                    Json::Str(t) => {
                        assert(jview(ms@[0].value) == JVal::Str(t@));
                    },
                    Json::Arr(_) => {
                        assert(jview(ms@[0].value) matches JVal::Arr(_));
                    },
                    Json::Obj(_) => {
                        assert(jview(ms@[0].value) matches JVal::Obj(_));
                    },
                }
            }
        },
        _ => {},
    }
}

/// Decoding is transparent to the envelope: a body whose parse is the
/// envelope carrying a text stands for the same payload as that text
/// itself, whenever the text's own parse is not again an envelope.  With
/// `decode`'s contract, decoding the wrapped body and decoding the text
/// therefore agree: both are Ok with snapshots matching the same payload
/// value, or both fail the same way.
pub proof fn lemma_envelope_transparent(w: Seq<char>, s: Seq<char>)
    requires
        (match sp_text(w) {
            Some(j) => is_envelope_v(j) && envelope_text_v(j) == s,
            None => false,
        }),
        (match sp_text(s) {
            Some(j2) => !is_envelope_v(j2),
            None => true,
        }),
    ensures
        payload_of(w) == payload_of(s),
{
}

/// The two payload shapes are disjoint: a well-shaped direct payload is
/// never the string envelope, since it holds at least its "accounts" and
/// "models" members, where an envelope holds exactly one member named
/// "result".  With the envelope routed to the text it carries, decoding a
/// payload wrapped in the envelope therefore equals decoding the payload
/// itself.
pub proof fn lemma_direct_payload_not_envelope(j: Json)
    requires
        snapshot_ok(j),
    ensures
        !is_envelope(j),
{
    reveal_strlit("result");
    reveal_strlit("accounts");
    if is_envelope(j) {
        match j {
            Json::Obj(ms) => {
                assert(ms@.len() == 1);
                assert(ms@.last() == ms@[0]);
                assert(ms@[0].key@ == "result"@);
                assert("result"@.len() == 6);
                assert("accounts"@.len() == 8);
                assert(ms@.last().key@ != "accounts"@);
                assert(lookup(ms@, "accounts"@) == lookup(ms@.drop_last(), "accounts"@));
                assert(ms@.drop_last().len() == 0);
                assert(lookup(ms@, "accounts"@) is None);
            },
            _ => {},
        }
    }
}

} // verus!
