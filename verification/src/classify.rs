//! Status classification of one account and summary counts over all
//! accounts.

use vstd::prelude::*;
use crate::model::{
    Account,
    RateLimitEntry,
    StatusKind,
    agg_available,
    agg_hidden,
    agg_invalid,
    agg_limited,
    count_by,
    is_limited,
    limited_count,
    status_of,
};

verus! {

/// Whether any entry of the mapping is currently rate limited.
pub fn any_rate_limited(rls: &Vec<RateLimitEntry>) -> (r: bool)
    ensures
        r == is_limited(rls@),
{
    let mut i: usize = 0;
    while i < rls.len()
        invariant
            i <= rls@.len(),
            forall|j: int| 0 <= j < i ==> !rls@[j].is_rate_limited,
        decreases rls@.len() - i,
    {
        if rls[i].is_rate_limited {
            proof {
                assert(0 <= i < rls@.len() && rls@[i as int].is_rate_limited);
            }
            return true;
        }
        i = i + 1;
    }
    false
}

/// How many entries of the mapping are currently rate limited.
pub fn count_rate_limited(rls: &Vec<RateLimitEntry>) -> (n: usize)
    ensures
        n == limited_count(rls@),
        n <= rls@.len(),
{
    let mut n: usize = 0;
    let mut i: usize = 0;
    while i < rls.len()
        invariant
            i <= rls@.len(),
            n <= i,
            n == limited_count(rls@.subrange(0, i as int)),
        decreases rls@.len() - i,
    {
        proof {
            assert(rls@.subrange(0, i + 1).drop_last() =~= rls@.subrange(0, i as int));
        }
        if rls[i].is_rate_limited {
            n = n + 1;
        }
        i = i + 1;
    }
    proof {
        assert(rls@.subrange(0, rls@.len() as int) =~= rls@);
    }
    n
}

/// The lifecycle status of an account, by the fixed priority order.
pub fn get_account_status(a: &Account) -> (r: StatusKind)
    ensures
        r == status_of(*a),
{
    if a.is_invalid {
        StatusKind::Invalid
    } else if !a.enabled {
        StatusKind::Disabled
    } else if any_rate_limited(&a.rate_limits) {
        StatusKind::Limited
    } else {
        StatusKind::Okay
    }
}

/// Exactly one status is selected for every account, and the selection
/// follows the priority order invalid over disabled over limited over ok.
pub proof fn lemma_status_priority(a: Account)
    ensures
        a.is_invalid ==> status_of(a) == StatusKind::Invalid,
        !a.is_invalid && !a.enabled ==> status_of(a) == StatusKind::Disabled,
        !a.is_invalid && a.enabled && is_limited(a.rate_limits@) ==> status_of(a)
            == StatusKind::Limited,
        !a.is_invalid && a.enabled && !is_limited(a.rate_limits@) ==> status_of(a)
            == StatusKind::Okay,
{
}

/// The selected status does not depend on the order in which the
/// rate-limit mapping's entries were received: two accounts that agree on
/// their flags and hold the same entries, however ordered, get the same
/// status.
pub proof fn lemma_status_order_independent(a: Account, b: Account)
    requires
        a.is_invalid == b.is_invalid,
        a.enabled == b.enabled,
        a.rate_limits@.to_multiset() == b.rate_limits@.to_multiset(),
    ensures
        status_of(a) == status_of(b),
{
    a.rate_limits@.to_multiset_ensures();
    b.rate_limits@.to_multiset_ensures();
    if is_limited(a.rate_limits@) {
        let i = choose|i: int| 0 <= i < a.rate_limits@.len() && a.rate_limits@[i].is_rate_limited;
        let e = a.rate_limits@[i];
        assert(a.rate_limits@.contains(e));
        assert(a.rate_limits@.to_multiset().count(e) > 0);
        assert(b.rate_limits@.to_multiset().count(e) > 0);
        assert(b.rate_limits@.contains(e));
        let k = choose|k: int| 0 <= k < b.rate_limits@.len() && b.rate_limits@[k] == e;
        assert(b.rate_limits@[k].is_rate_limited);
        assert(is_limited(b.rate_limits@));
    }
    if is_limited(b.rate_limits@) {
        let i = choose|i: int| 0 <= i < b.rate_limits@.len() && b.rate_limits@[i].is_rate_limited;
        let e = b.rate_limits@[i];
        assert(b.rate_limits@.contains(e));
        assert(b.rate_limits@.to_multiset().count(e) > 0);
        assert(a.rate_limits@.to_multiset().count(e) > 0);
        assert(a.rate_limits@.contains(e));
        let k = choose|k: int| 0 <= k < a.rate_limits@.len() && a.rate_limits@[k] == e;
        assert(a.rate_limits@[k].is_rate_limited);
        assert(is_limited(a.rate_limits@));
    }
}

/// Summary counts over all accounts: how many are available, rate
/// limited, and invalid, in that order.
pub fn count_stats(accounts: &Vec<Account>) -> (r: (usize, usize, usize))
    ensures
        r.0 == count_by(accounts@, (|a: Account| agg_available(a))),
        r.1 == count_by(accounts@, (|a: Account| agg_limited(a))),
        r.2 == count_by(accounts@, (|a: Account| agg_invalid(a))),
{
    let mut available: usize = 0;
    let mut rate_limited: usize = 0;
    let mut invalid: usize = 0;
    let mut i: usize = 0;
    while i < accounts.len()
        invariant
            i <= accounts@.len(),
            available <= i,
            rate_limited <= i,
            invalid <= i,
            available == count_by(accounts@.subrange(0, i as int), (|a: Account| agg_available(a))),
            rate_limited == count_by(
                accounts@.subrange(0, i as int),
                (|a: Account| agg_limited(a)),
            ),
            invalid == count_by(accounts@.subrange(0, i as int), (|a: Account| agg_invalid(a))),
        decreases accounts@.len() - i,
    {
        proof {
            assert(accounts@.subrange(0, i + 1).drop_last() =~= accounts@.subrange(0, i as int));
            assert(accounts@.subrange(0, i + 1).last() == accounts@[i as int]);
        }
        let a = &accounts[i];
        if a.is_invalid {
            invalid = invalid + 1;
        } else if any_rate_limited(&a.rate_limits) {
            rate_limited = rate_limited + 1;
        } else if a.enabled {
            available = available + 1;
        }
        i = i + 1;
    }
    proof {
        assert(accounts@.subrange(0, accounts@.len() as int) =~= accounts@);
    }
    (available, rate_limited, invalid)
}

/// The three summary counts never exceed the number of accounts, and they
/// cover it exactly when no account is disabled-and-otherwise-ok.
pub proof fn lemma_aggregate_bounds(s: Seq<Account>)
    ensures
        count_by(s, (|a: Account| agg_available(a))) + count_by(s, (|a: Account| agg_limited(a)))
            + count_by(s, (|a: Account| agg_invalid(a))) <= s.len(),
        (count_by(s, (|a: Account| agg_available(a))) + count_by(
            s,
            (|a: Account| agg_limited(a)),
        ) + count_by(s, (|a: Account| agg_invalid(a))) == s.len()) <==> (forall|i: int|
            0 <= i < s.len() ==> !agg_hidden(s[i])),
    decreases s.len(),
{
    if s.len() > 0 {
        lemma_aggregate_bounds(s.drop_last());
        let t = s.drop_last();
        assert(forall|i: int| 0 <= i < t.len() ==> t[i] == s[i]);
        let sum = count_by(s, (|a: Account| agg_available(a))) + count_by(
            s,
            (|a: Account| agg_limited(a)),
        ) + count_by(s, (|a: Account| agg_invalid(a)));
        let tsum = count_by(t, (|a: Account| agg_available(a))) + count_by(
            t,
            (|a: Account| agg_limited(a)),
        ) + count_by(t, (|a: Account| agg_invalid(a)));
        if agg_hidden(s.last()) {
            assert(sum == tsum);
            assert(agg_hidden(s[s.len() - 1]));
            assert(sum < s.len());
        } else {
            assert(sum == tsum + 1);
            if sum == s.len() {
                assert(forall|i: int| 0 <= i < t.len() ==> !agg_hidden(t[i]));
                assert(forall|i: int| 0 <= i < s.len() ==> !agg_hidden(s[i]));
            }
            if forall|i: int| 0 <= i < s.len() ==> !agg_hidden(s[i]) {
                assert(forall|i: int| 0 <= i < t.len() ==> !agg_hidden(t[i]));
                assert(tsum == t.len());
            }
        }
    }
}

} // verus!
