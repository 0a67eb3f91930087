//! Decoded JSON number literals and their two interpretations: a quota
//! fraction clamped to [0, 1] and held in units of 1/10000, and an exact
//! unsigned integer (used for epoch-millisecond timestamps).

use vstd::prelude::*;

verus! {

/// A JSON number literal, split into its parts: sign, integer digits,
/// fractional digits, and decimal exponent.  Digits are stored as values,
/// `0` through `9`.
#[derive(Debug)]
pub struct NumParts {
    pub neg: bool,
    pub int_digits: Vec<u8>,
    pub frac_digits: Vec<u8>,
    pub exp: i64,
}

/// The value of a digit sequence read as a decimal number.
pub open spec fn digits_val(ds: Seq<u8>) -> int
    decreases ds.len(),
{
    if ds.len() == 0 {
        0
    } else {
        digits_val(ds.drop_last()) * 10 + ds.last()
    }
}

/// Ten to the power `n`.
pub open spec fn pow10(n: int) -> int
    decreases n,
{
    if n <= 0 {
        1
    } else {
        10 * pow10(n - 1)
    }
}

/// Whether every entry of `ds` is a decimal digit value.
pub open spec fn all_digits(ds: Seq<u8>) -> bool {
    forall|i: int| 0 <= i < ds.len() ==> ds[i] <= 9
}

proof fn lemma_digits_val_bound(ds: Seq<u8>)
    requires
        all_digits(ds),
    ensures
        0 <= digits_val(ds) < pow10(ds.len() as int),
    decreases ds.len(),
{
    if ds.len() > 0 {
        assert(all_digits(ds.drop_last()));
        lemma_digits_val_bound(ds.drop_last());
    }
}

/// Whether a number literal denotes a plain unsigned integer that the
/// decoder accepts: no sign, no fractional part, no exponent, all digit
/// values, and a value that fits in a `u64`.
pub open spec fn u64_ok(n: NumParts) -> bool {
    &&& !n.neg
    &&& n.frac_digits@.len() == 0
    &&& n.exp == 0
    &&& all_digits(n.int_digits@)
    &&& digits_val(n.int_digits@) <= 0xFFFFFFFFFFFFFFFF
}

/// Reads a number literal as a `u64`, exactly when `u64_ok` holds of it.
pub fn num_to_u64(n: &NumParts) -> (r: Option<u64>)
    ensures
        match r {
            Some(v) => u64_ok(*n) && v == digits_val(n.int_digits@),
            None => !u64_ok(*n),
        },
{
    if n.neg || n.frac_digits.len() != 0 || n.exp != 0 {
        return None;
    }
    let ds: Ghost<Seq<u8>> = Ghost(n.int_digits@);
    let mut acc: u128 = 0;
    let mut i: usize = 0;
    while i < n.int_digits.len()
        invariant
            i <= ds@.len(),
            ds@ == n.int_digits@,
            all_digits(ds@.subrange(0, i as int)),
            acc == digits_val(ds@.subrange(0, i as int)),
            acc <= 0xFFFFFFFFFFFFFFFF,
        decreases ds@.len() - i,
    {
        let d = n.int_digits[i];
        if d > 9 {
            return None;
        }
        proof {
            assert(ds@.subrange(0, i + 1).drop_last() =~= ds@.subrange(0, i as int));
            assert(all_digits(ds@.subrange(0, i + 1)));
            assert(digits_val(ds@.subrange(0, i + 1)) == acc * 10 + d);
        }
        acc = acc * 10 + d as u128;
        i = i + 1;
        if acc > 0xFFFFFFFFFFFFFFFF {
            proof {
                lemma_digits_val_prefix(ds@, i as int);
            }
            return None;
        }
    }
    proof {
        assert(ds@.subrange(0, ds@.len() as int) =~= ds@);
    }
    Some(acc as u64)
}

proof fn lemma_digits_val_nonneg(ds: Seq<u8>)
    ensures
        digits_val(ds) >= 0,
    decreases ds.len(),
{
    if ds.len() > 0 {
        lemma_digits_val_nonneg(ds.drop_last());
    }
}

/// A digit sequence's value is at least the value of any of its prefixes.
proof fn lemma_digits_val_prefix(ds: Seq<u8>, j: int)
    requires
        0 <= j <= ds.len(),
    ensures
        digits_val(ds) >= digits_val(ds.subrange(0, j)),
    decreases ds.len() - j,
{
    if j < ds.len() {
        lemma_digits_val_prefix(ds, j + 1);
        assert(ds.subrange(0, j + 1).drop_last() =~= ds.subrange(0, j));
        lemma_digits_val_nonneg(ds.subrange(0, j));
        assert(digits_val(ds.subrange(0, j + 1)) == digits_val(ds.subrange(0, j)) * 10
            + ds.subrange(0, j + 1).last());
    } else {
        assert(ds.subrange(0, j) =~= ds);
    }
}

proof fn lemma_pow10_mono(a: int, b: int)
    requires
        a <= b,
    ensures
        pow10(a) <= pow10(b),
        pow10(a) >= 1,
    decreases b - a,
{
    if a < b {
        lemma_pow10_mono(a, b - 1);
    } else {
        lemma_pow10_pos(a);
    }
}

proof fn lemma_pow10_pos(a: int)
    ensures
        pow10(a) >= 1,
    decreases a,
{
    if a > 0 {
        lemma_pow10_pos(a - 1);
    }
}

/// The digit value at position `k` of `ds`, with positions outside the
/// sequence read as zero.
pub open spec fn digit_at(ds: Seq<u8>, k: int) -> int {
    if 0 <= k < ds.len() {
        ds[k] as int
    } else {
        0
    }
}

/// Whether the digits of `d` that lie before the decimal point (position
/// `p`) include a nonzero digit, so the number is one or more.
pub open spec fn int_part_nonzero(d: Seq<u8>, p: int) -> bool {
    exists|i: int| 0 <= i < p && i < d.len() && d[i] != 0
}

/// The first four digits after the decimal point of `d` at position `p`,
/// read as a count of ten-thousandths.
pub open spec fn frac4(d: Seq<u8>, p: int) -> int {
    digit_at(d, p) * 1000 + digit_at(d, p + 1) * 100 + digit_at(d, p + 2) * 10 + digit_at(
        d,
        p + 3,
    )
}

/// Whether any digit of `d` is nonzero.
pub open spec fn has_nonzero(d: Seq<u8>) -> bool {
    exists|i: int| 0 <= i < d.len() && d[i] != 0
}

/// Reads a number literal as a remaining fraction in units of 1/10000,
/// clamped to [0, 10000]: negative values clamp to 0, values of one or
/// more clamp to 10000, and further fractional digits are truncated —
/// except that a nonzero value never reads as 0, so only true zero (or
/// less) counts as exhausted.
pub open spec fn spec_permyriad(n: NumParts) -> int {
    let d = n.int_digits@ + n.frac_digits@;
    let p = n.int_digits@.len() + n.exp;
    if n.neg {
        0
    } else if int_part_nonzero(d, p) {
        10000
    } else if frac4(d, p) > 10000 {
        10000
    } else if frac4(d, p) == 0 && has_nonzero(d) {
        1
    } else {
        frac4(d, p)
    }
}

fn concat_digits(a: &Vec<u8>, b: &Vec<u8>) -> (r: Vec<u8>)
    ensures
        r@ == a@ + b@,
{
    let mut r: Vec<u8> = Vec::new();
    let mut i: usize = 0;
    while i < a.len()
        invariant
            i <= a@.len(),
            r@ == a@.subrange(0, i as int),
        decreases a@.len() - i,
    {
        r.push(a[i]);
        proof {
            assert(r@ =~= a@.subrange(0, i + 1));
        }
        i = i + 1;
    }
    proof {
        assert(r@ =~= a@);
    }
    let mut j: usize = 0;
    while j < b.len()
        invariant
            j <= b@.len(),
            r@ == a@ + b@.subrange(0, j as int),
        decreases b@.len() - j,
    {
        r.push(b[j]);
        proof {
            assert(r@ =~= a@ + b@.subrange(0, j + 1));
        }
        j = j + 1;
    }
    proof {
        assert(r@ =~= a@ + b@);
    }
    r
}

fn digit_at_exec(ds: &Vec<u8>, k: i128) -> (r: u32)
    ensures
        r == digit_at(ds@, k as int),
        r <= 255,
{
    if 0 <= k && k < ds.len() as i128 {
        ds[k as usize] as u32
    } else {
        0
    }
}

/// Reads a number literal as a clamped remaining fraction in units of
/// 1/10000.
pub fn fraction_permyriad(n: &NumParts) -> (r: u32)
    ensures
        r == spec_permyriad(*n),
        r <= 10000,
{
    if n.neg {
        return 0;
    }
    let d = concat_digits(&n.int_digits, &n.frac_digits);
    let p: i128 = n.int_digits.len() as i128 + n.exp as i128;
    let gp: Ghost<int> = Ghost(n.int_digits@.len() + n.exp);
    proof {
        assert(p as int == gp@);
    }
    let mut i: usize = 0;
    while i < d.len() && (i as i128) < p
        invariant
            !n.neg,
            i <= d@.len(),
            d@ == n.int_digits@ + n.frac_digits@,
            p as int == gp@,
            gp@ == n.int_digits@.len() + n.exp,
            forall|j: int| 0 <= j < i ==> d@[j] == 0 || j >= gp@,
        decreases d@.len() - i,
    {
        if d[i] != 0 {
            proof {
                let k = i as int;
                assert(d@[k] != 0 && 0 <= k < gp@);
                assert(int_part_nonzero(d@, gp@));
            }
            return 10000;
        }
        i = i + 1;
    }
    proof {
        assert(!int_part_nonzero(d@, gp@));
    }
    let v = digit_at_exec(&d, p) * 1000 + digit_at_exec(&d, p + 1) * 100 + digit_at_exec(
        &d,
        p + 2,
    ) * 10 + digit_at_exec(&d, p + 3);
    if v > 10000 {
        10000
    } else if v == 0 && any_nonzero(&d) {
        1
    } else {
        v
    }
}

fn any_nonzero(d: &Vec<u8>) -> (r: bool)
    ensures
        r == has_nonzero(d@),
{
    let mut i: usize = 0;
    while i < d.len()
        invariant
            i <= d@.len(),
            forall|j: int| 0 <= j < i ==> d@[j] == 0,
        decreases d@.len() - i,
    {
        if d[i] != 0 {
            proof {
                assert(0 <= i < d@.len() && d@[i as int] != 0);
            }
            return true;
        }
        i = i + 1;
    }
    false
}

} // verus!
