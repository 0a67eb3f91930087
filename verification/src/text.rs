//! Text utilities: character-level access to strings, decimal rendering,
//! and fixed-width padding.

use vstd::prelude::*;

verus! {

/// Collects the characters of a string into a vector.
pub fn to_chars(s: &str) -> (v: Vec<char>)
    ensures
        v@ == s@,
{
    let n = s.unicode_len();
    let mut v: Vec<char> = Vec::new();
    let mut i: usize = 0;
    while i < n
        invariant
            i <= n,
            n == s@.len(),
            v@ == s@.subrange(0, i as int),
        decreases n - i,
    {
        let c = s.get_char(i);
        v.push(c);
        i = i + 1;
        proof {
            assert(v@ =~= s@.subrange(0, i as int));
        }
    }
    proof {
        assert(v@ =~= s@);
    }
    v
}

/// Relies on `String::from_iter` over `char`s (via `Iterator::collect`):
/// the resulting string holds exactly the characters of the vector, in order.
#[verifier::external_body]
pub fn chars_to_string(v: &Vec<char>) -> (r: String)
    ensures
        r@ == v@,
{
    v.iter().collect()
}

/// Whether two string slices hold the same characters.
pub fn str_eq(a: &str, b: &str) -> (r: bool)
    ensures
        r == (a@ == b@),
{
    let an = a.unicode_len();
    let bn = b.unicode_len();
    if an != bn {
        proof {
            assert(a@ != b@);
        }
        return false;
    }
    let mut i: usize = 0;
    while i < an
        invariant
            i <= an,
            an == a@.len(),
            an == b@.len(),
            forall|j: int| 0 <= j < i ==> a@[j] == b@[j],
        decreases an - i,
    {
        if a.get_char(i) != b.get_char(i) {
            return false;
        }
        i = i + 1;
    }
    proof {
        assert(a@ =~= b@);
    }
    true
}

/// The decimal digit character for `d` (0 through 9).
pub open spec fn digit_char(d: int) -> char {
    (((48 + d) as u8) as char)
}

/// The decimal representation of a non-negative integer, most significant
/// digit first, with no leading zeros (a lone `0` for zero).
pub open spec fn dec_digits(n: int) -> Seq<char>
    decreases n,
{
    if n < 10 {
        seq![digit_char(n)]
    } else {
        dec_digits(n / 10).push(digit_char(n % 10))
    }
}

/// Appends the decimal representation of `n` to `out`.
pub fn push_dec(n: u64, out: &mut Vec<char>)
    ensures
        final(out)@ == old(out)@ + dec_digits(n as int),
    decreases n,
{
    if n < 10 {
        out.push((48 + n as u8) as char);
        proof {
            assert(out@ =~= old(out)@ + dec_digits(n as int));
        }
    } else {
        push_dec(n / 10, out);
        out.push((48 + (n % 10) as u8) as char);
        proof {
            assert(out@ =~= old(out)@ + dec_digits(n as int));
        }
    }
}

/// The decimal representation of `n` as a string.
pub fn u64_to_string(n: u64) -> (r: String)
    ensures
        r@ == dec_digits(n as int),
{
    let mut v: Vec<char> = Vec::new();
    push_dec(n, &mut v);
    proof {
        assert(v@ =~= dec_digits(n as int));
    }
    chars_to_string(&v)
}

/// `n` copies of the character `c`.
pub open spec fn rep_chars(c: char, n: int) -> Seq<char>
    decreases n,
{
    if n <= 0 {
        Seq::empty()
    } else {
        rep_chars(c, n - 1).push(c)
    }
}

/// A string of `n` copies of `c`.
pub fn repeat_char(c: char, n: usize) -> (r: String)
    ensures
        r@ == rep_chars(c, n as int),
{
    let mut v: Vec<char> = Vec::new();
    let mut i: usize = 0;
    while i < n
        invariant
            i <= n,
            v@ == rep_chars(c, i as int),
        decreases n - i,
    {
        v.push(c);
        i = i + 1;
    }
    chars_to_string(&v)
}

/// `s` padded on the right with spaces to width `w`; a string already at
/// least `w` characters wide is returned unchanged.
pub open spec fn pad_chars(s: Seq<char>, w: int) -> Seq<char> {
    if s.len() >= w {
        s
    } else {
        s + rep_chars(' ', w - s.len())
    }
}

/// Pads `s` on the right with spaces to width `w`.
pub fn pad_right(s: &str, w: usize) -> (r: String)
    ensures
        r@ == pad_chars(s@, w as int),
{
    let mut v = to_chars(s);
    proof {
        assert(v@ =~= s@ + rep_chars(' ', 0));
    }
    while v.len() < w
        invariant
            v@ == s@ + rep_chars(' ', v@.len() - s@.len()),
            v@.len() >= s@.len(),
            v@.len() == s@.len() || v@.len() <= w,
        decreases w - v@.len(),
    {
        v.push(' ');
        proof {
            assert(v@ =~= s@ + rep_chars(' ', v@.len() - s@.len()));
        }
    }
    proof {
        if s@.len() >= w as int {
            assert(v@ =~= s@);
        }
        assert(v@ == pad_chars(s@, w as int));
    }
    chars_to_string(&v)
}

/// The part of an email address before the first `@`, or the whole address
/// when it has no `@`.
pub open spec fn email_local(s: Seq<char>) -> Seq<char>
    decreases s.len(),
{
    if s.len() == 0 {
        s
    } else if s[0] == '@' {
        Seq::empty()
    } else {
        seq![s[0]] + email_local(s.drop_first())
    }
}

proof fn lemma_email_local(s: Seq<char>, i: int)
    requires
        0 <= i <= s.len(),
        forall|j: int| 0 <= j < i ==> s[j] != '@',
        i == s.len() || s[i] == '@',
    ensures
        email_local(s) == s.subrange(0, i),
    decreases i,
{
    if i == 0 {
        assert(email_local(s) =~= s.subrange(0, 0));
    } else {
        lemma_email_local(s.drop_first(), i - 1);
        assert(seq![s[0]] + s.drop_first().subrange(0, i - 1) =~= s.subrange(0, i));
    }
}

/// The display form of an account: the address up to the first `@`.
pub fn get_short_email(email: &str) -> (r: &str)
    ensures
        r@ == email_local(email@),
{
    let n = email.unicode_len();
    let mut i: usize = 0;
    while i < n && email.get_char(i) != '@'
        invariant
            i <= n,
            n == email@.len(),
            forall|j: int| 0 <= j < i ==> email@[j] != '@',
        decreases n - i,
    {
        i = i + 1;
    }
    proof {
        lemma_email_local(email@, i as int);
    }
    email.substring_char(0, i)
}

} // verus!
