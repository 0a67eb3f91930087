//! A small JSON reader for the quota protocol: a recursive-descent parser
//! over characters, producing a tree of values.  The grammar itself is
//! stated as a family of spec functions (`sp_value` and its helpers), and
//! every parsing function is proved to return exactly what the grammar
//! says.  Number literals are kept as their parts (see `num`); object
//! members are kept in the order received, and lookups take the last
//! occurrence of a key, as the upstream source's own maps do.

use vstd::prelude::*;
use crate::num::NumParts;
use crate::text::str_eq;

verus! {

broadcast use vstd::std_specs::vec::axiom_vec_index_decreases;

/// One member of a JSON object.
pub struct Member {
    pub key: String,
    pub value: Json,
}

/// A JSON value.
pub enum Json {
    Null,
    Bool(bool),
    Num(NumParts),
    Str(String),
    Arr(Vec<Json>),
    Obj(Vec<Member>),
}

/// The value of the last member of `ms` named `name`, if any.
pub open spec fn lookup(ms: Seq<Member>, name: Seq<char>) -> Option<Json>
    decreases ms.len(),
{
    if ms.len() == 0 {
        None
    } else if ms.last().key@ == name {
        Some(ms.last().value)
    } else {
        lookup(ms.drop_last(), name)
    }
}

/// Finds the last member named `name`, matching `lookup`.
pub fn obj_get<'a>(ms: &'a Vec<Member>, name: &str) -> (r: Option<&'a Json>)
    ensures
        match r {
            Some(j) => lookup(ms@, name@) == Some(*j),
            None => lookup(ms@, name@) is None,
        },
{
    let mut found: Option<usize> = None;
    let mut i: usize = 0;
    while i < ms.len()
        invariant
            i <= ms@.len(),
            match found {
                None => lookup(ms@.subrange(0, i as int), name@) is None,
                Some(fi) => fi < i && lookup(ms@.subrange(0, i as int), name@) == Some(
                    ms@[fi as int].value,
                ),
            },
        decreases ms@.len() - i,
    {
        proof {
            assert(ms@.subrange(0, i + 1).drop_last() =~= ms@.subrange(0, i as int));
            assert(ms@.subrange(0, i + 1).last() == ms@[i as int]);
        }
        if str_eq(ms[i].key.as_str(), name) {
            found = Some(i);
        }
        i = i + 1;
    }
    proof {
        assert(ms@.subrange(0, ms@.len() as int) =~= ms@);
    }
    match found {
        Some(fi) => Some(&ms[fi].value),
        None => None,
    }
}

/// The parts of a number literal, as mathematical values.
pub struct NumView {
    pub neg: bool,
    pub int_digits: Seq<u8>,
    pub frac_digits: Seq<u8>,
    pub exp: int,
}

/// A JSON value as a mathematical object: texts as character sequences,
/// numbers as their parts, members in order.
pub enum JVal {
    Null,
    Bool(bool),
    Num(NumView),
    Str(Seq<char>),
    Arr(Seq<JVal>),
    Obj(Seq<(Seq<char>, JVal)>),
}

/// The parts of a number literal.
pub open spec fn num_view(n: NumParts) -> NumView {
    NumView {
        neg: n.neg,
        int_digits: n.int_digits@,
        frac_digits: n.frac_digits@,
        exp: n.exp as int,
    }
}

/// The mathematical value a parsed tree stands for.
pub open spec fn jview(j: Json) -> JVal
    decreases j, 1int, 0int,
{
    match j {
        Json::Null => JVal::Null,
        Json::Bool(b) => JVal::Bool(b),
        Json::Num(n) => JVal::Num(num_view(n)),
        Json::Str(s) => JVal::Str(s@),
        Json::Arr(v) => JVal::Arr(jview_arr(v, 0)),
        Json::Obj(ms) => JVal::Obj(jview_members(ms, 0)),
    }
}

/// The values of the elements of `v` from index `i` on.
pub open spec fn jview_arr(v: Vec<Json>, i: int) -> Seq<JVal>
    decreases v, 0int, v@.len() - i,
{
    if 0 <= i && i < v@.len() {
        seq![jview(v[i])] + jview_arr(v, i + 1)
    } else {
        Seq::empty()
    }
}

/// The keys and values of the members of `ms` from index `i` on.
pub open spec fn jview_members(ms: Vec<Member>, i: int) -> Seq<(Seq<char>, JVal)>
    decreases ms, 0int, ms@.len() - i,
{
    if 0 <= i && i < ms@.len() {
        seq![(ms[i].key@, jview(ms[i].value))] + jview_members(ms, i + 1)
    } else {
        Seq::empty()
    }
}

/// The values of a sequence of parsed trees.
pub open spec fn jview_seq(v: Seq<Json>) -> Seq<JVal>
    decreases v.len(),
{
    if v.len() == 0 {
        Seq::empty()
    } else {
        seq![jview(v.first())] + jview_seq(v.drop_first())
    }
}

/// The keys and values of a sequence of parsed members.
pub open spec fn jview_mseq(ms: Seq<Member>) -> Seq<(Seq<char>, JVal)>
    decreases ms.len(),
{
    if ms.len() == 0 {
        Seq::empty()
    } else {
        seq![(ms.first().key@, jview(ms.first().value))] + jview_mseq(ms.drop_first())
    }
}

proof fn lemma_jview_arr(v: Vec<Json>, i: int)
    requires
        0 <= i <= v@.len(),
    ensures
        jview_arr(v, i) == jview_seq(v@.skip(i)),
    decreases v@.len() - i,
{
    if i < v@.len() {
        lemma_jview_arr(v, i + 1);
        assert(v@.skip(i).drop_first() =~= v@.skip(i + 1));
        assert(v@.skip(i).first() == v@[i]);
        assert(jview_arr(v, i) =~= jview_seq(v@.skip(i)));
    } else {
        assert(v@.skip(i) =~= Seq::<Json>::empty());
    }
}

proof fn lemma_jview_members(ms: Vec<Member>, i: int)
    requires
        0 <= i <= ms@.len(),
    ensures
        jview_members(ms, i) == jview_mseq(ms@.skip(i)),
    decreases ms@.len() - i,
{
    if i < ms@.len() {
        lemma_jview_members(ms, i + 1);
        assert(ms@.skip(i).drop_first() =~= ms@.skip(i + 1));
        assert(ms@.skip(i).first() == ms@[i]);
        assert(jview_members(ms, i) =~= jview_mseq(ms@.skip(i)));
    } else {
        assert(ms@.skip(i) =~= Seq::<Member>::empty());
    }
}

/// A parsed object's value has one entry per member, and the first entry
/// is the first member's key and value.
pub proof fn lemma_jview_obj(ms: Vec<Member>)
    ensures
        jview(Json::Obj(ms)) matches JVal::Obj(vs) && vs.len() == ms@.len() && (ms@.len() > 0
            ==> vs[0] == (ms@[0].key@, jview(ms@[0].value))),
{
    lemma_jview_members_len(ms, 0);
    if ms@.len() > 0 {
        assert(jview_members(ms, 0)[0] == (ms@[0].key@, jview(ms@[0].value)));
    }
}

proof fn lemma_jview_members_len(ms: Vec<Member>, i: int)
    requires
        0 <= i <= ms@.len(),
    ensures
        jview_members(ms, i).len() == ms@.len() - i,
    decreases ms@.len() - i,
{
    if i < ms@.len() {
        lemma_jview_members_len(ms, i + 1);
    }
}

/// Relies on `char::from_u32`: it returns `Some` exactly for the code
/// points outside the surrogate range and at most 0x10FFFF, and the
/// character it returns has that code point.
#[verifier::external_body]
fn char_from_u32(v: u32) -> (r: Option<char>)
    ensures
        r is Some <==> (v < 0xD800 || (0xE000 <= v && v <= 0x10FFFF)),
        match r {
            Some(c) => c as u32 == v,
            None => true,
        },
{
    char::from_u32(v)
}

/// A JSON whitespace character.
pub open spec fn sp_is_ws(c: char) -> bool {
    c == ' ' || c == '\t' || c == '\n' || c == '\r'
}

/// A decimal digit.
pub open spec fn sp_is_digit(c: char) -> bool {
    48 <= c as u32 <= 57
}

/// The first position at or after `i` holding no whitespace.
pub open spec fn sp_ws(s: Seq<char>, i: int) -> int
    decreases s.len() - i,
{
    if 0 <= i && i < s.len() && sp_is_ws(s[i]) {
        sp_ws(s, i + 1)
    } else {
        i
    }
}

/// `sp_ws` clamped into `[lo, s.len()]`, so that positions derived from
/// it can serve as termination measures; on the in-bounds positions the
/// parser reaches, the clamp changes nothing.
pub open spec fn sp_at(s: Seq<char>, i: int, lo: int) -> int {
    let w = sp_ws(
        s,
        if i < lo {
            lo
        } else {
            i
        },
    );
    if w < lo {
        lo
    } else if w > s.len() {
        s.len() as int
    } else {
        w
    }
}

/// The value of a hexadecimal digit.
pub open spec fn sp_hex(c: char) -> Option<u32> {
    let v = c as u32;
    if 48 <= v && v <= 57 {
        Some((v - 48) as u32)
    } else if 97 <= v && v <= 102 {
        Some((v - 97 + 10) as u32)
    } else if 65 <= v && v <= 70 {
        Some((v - 65 + 10) as u32)
    } else {
        None
    }
}

/// The value of four hexadecimal digits at `i`.
pub open spec fn sp_hex4(s: Seq<char>, i: int) -> Option<u32> {
    if !(0 <= i && i + 4 <= s.len()) {
        None
    } else {
        match (sp_hex(s[i]), sp_hex(s[i + 1]), sp_hex(s[i + 2]), sp_hex(s[i + 3])) {
            (Some(a), Some(b), Some(c), Some(d)) => Some((a * 4096 + b * 256 + c * 16 + d) as u32),
            _ => None,
        }
    }
}

/// The character with code point `v`.
pub open spec fn sp_char(v: int) -> char {
    ((v as u32) as char)
}

/// Prepends a character to a string-parse result.
pub open spec fn sp_cons(c: char, r: Option<(Seq<char>, int)>) -> Option<(Seq<char>, int)> {
    match r {
        Some((t, k)) => Some((seq![c] + t, k)),
        None => None,
    }
}

/// The rest of a string literal from `pos` (after the opening quote): its
/// decoded text and the position after the closing quote.  Escapes follow
/// the JSON grammar; a `\u` escape in the high-surrogate range must be
/// followed by a low-surrogate escape, and the pair decodes to one
/// character.
pub open spec fn sp_string_tail(s: Seq<char>, pos: int) -> Option<(Seq<char>, int)>
    decreases s.len() - pos,
{
    if !(0 <= pos && pos < s.len()) {
        None
    } else {
        let c = s[pos];
        if c == '"' {
            Some((Seq::empty(), pos + 1))
        } else if c == '\\' {
            if pos + 1 >= s.len() {
                None
            } else {
                let e = s[pos + 1];
                if e == '"' || e == '\\' || e == '/' {
                    sp_cons(e, sp_string_tail(s, pos + 2))
                } else if e == 'b' {
                    sp_cons('\u{0008}', sp_string_tail(s, pos + 2))
                } else if e == 'f' {
                    sp_cons('\u{000C}', sp_string_tail(s, pos + 2))
                } else if e == 'n' {
                    sp_cons('\n', sp_string_tail(s, pos + 2))
                } else if e == 'r' {
                    sp_cons('\r', sp_string_tail(s, pos + 2))
                } else if e == 't' {
                    sp_cons('\t', sp_string_tail(s, pos + 2))
                } else if e == 'u' {
                    if s.len() - pos < 6 {
                        None
                    } else {
                        match sp_hex4(s, pos + 2) {
                            None => None,
                            Some(v) => {
                                if 0xD800 <= v && v <= 0xDBFF {
                                    if s.len() - pos < 12 || s[pos + 6] != '\\' || s[pos + 7]
                                        != 'u' {
                                        None
                                    } else {
                                        match sp_hex4(s, pos + 8) {
                                            None => None,
                                            Some(w) => {
                                                if 0xDC00 <= w && w <= 0xDFFF {
                                                    sp_cons(
                                                        sp_char(
                                                            0x10000 + (v - 0xD800) * 0x400 + (w
                                                                - 0xDC00),
                                                        ),
                                                        sp_string_tail(s, pos + 12),
                                                    )
                                                } else {
                                                    None
                                                }
                                            },
                                        }
                                    }
                                } else if 0xDC00 <= v && v <= 0xDFFF {
                                    None
                                } else {
                                    sp_cons(sp_char(v as int), sp_string_tail(s, pos + 6))
                                }
                            },
                        }
                    }
                } else {
                    None
                }
            }
        } else if (c as u32) < 0x20 {
            None
        } else {
            sp_cons(c, sp_string_tail(s, pos + 1))
        }
    }
}

/// A string literal starting at the quote at `i`.
pub open spec fn sp_string(s: Seq<char>, i: int) -> Option<(Seq<char>, int)> {
    if 0 <= i && i < s.len() && s[i] == '"' {
        sp_string_tail(s, i + 1)
    } else {
        None
    }
}

/// The run of digits from `i`: their values and the position after them.
pub open spec fn sp_digits(s: Seq<char>, i: int) -> (Seq<u8>, int)
    decreases s.len() - i,
{
    if 0 <= i && i < s.len() && sp_is_digit(s[i]) {
        let (d, e) = sp_digits(s, i + 1);
        (seq![(s[i] as u32 - 48) as u8] + d, e)
    } else {
        (Seq::empty(), i)
    }
}

/// The run of exponent digits from `i`, accumulated onto `e` with the
/// parser's cap.
pub open spec fn sp_exp_run(s: Seq<char>, i: int, e: int) -> (int, int)
    decreases s.len() - i,
{
    if 0 <= i && i < s.len() && sp_is_digit(s[i]) {
        sp_exp_run(
            s,
            i + 1,
            if e <= 100000000 {
                e * 10 + (s[i] as u32 - 48)
            } else {
                e
            },
        )
    } else {
        (e, i)
    }
}

/// A number literal starting at `i`: an optional minus sign, an integer
/// part without leading zeros, then the fractional part and exponent.
pub open spec fn sp_number(s: Seq<char>, i: int) -> Option<(NumView, int)> {
    if !(0 <= i && i < s.len()) {
        None
    } else {
        let neg = s[i] == '-';
        let p0 = if neg {
            i + 1
        } else {
            i
        };
        if !(p0 < s.len() && sp_is_digit(s[p0])) {
            None
        } else if s[p0] == '0' && p0 + 1 < s.len() && sp_is_digit(s[p0 + 1]) {
            None
        } else {
            if s[p0] == '0' {
                sp_number_frac(s, neg, seq![0u8], p0 + 1)
            } else {
                let (ids, p1) = sp_digits(s, p0);
                sp_number_frac(s, neg, ids, p1)
            }
        }
    }
}

/// The fractional part of a number literal from `p1`.
pub open spec fn sp_number_frac(s: Seq<char>, neg: bool, ids: Seq<u8>, p1: int) -> Option<
    (NumView, int),
> {
    if 0 <= p1 && p1 < s.len() && s[p1] == '.' {
        if !(p1 + 1 < s.len() && sp_is_digit(s[p1 + 1])) {
            None
        } else {
            let (fds, p2) = sp_digits(s, p1 + 1);
            sp_number_exp(s, neg, ids, fds, p2)
        }
    } else {
        sp_number_exp(s, neg, ids, Seq::empty(), p1)
    }
}

/// The exponent of a number literal from `p2`.
pub open spec fn sp_number_exp(
    s: Seq<char>,
    neg: bool,
    ids: Seq<u8>,
    fds: Seq<u8>,
    p2: int,
) -> Option<(NumView, int)> {
    if 0 <= p2 && p2 < s.len() && (s[p2] == 'e' || s[p2] == 'E') {
        let eneg = p2 + 1 < s.len() && s[p2 + 1] == '-';
        let p3 = if p2 + 1 < s.len() && (s[p2 + 1] == '+' || s[p2 + 1] == '-') {
            p2 + 2
        } else {
            p2 + 1
        };
        if !(p3 < s.len() && sp_is_digit(s[p3])) {
            None
        } else {
            let (ev, p4) = sp_exp_run(s, p3, 0);
            Some(
                (
                    NumView {
                        neg,
                        int_digits: ids,
                        frac_digits: fds,
                        exp: if eneg {
                            -ev
                        } else {
                            ev
                        },
                    },
                    p4,
                ),
            )
        }
    } else {
        Some((NumView { neg, int_digits: ids, frac_digits: fds, exp: 0 }, p2))
    }
}

/// One JSON value at or after `i` (leading whitespace skipped): its
/// mathematical value and the position just past it.
pub open spec fn sp_value(s: Seq<char>, i: int) -> Option<(JVal, int)>
    decreases s.len() - i, 1int,
{
    if !(0 <= i && i <= s.len()) {
        None
    } else {
        let pos = sp_at(s, i, i);
        if pos >= s.len() {
            None
        } else {
            let c = s[pos];
            if c == '{' {
                sp_object(s, pos)
            } else if c == '[' {
                sp_array(s, pos)
            } else if c == '"' {
                match sp_string(s, pos) {
                    Some((t, k)) => Some((JVal::Str(t), k)),
                    None => None,
                }
            } else if c == 't' {
                if s.len() - pos >= 4 && s[pos + 1] == 'r' && s[pos + 2] == 'u' && s[pos + 3]
                    == 'e' {
                    Some((JVal::Bool(true), pos + 4))
                } else {
                    None
                }
            } else if c == 'f' {
                if s.len() - pos >= 5 && s[pos + 1] == 'a' && s[pos + 2] == 'l' && s[pos + 3]
                    == 's' && s[pos + 4] == 'e' {
                    Some((JVal::Bool(false), pos + 5))
                } else {
                    None
                }
            } else if c == 'n' {
                if s.len() - pos >= 4 && s[pos + 1] == 'u' && s[pos + 2] == 'l' && s[pos + 3]
                    == 'l' {
                    Some((JVal::Null, pos + 4))
                } else {
                    None
                }
            } else if c == '-' || sp_is_digit(c) {
                match sp_number(s, pos) {
                    Some((n, k)) => Some((JVal::Num(n), k)),
                    None => None,
                }
            } else {
                None
            }
        }
    }
}

/// An array starting at the `[` at `i`.
pub open spec fn sp_array(s: Seq<char>, i: int) -> Option<(JVal, int)>
    decreases s.len() - i, 0int,
{
    if !(0 <= i && i < s.len() && s[i] == '[') {
        None
    } else {
        let pos = sp_at(s, i + 1, i + 1);
        if pos < s.len() && s[pos] == ']' {
            Some((JVal::Arr(Seq::empty()), pos + 1))
        } else {
            match sp_elements(s, pos) {
                Some((vs, e)) => Some((JVal::Arr(vs), e)),
                None => None,
            }
        }
    }
}

/// A comma-separated run of values ending at `]`, starting at `i`.
pub open spec fn sp_elements(s: Seq<char>, i: int) -> Option<(Seq<JVal>, int)>
    decreases s.len() - i, 2int,
{
    if !(0 <= i && i <= s.len()) {
        None
    } else {
        match sp_value(s, i) {
            None => None,
            Some((v, k0)) => {
                let k = sp_at(s, k0, i + 1);
                if k < s.len() && s[k] == ']' {
                    Some((seq![v], k + 1))
                } else if k < s.len() && s[k] == ',' {
                    match sp_elements(s, k + 1) {
                        Some((rest, e)) => Some((seq![v] + rest, e)),
                        None => None,
                    }
                } else {
                    None
                }
            },
        }
    }
}

/// An object starting at the `{` at `i`.
pub open spec fn sp_object(s: Seq<char>, i: int) -> Option<(JVal, int)>
    decreases s.len() - i, 0int,
{
    if !(0 <= i && i < s.len() && s[i] == '{') {
        None
    } else {
        let pos = sp_at(s, i + 1, i + 1);
        if pos < s.len() && s[pos] == '}' {
            Some((JVal::Obj(Seq::empty()), pos + 1))
        } else {
            match sp_members(s, pos) {
                Some((ms, e)) => Some((JVal::Obj(ms), e)),
                None => None,
            }
        }
    }
}

/// A comma-separated run of members ending at `}`, starting at `i`.
pub open spec fn sp_members(s: Seq<char>, i: int) -> Option<(Seq<(Seq<char>, JVal)>, int)>
    decreases s.len() - i, 2int,
{
    if !(0 <= i && i < s.len()) {
        None
    } else {
        match sp_string(s, i) {
            None => None,
            Some((key, p0)) => {
                let p1 = sp_at(s, p0, i + 1);
                if !(p1 < s.len() && s[p1] == ':') {
                    None
                } else {
                    match sp_value(s, p1 + 1) {
                        None => None,
                        Some((v, k0)) => {
                            let k = sp_at(s, k0, p1 + 2);
                            if k < s.len() && s[k] == '}' {
                                Some((seq![(key, v)], k + 1))
                            } else if k < s.len() && s[k] == ',' {
                                let k2 = sp_at(s, k + 1, k + 1);
                                match sp_members(s, k2) {
                                    Some((rest, e)) => Some((seq![(key, v)] + rest, e)),
                                    None => None,
                                }
                            } else {
                                None
                            }
                        },
                    }
                }
            },
        }
    }
}

/// A whole text: one value with nothing but whitespace around it.
pub open spec fn sp_text(s: Seq<char>) -> Option<JVal> {
    match sp_value(s, 0) {
        Some((j, k)) => {
            if sp_at(s, k, 0) == s.len() {
                Some(j)
            } else {
                None
            }
        },
        None => None,
    }
}

fn is_digit(c: char) -> (r: bool)
    ensures
        r == sp_is_digit(c),
{
    (c as u32) >= 48 && (c as u32) <= 57
}

fn skip_ws(s: &Vec<char>, i: usize) -> (k: usize)
    requires
        i <= s@.len(),
    ensures
        i <= k <= s@.len(),
        k == sp_ws(s@, i as int),
{
    let mut k = i;
    while k < s.len() && (s[k] == ' ' || s[k] == '\t' || s[k] == '\n' || s[k] == '\r')
        invariant
            i <= k <= s@.len(),
            sp_ws(s@, i as int) == sp_ws(s@, k as int),
        decreases s@.len() - k,
    {
        k = k + 1;
    }
    k
}

fn hex_val(c: char) -> (r: Option<u32>)
    ensures
        r == sp_hex(c),
        match r {
            Some(h) => h <= 15,
            None => true,
        },
{
    let v = c as u32;
    if v >= 48 && v <= 57 {
        Some(v - 48)
    } else if v >= 97 && v <= 102 {
        Some(v - 97 + 10)
    } else if v >= 65 && v <= 70 {
        Some(v - 65 + 10)
    } else {
        None
    }
}

fn hex4(s: &Vec<char>, i: usize) -> (r: Option<u32>)
    requires
        i + 4 <= s@.len(),
    ensures
        r == sp_hex4(s@, i as int),
        match r {
            Some(v) => v <= 0xFFFF,
            None => true,
        },
{
    let n = s.len();
    let h0 = match hex_val(s[i]) {
        Some(h) => h,
        None => {
            return None;
        },
    };
    let h1 = match hex_val(s[i + 1]) {
        Some(h) => h,
        None => {
            return None;
        },
    };
    let h2 = match hex_val(s[i + 2]) {
        Some(h) => h,
        None => {
            return None;
        },
    };
    let h3 = match hex_val(s[i + 3]) {
        Some(h) => h,
        None => {
            return None;
        },
    };
    Some(h0 * 4096 + h1 * 256 + h2 * 16 + h3)
}

fn string_cons(c: char, r: Option<(Vec<char>, usize)>) -> (out: Option<(Vec<char>, usize)>)
    ensures
        match out {
            Some(p) => (match r {
                Some(q) => p.0@ == seq![c] + q.0@ && p.1 == q.1,
                None => false,
            }),
            None => r is None,
        },
{
    match r {
        Some((v, k)) => {
            let mut v2 = v;
            let ghost oldv = v2@;
            v2.insert(0, c);
            proof {
                assert(v2@ =~= seq![c] + oldv);
            }
            Some((v2, k))
        },
        None => None,
    }
}

/// Reads the rest of a string literal, matching `sp_string_tail`.
fn string_tail(s: &Vec<char>, pos: usize) -> (r: Option<(Vec<char>, usize)>)
    requires
        pos <= s@.len(),
    ensures
        match r {
            Some(p) => sp_string_tail(s@, pos as int) == Some((p.0@, p.1 as int)) && pos < p.1
                <= s@.len(),
            None => sp_string_tail(s@, pos as int) is None,
        },
    decreases s@.len() - pos,
{
    let n = s.len();
    if pos >= n {
        return None;
    }
    let c = s[pos];
    if c == '"' {
        let v: Vec<char> = Vec::new();
        proof {
            assert(v@ =~= Seq::<char>::empty());
        }
        return Some((v, pos + 1));
    }
    if c == '\\' {
        if n - pos < 2 {
            return None;
        }
        let e = s[pos + 1];
        if e == '"' || e == '\\' || e == '/' {
            string_cons(e, string_tail(s, pos + 2))
        } else if e == 'b' {
            string_cons('\u{0008}', string_tail(s, pos + 2))
        } else if e == 'f' {
            string_cons('\u{000C}', string_tail(s, pos + 2))
        } else if e == 'n' {
            string_cons('\n', string_tail(s, pos + 2))
        } else if e == 'r' {
            string_cons('\r', string_tail(s, pos + 2))
        } else if e == 't' {
            string_cons('\t', string_tail(s, pos + 2))
        } else if e == 'u' {
            if n - pos < 6 {
                return None;
            }
            let h = match hex4(s, pos + 2) {
                Some(v) => v,
                None => {
                    return None;
                },
            };
            if h >= 0xD800 && h <= 0xDBFF {
                if n - pos < 12 {
                    return None;
                }
                if s[pos + 6] != '\\' || s[pos + 7] != 'u' {
                    return None;
                }
                let l = match hex4(s, pos + 8) {
                    Some(v) => v,
                    None => {
                        return None;
                    },
                };
                if !(l >= 0xDC00 && l <= 0xDFFF) {
                    return None;
                }
                let cp: u32 = 0x10000 + (h - 0xD800) * 0x400 + (l - 0xDC00);
                match char_from_u32(cp) {
                    Some(c2) => {
                        proof {
                            vstd::utf8::char_u32_cast(c2, cp);
                            assert(sp_char(cp as int) == c2);
                        }
                        string_cons(c2, string_tail(s, pos + 12))
                    },
                    None => {
                        proof {
                            assert(false);
                        }
                        None
                    },
                }
            } else if h >= 0xDC00 && h <= 0xDFFF {
                None
            } else {
                match char_from_u32(h) {
                    Some(c2) => {
                        proof {
                            vstd::utf8::char_u32_cast(c2, h);
                            assert(sp_char(h as int) == c2);
                        }
                        string_cons(c2, string_tail(s, pos + 6))
                    },
                    None => {
                        proof {
                            assert(false);
                        }
                        None
                    },
                }
            }
        } else {
            None
        }
    } else if (c as u32) < 0x20 {
        None
    } else {
        string_cons(c, string_tail(s, pos + 1))
    }
}

/// Reads a string literal starting at the opening quote `i`, matching
/// `sp_string`.
fn parse_string(s: &Vec<char>, i: usize) -> (r: Option<(String, usize)>)
    requires
        i < s@.len(),
    ensures
        match r {
            Some(p) => sp_string(s@, i as int) == Some((p.0@, p.1 as int)) && i < p.1 <= s@.len(),
            None => sp_string(s@, i as int) is None,
        },
{
    let n = s.len();
    if s[i] != '"' {
        return None;
    }
    match string_tail(s, i + 1) {
        Some((v, k)) => Some((crate::text::chars_to_string(&v), k)),
        None => None,
    }
}

/// Appends the digit run at `i`, matching `sp_digits`.
fn digit_run(s: &Vec<char>, i: usize, out: &mut Vec<u8>) -> (e: usize)
    requires
        i <= s@.len(),
    ensures
        final(out)@ == old(out)@ + sp_digits(s@, i as int).0,
        e == sp_digits(s@, i as int).1,
        i <= e <= s@.len(),
        i < s@.len() && sp_is_digit(s@[i as int]) ==> e > i,
    decreases s@.len() - i,
{
    let n = s.len();
    if i < n && is_digit(s[i]) {
        out.push(((s[i] as u32) - 48) as u8);
        let e = digit_run(s, i + 1, out);
        proof {
            assert(out@ =~= old(out)@ + sp_digits(s@, i as int).0);
        }
        e
    } else {
        proof {
            assert(out@ =~= old(out)@ + sp_digits(s@, i as int).0);
        }
        i
    }
}

/// Accumulates the exponent run at `i`, matching `sp_exp_run`.
fn exp_run(s: &Vec<char>, i: usize, e: i64) -> (r: (i64, usize))
    requires
        i <= s@.len(),
        0 <= e <= 2000000000,
    ensures
        r.0 == sp_exp_run(s@, i as int, e as int).0,
        r.1 == sp_exp_run(s@, i as int, e as int).1,
        i <= r.1 <= s@.len(),
        0 <= r.0 <= 2000000000,
    decreases s@.len() - i,
{
    let n = s.len();
    if i < n && is_digit(s[i]) {
        let e2: i64 = if e <= 100000000 {
            e * 10 + (((s[i] as u32) - 48) as i64)
        } else {
            e
        };
        exp_run(s, i + 1, e2)
    } else {
        (e, i)
    }
}

/// Reads a number literal starting at `i`, matching `sp_number`.
#[verifier::rlimit(50)]
fn parse_number(s: &Vec<char>, i: usize) -> (r: Option<(NumParts, usize)>)
    requires
        i < s@.len(),
    ensures
        match r {
            Some(p) => sp_number(s@, i as int) == Some((num_view(p.0), p.1 as int)) && i < p.1
                <= s@.len(),
            None => sp_number(s@, i as int) is None,
        },
{
    let n = s.len();
    let mut pos: usize = i;
    let neg = s[pos] == '-';
    if neg {
        pos = pos + 1;
    }
    if pos >= n || !is_digit(s[pos]) {
        return None;
    }
    let mut int_digits: Vec<u8> = Vec::new();
    let p1: usize;
    if s[pos] == '0' {
        if pos + 1 < n && is_digit(s[pos + 1]) {
            return None;
        }
        int_digits.push(0);
        p1 = pos + 1;
        proof {
            assert(int_digits@ =~= seq![0u8]);
        }
    } else {
        p1 = digit_run(s, pos, &mut int_digits);
    }
    proof {
        assert(sp_number(s@, i as int) == sp_number_frac(
            s@,
            neg,
            int_digits@,
            p1 as int,
        ));
    }
    let mut frac_digits: Vec<u8> = Vec::new();
    let p2: usize;
    if p1 < n && s[p1] == '.' {
        if p1 + 1 >= n || !is_digit(s[p1 + 1]) {
            return None;
        }
        p2 = digit_run(s, p1 + 1, &mut frac_digits);
    } else {
        p2 = p1;
    }
    proof {
        assert(sp_number_frac(s@, neg, int_digits@, p1 as int) == sp_number_exp(
            s@,
            neg,
            int_digits@,
            frac_digits@,
            p2 as int,
        ));
    }
    let mut exp: i64 = 0;
    let p4: usize;
    if p2 < n && (s[p2] == 'e' || s[p2] == 'E') {
        let eneg = p2 + 1 < n && s[p2 + 1] == '-';
        let p3: usize = if p2 + 1 < n && (s[p2 + 1] == '+' || s[p2 + 1] == '-') {
            p2 + 2
        } else {
            p2 + 1
        };
        if p3 >= n || !is_digit(s[p3]) {
            return None;
        }
        let (ev, pe) = exp_run(s, p3, 0);
        exp = if eneg {
            -ev
        } else {
            ev
        };
        p4 = pe;
        proof {
            assert(sp_number_exp(s@, neg, int_digits@, frac_digits@, p2 as int) == Some(
                (
                    NumView {
                        neg,
                        int_digits: int_digits@,
                        frac_digits: frac_digits@,
                        exp: exp as int,
                    },
                    p4 as int,
                ),
            ));
        }
    } else {
        p4 = p2;
        proof {
            assert(sp_number_exp(s@, neg, int_digits@, frac_digits@, p2 as int) == Some(
                (
                    NumView {
                        neg,
                        int_digits: int_digits@,
                        frac_digits: frac_digits@,
                        exp: 0,
                    },
                    p4 as int,
                ),
            ));
        }
    }
    let out = NumParts { neg, int_digits, frac_digits, exp };
    Some((out, p4))
}

/// Reads one JSON value at or after `i`, matching `sp_value`.
fn parse_value(s: &Vec<char>, i: usize) -> (r: Option<(Json, usize)>)
    requires
        i <= s@.len(),
    ensures
        match r {
            Some(p) => sp_value(s@, i as int) == Some((jview(p.0), p.1 as int)) && i < p.1
                <= s@.len(),
            None => sp_value(s@, i as int) is None,
        },
    decreases s@.len() - i, 1int,
{
    let pos = skip_ws(s, i);
    proof {
        assert(sp_at(s@, i as int, i as int) == pos as int);
    }
    if pos >= s.len() {
        return None;
    }
    let c = s[pos];
    if c == '{' {
        match parse_object(s, pos) {
            Some((j, k)) => Some((j, k)),
            None => None,
        }
    } else if c == '[' {
        match parse_array(s, pos) {
            Some((j, k)) => Some((j, k)),
            None => None,
        }
    } else if c == '"' {
        match parse_string(s, pos) {
            Some((t, k)) => Some((Json::Str(t), k)),
            None => None,
        }
    } else if c == 't' {
        if s.len() - pos >= 4 && s[pos + 1] == 'r' && s[pos + 2] == 'u' && s[pos + 3] == 'e' {
            Some((Json::Bool(true), pos + 4))
        } else {
            None
        }
    } else if c == 'f' {
        if s.len() - pos >= 5 && s[pos + 1] == 'a' && s[pos + 2] == 'l' && s[pos + 3] == 's' && s[
            pos + 4
        ] == 'e' {
            Some((Json::Bool(false), pos + 5))
        } else {
            None
        }
    } else if c == 'n' {
        if s.len() - pos >= 4 && s[pos + 1] == 'u' && s[pos + 2] == 'l' && s[pos + 3] == 'l' {
            Some((Json::Null, pos + 4))
        } else {
            None
        }
    } else if c == '-' || is_digit(c) {
        match parse_number(s, pos) {
            Some((np, k)) => Some((Json::Num(np), k)),
            None => None,
        }
    } else {
        None
    }
}

/// Reads an array starting at the `[` at `i`, matching `sp_array`.
fn parse_array(s: &Vec<char>, i: usize) -> (r: Option<(Json, usize)>)
    requires
        i < s@.len(),
    ensures
        match r {
            Some(p) => sp_array(s@, i as int) == Some((jview(p.0), p.1 as int)) && i < p.1
                <= s@.len(),
            None => sp_array(s@, i as int) is None,
        },
    decreases s@.len() - i, 0int,
{
    let n = s.len();
    if s[i] != '[' {
        return None;
    }
    let pos = skip_ws(s, i + 1);
    proof {
        assert(sp_at(s@, i + 1, i + 1) == pos as int);
    }
    if pos < s.len() && s[pos] == ']' {
        let items: Vec<Json> = Vec::new();
        proof {
            assert(jview_arr(items, 0) =~= Seq::<JVal>::empty());
        }
        return Some((Json::Arr(items), pos + 1));
    }
    match elements(s, pos) {
        Some((items, e)) => {
            proof {
                lemma_jview_arr(items, 0);
                assert(items@.skip(0) =~= items@);
            }
            Some((Json::Arr(items), e))
        },
        None => None,
    }
}

/// Reads a run of array elements starting at `i`, matching `sp_elements`.
fn elements(s: &Vec<char>, i: usize) -> (r: Option<(Vec<Json>, usize)>)
    requires
        i <= s@.len(),
    ensures
        match r {
            Some(p) => sp_elements(s@, i as int) == Some((jview_seq(p.0@), p.1 as int)) && i < p.1
                <= s@.len(),
            None => sp_elements(s@, i as int) is None,
        },
    decreases s@.len() - i, 2int,
{
    match parse_value(s, i) {
        None => None,
        Some((v, k0)) => {
            let k = skip_ws(s, k0);
            proof {
                assert(sp_at(s@, k0 as int, i + 1) == k as int);
            }
            if k < s.len() && s[k] == ']' {
                let mut items: Vec<Json> = Vec::new();
                items.push(v);
                proof {
                    assert(items@.drop_first() =~= Seq::<Json>::empty());
                    assert(jview_seq(Seq::<Json>::empty()) == Seq::<JVal>::empty());
                    assert(jview_seq(items@) =~= seq![jview(items@.first())]);
                }
                Some((items, k + 1))
            } else if k < s.len() && s[k] == ',' {
                match elements(s, k + 1) {
                    None => None,
                    Some((rest0, e)) => {
                        let mut rest = rest0;
                        let ghost old_rest = rest@;
                        let ghost gv = v;
                        rest.insert(0, v);
                        proof {
                            assert(rest@.drop_first() =~= old_rest);
                            assert(rest@.first() == gv);
                            assert(jview_seq(rest@) =~= seq![jview(gv)] + jview_seq(old_rest));
                        }
                        Some((rest, e))
                    },
                }
            } else {
                None
            }
        },
    }
}

/// Reads an object starting at the `{` at `i`, matching `sp_object`.
fn parse_object(s: &Vec<char>, i: usize) -> (r: Option<(Json, usize)>)
    requires
        i < s@.len(),
    ensures
        match r {
            Some(p) => sp_object(s@, i as int) == Some((jview(p.0), p.1 as int)) && i < p.1
                <= s@.len(),
            None => sp_object(s@, i as int) is None,
        },
    decreases s@.len() - i, 0int,
{
    let n = s.len();
    if s[i] != '{' {
        return None;
    }
    let pos = skip_ws(s, i + 1);
    proof {
        assert(sp_at(s@, i + 1, i + 1) == pos as int);
    }
    if pos < s.len() && s[pos] == '}' {
        let ms: Vec<Member> = Vec::new();
        proof {
            assert(jview_members(ms, 0) =~= Seq::<(Seq<char>, JVal)>::empty());
        }
        return Some((Json::Obj(ms), pos + 1));
    }
    match members(s, pos) {
        Some((ms, e)) => {
            proof {
                lemma_jview_members(ms, 0);
                assert(ms@.skip(0) =~= ms@);
            }
            Some((Json::Obj(ms), e))
        },
        None => None,
    }
}

/// Reads a run of object members starting at `i`, matching `sp_members`.
#[verifier::rlimit(50)]
fn members(s: &Vec<char>, i: usize) -> (r: Option<(Vec<Member>, usize)>)
    requires
        i <= s@.len(),
    ensures
        match r {
            Some(p) => sp_members(s@, i as int) == Some((jview_mseq(p.0@), p.1 as int)) && i < p.1
                <= s@.len(),
            None => sp_members(s@, i as int) is None,
        },
    decreases s@.len() - i, 2int,
{
    if i >= s.len() {
        return None;
    }
    match parse_string(s, i) {
        None => None,
        Some((key, p0)) => {
            let p1 = skip_ws(s, p0);
            proof {
                assert(sp_at(s@, p0 as int, i + 1) == p1 as int);
            }
            if p1 >= s.len() || s[p1] != ':' {
                return None;
            }
            match parse_value(s, p1 + 1) {
                None => None,
                Some((v, k0)) => {
                    let k = skip_ws(s, k0);
                    proof {
                        assert(sp_at(s@, k0 as int, p1 + 2) == k as int);
                    }
                    if k < s.len() && s[k] == '}' {
                        let mut ms: Vec<Member> = Vec::new();
                        ms.push(Member { key, value: v });
                        proof {
                            assert(ms@.drop_first() =~= Seq::<Member>::empty());
                            assert(jview_mseq(Seq::<Member>::empty()) == Seq::<
                                (Seq<char>, JVal),
                            >::empty());
                            assert(jview_mseq(ms@) =~= seq![
                                (ms@.first().key@, jview(ms@.first().value)),
                            ]);
                        }
                        Some((ms, k + 1))
                    } else if k < s.len() && s[k] == ',' {
                        let k2 = skip_ws(s, k + 1);
                        proof {
                            assert(sp_at(s@, k + 1, k + 1) == k2 as int);
                        }
                        match members(s, k2) {
                            None => None,
                            Some((rest0, e)) => {
                                let mut rest = rest0;
                                let ghost old_rest = rest@;
                                let m = Member { key, value: v };
                                let ghost gm = m;
                                rest.insert(0, m);
                                proof {
                                    assert(rest@.drop_first() =~= old_rest);
                                    assert(rest@.first() == gm);
                                    assert(jview_mseq(rest@) =~= seq![(gm.key@, jview(gm.value))]
                                        + jview_mseq(old_rest));
                                }
                                Some((rest, e))
                            },
                        }
                    } else {
                        None
                    }
                },
            }
        },
    }
}

/// Parses a whole text, matching `sp_text`: one JSON value with nothing
/// but whitespace around it.
pub(crate) fn parse_json(text: &str) -> (r: Option<Json>)
    ensures
        match r {
            Some(j) => sp_text(text@) == Some(jview(j)),
            None => sp_text(text@) is None,
        },
{
    let s = crate::text::to_chars(text);
    match parse_value(&s, 0) {
        Some((j, k)) => {
            let k2 = skip_ws(&s, k);
            proof {
                assert(sp_at(s@, k as int, 0) == k2 as int);
            }
            if k2 == s.len() {
                Some(j)
            } else {
                None
            }
        },
        None => None,
    }
}

} // verus!
