//! Which tokens of command output are numbers: exactly the texts that
//! Rust's `f64::from_str` accepts. Its documented grammar, once the text is
//! lowercased, is
//!
//! ```text
//! Float  ::= Sign? ( 'inf' | 'infinity' | 'nan' | Number )
//! Number ::= ( Digit+ | Digit+ '.' Digit* | Digit* '.' Digit+ ) Exp?
//! Exp    ::= 'e' Sign? Digit+
//! Sign   ::= [+-]
//! ```
//!
//! What value such a text has as a floating-point number is left to the
//! shell, which keeps the text and converts it there.

use vstd::prelude::*;

verus! {

pub open spec fn is_digit(c: char) -> bool {
    '0' <= c && c <= '9'
}

pub open spec fn all_digits(s: Seq<char>) -> bool {
    forall|i: int| 0 <= i < s.len() ==> is_digit(#[trigger] s[i])
}

/// Number of leading decimal digits of `s`.
pub open spec fn digit_run(s: Seq<char>) -> nat
    decreases s.len(),
{
    if s.len() > 0 && is_digit(s[0]) {
        1 + digit_run(s.drop_first())
    } else {
        0
    }
}

/// The upper-case form of the lower-case letters that numbers spell.
pub open spec fn upper(l: char) -> char {
    if l == 'a' {
        'A'
    } else if l == 'e' {
        'E'
    } else if l == 'f' {
        'F'
    } else if l == 'i' {
        'I'
    } else if l == 'n' {
        'N'
    } else if l == 't' {
        'T'
    } else if l == 'y' {
        'Y'
    } else {
        l
    }
}

/// `c` is the lower-case letter `l` or its upper-case form.
pub open spec fn letter_is(c: char, l: char) -> bool {
    c == l || c == upper(l)
}

/// The upper-case form of `l` (see `upper`).
fn upper_of(l: char) -> (u: char)
    ensures
        u == upper(l),
{
    if l == 'a' {
        'A'
    } else if l == 'e' {
        'E'
    } else if l == 'f' {
        'F'
    } else if l == 'i' {
        'I'
    } else if l == 'n' {
        'N'
    } else if l == 't' {
        'T'
    } else if l == 'y' {
        'Y'
    } else {
        l
    }
}

/// `s` spells `w` (lower-case ASCII letters) in any mix of cases.
pub open spec fn spells(s: Seq<char>, w: Seq<char>) -> bool {
    s.len() == w.len() && forall|i: int| 0 <= i < s.len() ==> letter_is(#[trigger] s[i], w[i])
}

/// Length of the sign of token `t` (0 or 1).
pub open spec fn sign_len(t: Seq<char>) -> int {
    if t.len() > 0 && (t[0] == '+' || t[0] == '-') {
        1
    } else {
        0
    }
}

/// `e` is an exponent: `e` or `E`, an optional sign, at least one digit.
pub open spec fn is_exponent(e: Seq<char>) -> bool {
    e.len() >= 1 && letter_is(e[0], 'e') && {
        let x = e.skip(1);
        let d = x.skip(sign_len(x));
        d.len() >= 1 && all_digits(d)
    }
}

/// `b` is a decimal number: digits with at most one point and at least
/// one digit, then optionally an exponent.
pub open spec fn is_decimal(b: Seq<char>) -> bool {
    let k = digit_run(b);
    let rest = b.skip(k as int);
    let has_point = rest.len() > 0 && rest[0] == '.';
    let f: nat = if has_point { digit_run(rest.skip(1)) } else { 0 };
    let mantissa_len: int = if has_point { (k + 1 + f) as int } else { k as int };
    k + f >= 1 && {
        let e = b.skip(mantissa_len);
        e.len() == 0 || is_exponent(e)
    }
}

/// `t` is a number: what `f64::from_str` accepts.
pub open spec fn is_number(t: Seq<char>) -> bool {
    let b = t.skip(sign_len(t));
    spells(b, seq!['i', 'n', 'f']) || spells(b, seq!['i', 'n', 'f', 'i', 'n', 'i', 't', 'y']) || spells(
        b,
        seq!['n', 'a', 'n'],
    ) || is_decimal(b)
}

pub proof fn lemma_digit_run_bound(s: Seq<char>)
    ensures
        digit_run(s) <= s.len(),
        forall|i: int| 0 <= i < digit_run(s) ==> is_digit(#[trigger] s[i]),
        digit_run(s) < s.len() ==> !is_digit(s[digit_run(s) as int]),
    decreases s.len(),
{
    if s.len() > 0 && is_digit(s[0]) {
        lemma_digit_run_bound(s.drop_first());
        assert forall|i: int| 0 <= i < digit_run(s) implies is_digit(#[trigger] s[i]) by {
            if i > 0 {
                assert(s[i] == s.drop_first()[i - 1]);
            }
        }
        if digit_run(s) < s.len() {
            assert(s[digit_run(s) as int] == s.drop_first()[digit_run(s.drop_first()) as int]);
        }
    }
}

/// The digits run of `s[i..]` from the one of `s[i + 1..]`.
proof fn lemma_digit_run_skip(s: Seq<char>, i: int)
    requires
        0 <= i < s.len(),
    ensures
        digit_run(s.skip(i)) == if is_digit(s[i]) { 1 + digit_run(s.skip(i + 1)) } else { 0 },
{
    assert(s.skip(i).drop_first() =~= s.skip(i + 1));
}

/// End of the digit run of `v[p..hi]`.
fn skip_digits(v: &Vec<char>, p: usize, hi: usize) -> (q: usize)
    requires
        p <= hi <= v.len(),
    ensures
        p <= q <= hi,
        q - p == digit_run(v@.subrange(p as int, hi as int)),
{
    let ghost s = v@.subrange(p as int, hi as int);
    let mut q = p;
    assert(s.skip(0) =~= s);
    while q < hi && '0' <= v[q] && v[q] <= '9'
        invariant
            p <= q <= hi,
            hi <= v.len(),
            s == v@.subrange(p as int, hi as int),
            digit_run(s) == (q - p) + digit_run(s.skip(q - p)),
        decreases hi - q,
    {
        proof {
            lemma_digit_run_skip(s, (q - p) as int);
            assert(s[q - p] == v@[q as int]);
        }
        q = q + 1;
    }
    proof {
        if q < hi {
            lemma_digit_run_skip(s, (q - p) as int);
            assert(s[q - p] == v@[q as int]);
        } else {
            assert(s.skip(q - p) =~= Seq::<char>::empty());
        }
    }
    q
}

/// Whether `v[lo..hi]` spells `w`, ignoring case.
fn spells_at(v: &Vec<char>, lo: usize, hi: usize, w: &Vec<char>) -> (b: bool)
    requires
        lo <= hi <= v.len(),
    ensures
        b == spells(v@.subrange(lo as int, hi as int), w@),
{
    let ghost s = v@.subrange(lo as int, hi as int);
    if hi - lo != w.len() {
        return false;
    }
    let mut i: usize = 0;
    while i < w.len()
        invariant
            i <= w.len(),
            hi - lo == w.len(),
            lo <= hi <= v.len(),
            s == v@.subrange(lo as int, hi as int),
            forall|j: int| 0 <= j < i ==> letter_is(#[trigger] s[j], w@[j]),
        decreases w.len() - i,
    {
        let c = v[lo + i];
        let l = w[i];
        assert(s[i as int] == c);
        if !(c == l || c == upper_of(l)) {
            return false;
        }
        i = i + 1;
    }
    true
}

/// Whether `v[lo..hi]` is a number (see `is_number`).
pub fn is_number_at(v: &Vec<char>, lo: usize, hi: usize) -> (b: bool)
    requires
        lo <= hi <= v.len(),
    ensures
        b == is_number(v@.subrange(lo as int, hi as int)),
{
    let ghost t = v@.subrange(lo as int, hi as int);
    let start: usize = if lo < hi && (v[lo] == '+' || v[lo] == '-') {
        lo + 1
    } else {
        lo
    };
    let ghost b = t.skip(sign_len(t));
    assert(b =~= v@.subrange(start as int, hi as int));
    let inf = vec!['i', 'n', 'f'];
    let infinity = vec!['i', 'n', 'f', 'i', 'n', 'i', 't', 'y'];
    let nan = vec!['n', 'a', 'n'];
    assert(inf@ =~= seq!['i', 'n', 'f']);
    assert(infinity@ =~= seq!['i', 'n', 'f', 'i', 'n', 'i', 't', 'y']);
    assert(nan@ =~= seq!['n', 'a', 'n']);
    if spells_at(v, start, hi, &inf) || spells_at(v, start, hi, &infinity) || spells_at(v, start, hi, &nan) {
        return true;
    }
    is_decimal_at(v, start, hi)
}

/// Whether `v[lo..hi]` is a decimal number (see `is_decimal`).
fn is_decimal_at(v: &Vec<char>, lo: usize, hi: usize) -> (r: bool)
    requires
        lo <= hi <= v.len(),
    ensures
        r == is_decimal(v@.subrange(lo as int, hi as int)),
{
    let ghost b = v@.subrange(lo as int, hi as int);
    let p = skip_digits(v, lo, hi);
    let ghost k = digit_run(b);
    assert(b.skip(k as int) =~= v@.subrange(p as int, hi as int));
    let mut q = p;
    let mut digits = p - lo;
    if p < hi && v[p] == '.' {
        let r = skip_digits(v, p + 1, hi);
        assert(b.skip(k as int).skip(1) =~= v@.subrange(p + 1, hi as int));
        digits = digits + (r - (p + 1));
        q = r;
    }
    if digits == 0 {
        return false;
    }
    assert(b.skip(q - lo) =~= v@.subrange(q as int, hi as int));
    if q == hi {
        return true;
    }
    let ghost e = v@.subrange(q as int, hi as int);
    assert(e[0] == v@[q as int]);
    if !(v[q] == 'e' || v[q] == 'E') {
        return false;
    }
    let mut s = q + 1;
    assert(e.skip(1) =~= v@.subrange(q + 1, hi as int));
    if s < hi && (v[s] == '+' || v[s] == '-') {
        s = s + 1;
    }
    let ghost x = e.skip(1);
    assert(x.skip(sign_len(x)) =~= v@.subrange(s as int, hi as int));
    if s == hi {
        return false;
    }
    let end = skip_digits(v, s, hi);
    proof {
        lemma_digit_run_bound(v@.subrange(s as int, hi as int));
        let d = v@.subrange(s as int, hi as int);
        if end == hi {
            assert(all_digits(d));
        } else {
            assert(!is_digit(d[end - s]));
        }
    }
    end == hi
}

} // verus!
