//! Character classification and string building used by every phase.
//!
//! The Unicode character properties come from `char`'s own methods; their
//! results are named (`is_alphabetic_char`, ...) since the Unicode tables they
//! consult are not restated here. Strings are assembled by verified helpers
//! whose contracts speak of the `Seq<char>` view.

use vstd::prelude::*;

verus! {

broadcast use vstd::string::group_string_axioms;

/// Whether `c` has the Unicode `Alphabetic` property.
pub uninterp spec fn is_alphabetic_char(c: char) -> bool;

/// Whether `c` belongs to one of the Unicode general categories for numbers.
pub uninterp spec fn is_numeric_char(c: char) -> bool;

/// Whether `c` has the Unicode `White_Space` property.
pub uninterp spec fn is_whitespace_char(c: char) -> bool;

/// `char::is_alphabetic`: true exactly when `c` has the Unicode
/// `Alphabetic` property (named, not restated).
#[verifier::external_body]
pub(crate) fn char_is_alphabetic(c: char) -> (r: bool)
    ensures
        r == is_alphabetic_char(c),
{
    c.is_alphabetic()
}

/// `char::is_alphanumeric`: its documentation defines it as
/// `is_alphabetic() || is_numeric()`; the contract says exactly that.
#[verifier::external_body]
pub(crate) fn char_is_alphanumeric(c: char) -> (r: bool)
    ensures
        r == (is_alphabetic_char(c) || is_numeric_char(c)),
{
    c.is_alphanumeric()
}

/// `char::is_whitespace`: true exactly when `c` has the Unicode `White_Space`
/// property (named, not restated).
#[verifier::external_body]
pub(crate) fn char_is_whitespace(c: char) -> (r: bool)
    ensures
        r == is_whitespace_char(c),
{
    c.is_whitespace()
}

/// ASCII decimal digit `'0'..='9'`.
pub open spec fn is_digit(c: char) -> bool {
    '0' <= c && c <= '9'
}

/// Character that continues an identifier: alphanumeric or `_`.
pub open spec fn is_word_char(c: char) -> bool {
    is_alphabetic_char(c) || is_numeric_char(c) || c == '_'
}

pub fn char_is_digit(c: char) -> (r: bool)
    ensures
        r == is_digit(c),
{
    '0' <= c && c <= '9'
}

pub fn char_is_word(c: char) -> (r: bool)
    ensures
        r == is_word_char(c),
{
    char_is_alphanumeric(c) || c == '_'
}

/// `String::push`: appends one character.
#[verifier::external_body]
pub(crate) fn push_char(s: &mut String, c: char)
    ensures
        final(s)@ == old(s)@.push(c),
{
    s.push(c);
}

/// Whether `a` and `b` hold the same characters.
pub(crate) fn str_eq(a: &str, b: &str) -> (r: bool)
    ensures
        r == (a@ == b@),
{
    let x = chars_of(a);
    let y = chars_of(b);
    if x.len() != y.len() {
        return false;
    }
    let mut i: usize = 0;
    while i < x.len()
        invariant
            x@ == a@,
            y@ == b@,
            x@.len() == y@.len(),
            i <= x@.len(),
            forall|k: int| 0 <= k < i ==> x@[k] == y@[k],
        decreases x@.len() - i,
    {
        if x[i] != y[i] {
            return false;
        }
        i = i + 1;
    }
    assert(a@ =~= b@);
    true
}

/// The characters of `s`, in order.
pub fn chars_of(s: &str) -> (v: Vec<char>)
    ensures
        v@ == s@,
{
    let mut v: Vec<char> = Vec::new();
    for c in it: s.chars()
        invariant
            v@ == it.seq().take(it.index()),
    {
        v.push(c);
    }
    v
}

/// The string made of `s`.
pub fn string_of(s: &str) -> (r: String)
    ensures
        r@ == s@,
{
    let mut r = String::new();
    r.append(s);
    r
}

/// The one-character string `c`.
pub fn char_string(c: char) -> (r: String)
    ensures
        r@ == seq![c],
{
    let mut r = String::new();
    push_char(&mut r, c);
    assert(r@ =~= seq![c]);
    r
}

/// The string made of the characters of `v`.
pub fn string_from_chars(v: &[char]) -> (r: String)
    ensures
        r@ == v@,
{
    let mut r = String::new();
    let mut i: usize = 0;
    while i < v.len()
        invariant
            0 <= i <= v@.len(),
            r@ == v@.subrange(0, i as int),
        decreases v@.len() - i,
    {
        push_char(&mut r, v[i]);
        i = i + 1;
        assert(r@ =~= v@.subrange(0, i as int));
    }
    assert(v@.subrange(0, v@.len() as int) =~= v@);
    r
}

/// `a ++ b`.
pub fn cat2(a: &str, b: &str) -> (r: String)
    ensures
        r@ == a@ + b@,
{
    let mut r = String::new();
    r.append(a);
    r.append(b);
    assert(r@ =~= a@ + b@);
    r
}

/// `a ++ b ++ c`.
pub fn cat3(a: &str, b: &str, c: &str) -> (r: String)
    ensures
        r@ == a@ + b@ + c@,
{
    let mut r = String::new();
    r.append(a);
    r.append(b);
    r.append(c);
    assert(r@ =~= a@ + b@ + c@);
    r
}

/// `a ++ b ++ c ++ d`.
pub fn cat4(a: &str, b: &str, c: &str, d: &str) -> (r: String)
    ensures
        r@ == a@ + b@ + c@ + d@,
{
    let mut r = String::new();
    r.append(a);
    r.append(b);
    r.append(c);
    r.append(d);
    assert(r@ =~= a@ + b@ + c@ + d@);
    r
}

/// `a ++ b ++ c ++ d ++ e`.
pub fn cat5(a: &str, b: &str, c: &str, d: &str, e: &str) -> (r: String)
    ensures
        r@ == a@ + b@ + c@ + d@ + e@,
{
    let mut r = String::new();
    r.append(a);
    r.append(b);
    r.append(c);
    r.append(d);
    r.append(e);
    assert(r@ =~= a@ + b@ + c@ + d@ + e@);
    r
}


/// `n` spaces.
pub open spec fn spaces(n: nat) -> Seq<char> {
    Seq::new(n, |i: int| ' ')
}

/// `s` left-aligned in a field of width `w` (`{:<w}`).
pub open spec fn pad_right(s: Seq<char>, w: nat) -> Seq<char> {
    if s.len() >= w {
        s
    } else {
        s + spaces((w - s.len()) as nat)
    }
}

/// `s` right-aligned in a field of width `w` (`{:>w}`).
pub open spec fn pad_left(s: Seq<char>, w: nat) -> Seq<char> {
    if s.len() >= w {
        s
    } else {
        spaces((w - s.len()) as nat) + s
    }
}

fn push_spaces(out: &mut String, n: usize)
    ensures
        final(out)@ == old(out)@ + spaces(n as nat),
{
    let mut i: usize = 0;
    while i < n
        invariant
            i <= n,
            out@ == old(out)@ + spaces(i as nat),
        decreases n - i,
    {
        push_char(out, ' ');
        i = i + 1;
        assert(out@ =~= old(out)@ + spaces(i as nat));
    }
}

/// Appends `s` left-aligned in a field of width `w`.
pub fn push_padded_right(out: &mut String, s: &str, w: usize)
    ensures
        final(out)@ == old(out)@ + pad_right(s@, w as nat),
{
    let n = s.unicode_len();
    out.append(s);
    if n < w {
        push_spaces(out, w - n);
        assert(final(out)@ =~= old(out)@ + pad_right(s@, w as nat));
    }
}

/// Appends `s` right-aligned in a field of width `w`.
pub fn push_padded_left(out: &mut String, s: &str, w: usize)
    ensures
        final(out)@ == old(out)@ + pad_left(s@, w as nat),
{
    let n = s.unicode_len();
    if n < w {
        push_spaces(out, w - n);
    }
    out.append(s);
    assert(final(out)@ =~= old(out)@ + pad_left(s@, w as nat));
}

/// The decimal digit character of `d < 10`.
pub open spec fn digit_char(d: nat) -> char {
    if d == 0 { '0' }
    else if d == 1 { '1' }
    else if d == 2 { '2' }
    else if d == 3 { '3' }
    else if d == 4 { '4' }
    else if d == 5 { '5' }
    else if d == 6 { '6' }
    else if d == 7 { '7' }
    else if d == 8 { '8' }
    else { '9' }
}

/// Decimal representation of `n`, without leading zeros.
pub open spec fn decimal(n: nat) -> Seq<char>
    decreases n,
{
    if n < 10 {
        seq![digit_char(n)]
    } else {
        decimal(n / 10).push(digit_char(n % 10))
    }
}

fn digit_to_char(d: usize) -> (c: char)
    requires
        d < 10,
    ensures
        c == digit_char(d as nat),
{
    if d == 0 { '0' }
    else if d == 1 { '1' }
    else if d == 2 { '2' }
    else if d == 3 { '3' }
    else if d == 4 { '4' }
    else if d == 5 { '5' }
    else if d == 6 { '6' }
    else if d == 7 { '7' }
    else if d == 8 { '8' }
    else { '9' }
}

/// The decimal representation of `n`.
pub fn decimal_string(n: usize) -> (r: String)
    ensures
        r@ == decimal(n as nat),
    decreases n,
{
    if n < 10 {
        char_string(digit_to_char(n))
    } else {
        let mut r = decimal_string(n / 10);
        push_char(&mut r, digit_to_char(n % 10));
        r
    }
}

} // verus!
