//! Scanning text by position: character classes and their runs, fixed
//! words, and decimal numbers. The grammars of this crate are written over
//! these.

use vstd::prelude::*;
use crate::text::{chars_of, char_is_alnum, char_is_digit, is_alnum, is_digit};

verus! {

/// A failed parse.
#[derive(Debug, Clone, Copy, PartialEq, Eq)]
pub struct ParseError;

/// What `char::is_alphanumeric` answers for a character (alphabetic or
/// numeric in the Unicode sense).
pub uninterp spec fn unicode_alphanumeric(c: char) -> bool;

/// `char::is_alphanumeric`: whether the character is alphabetic or numeric
/// in the Unicode sense. Its answer is named; of ASCII characters it is
/// stated: the letters and digits are alphanumeric, no other is.
#[verifier::external_body]
fn char_is_alphanumeric(c: char) -> (b: bool)
    ensures
        b == unicode_alphanumeric(c),
        is_alnum(c) ==> b,
        (c as u32) < 128 && !is_alnum(c) ==> !b,
{
    c.is_alphanumeric()
}

/// The classes of characters that the grammars read in runs.
#[derive(Debug, Clone, Copy, PartialEq, Eq)]
pub enum CharClass {
    /// Space, tab, line feed and carriage return.
    Multispace,
    /// Space and tab.
    Space,
    /// Anything but a line feed.
    NotNewline,
    /// Unicode letters and digits, and the underscore.
    Word,
    /// ASCII letters and digits, and the underscore.
    Ident,
    /// ASCII decimal digits.
    Digit,
    /// Line feeds.
    Newline,
}

/// Whether a character belongs to a class.
pub open spec fn in_class(c: char, k: CharClass) -> bool {
    match k {
        CharClass::Multispace => c == ' ' || c == '\t' || c == '\n' || c == '\r',
        CharClass::Space => c == ' ' || c == '\t',
        CharClass::NotNewline => c != '\n',
        CharClass::Word => word_alphanumeric(c) || c == '_',
        CharClass::Ident => is_alnum(c) || c == '_',
        CharClass::Digit => is_digit(c),
        CharClass::Newline => c == '\n',
    }
}

/// Whether a character is a letter or a digit in the Unicode sense: for
/// ASCII characters, the ASCII letters and digits; for the others, what
/// `char::is_alphanumeric` answers.
pub open spec fn word_alphanumeric(c: char) -> bool {
    if (c as u32) < 128 { is_alnum(c) } else { unicode_alphanumeric(c) }
}

fn class_has(c: char, k: CharClass) -> (b: bool)
    ensures
        b == in_class(c, k),
{
    match k {
        CharClass::Multispace => c == ' ' || c == '\t' || c == '\n' || c == '\r',
        CharClass::Space => c == ' ' || c == '\t',
        CharClass::NotNewline => c != '\n',
        CharClass::Word => {
            let b = char_is_alphanumeric(c);
            assert(b == word_alphanumeric(c));
            b || c == '_'
        },
        CharClass::Ident => char_is_alnum(c) || c == '_',
        CharClass::Digit => char_is_digit(c),
        CharClass::Newline => c == '\n',
    }
}

/// The end of the longest run of characters of class `k` that starts at
/// `i`.
pub open spec fn run_end(s: Seq<char>, i: int, k: CharClass) -> int
    decreases s.len() - i,
{
    if 0 <= i < s.len() && in_class(s[i], k) {
        run_end(s, i + 1, k)
    } else {
        i
    }
}

/// The run from `i` to its end holds only characters of the class, and the
/// character after it, if any, is of another class.
pub proof fn lemma_run_end(s: Seq<char>, i: int, k: CharClass)
    requires
        0 <= i <= s.len(),
    ensures
        i <= run_end(s, i, k) <= s.len(),
        forall|j: int| i <= j < run_end(s, i, k) ==> in_class(#[trigger] s[j], k),
        run_end(s, i, k) < s.len() ==> !in_class(s[run_end(s, i, k)], k),
    decreases s.len() - i,
{
    if i < s.len() && in_class(s[i], k) {
        lemma_run_end(s, i + 1, k);
    }
}

/// Reads the run of class `k` that starts at `i`; returns its end.
pub fn scan_run(cs: &Vec<char>, i: usize, k: CharClass) -> (j: usize)
    requires
        i <= cs@.len(),
    ensures
        j == run_end(cs@, i as int, k),
        i <= j <= cs@.len(),
{
    let mut j: usize = i;
    while j < cs.len() && class_has(cs[j], k)
        invariant
            i <= j <= cs@.len(),
            run_end(cs@, j as int, k) == run_end(cs@, i as int, k),
        decreases cs@.len() - j,
    {
        j = j + 1;
    }
    j
}

/// Whether the text `t` stands at position `i`.
pub open spec fn has_tag(s: Seq<char>, i: int, t: Seq<char>) -> bool {
    0 <= i && i + t.len() <= s.len() && s.subrange(i, i + t.len()) == t
}

/// Whether the text `t` stands at position `i`.
pub fn at_tag(cs: &Vec<char>, i: usize, t: &str) -> (b: bool)
    ensures
        b == has_tag(cs@, i as int, t@),
{
    let tc = chars_of(t);
    let n = cs.len();
    if i > n || tc.len() > n - i {
        return false;
    }
    let mut k: usize = 0;
    while k < tc.len()
        invariant
            k <= tc@.len(),
            i + tc@.len() <= n,
            n == cs@.len(),
            tc@ == t@,
            forall|m: int| 0 <= m < k ==> cs@[i + m] == tc@[m],
        decreases tc@.len() - k,
    {
        if cs[i + k] != tc[k] {
            assert(cs@.subrange(i as int, i + tc@.len())[k as int] != t@[k as int]);
            return false;
        }
        k = k + 1;
    }
    assert(cs@.subrange(i as int, i + tc@.len()) =~= t@);
    true
}

/// The end of the whitespace run that starts at `i`.
pub open spec fn ws_end(s: Seq<char>, i: int) -> int {
    run_end(s, i, CharClass::Multispace)
}

/// The text `t` at `i`, then optional whitespace: the position after both.
pub open spec fn w_tag(s: Seq<char>, i: int, t: Seq<char>) -> Option<int> {
    if has_tag(s, i, t) { Some(ws_end(s, i + t.len())) } else { None }
}

/// Reads the text `t` at `i`, then optional whitespace.
pub fn scan_w_tag(cs: &Vec<char>, i: usize, t: &str) -> (r: Option<usize>)
    requires
        i <= cs@.len(),
    ensures
        r is Some <==> w_tag(cs@, i as int, t@) is Some,
        r matches Some(j) ==> w_tag(cs@, i as int, t@) == Some(j as int) && i + t@.len() <= j <= cs@.len(),
{
    if at_tag(cs, i, t) {
        assert(cs@.len() == cs.len());
        let j = scan_run(cs, i + t.unicode_len(), CharClass::Multispace);
        Some(j)
    } else {
        None
    }
}

/// The value of an ASCII decimal digit.
pub open spec fn digit_of(c: char) -> nat {
    if c == '0' { 0 } else if c == '1' { 1 } else if c == '2' { 2 } else if c == '3' { 3 }
    else if c == '4' { 4 } else if c == '5' { 5 } else if c == '6' { 6 } else if c == '7' { 7 }
    else if c == '8' { 8 } else { 9 }
}

pub(crate) fn digit_value(c: char) -> (d: usize)
    ensures
        d == digit_of(c),
{
    if c == '0' { 0 } else if c == '1' { 1 } else if c == '2' { 2 } else if c == '3' { 3 }
    else if c == '4' { 4 } else if c == '5' { 5 } else if c == '6' { 6 } else if c == '7' { 7 }
    else if c == '8' { 8 } else { 9 }
}

/// The number that a run of decimal digits denotes.
pub open spec fn digits_value(t: Seq<char>) -> nat
    decreases t.len(),
{
    if t.len() == 0 { 0 } else { digits_value(t.drop_last()) * 10 + digit_of(t.last()) }
}

/// A longer run of digits denotes at least as much.
pub proof fn lemma_digits_value_prefix(t: Seq<char>, k: int)
    requires
        0 <= k <= t.len(),
    ensures
        digits_value(t.take(k)) <= digits_value(t),
    decreases t.len() - k,
{
    if k < t.len() {
        lemma_digits_value_prefix(t, k + 1);
        assert(t.take(k + 1).drop_last() =~= t.take(k));
    } else {
        assert(t.take(k) =~= t);
    }
}

/// The decimal number at `i`: its value and end, when there is at least one
/// digit.
pub open spec fn number_at(s: Seq<char>, i: int) -> Option<(nat, int)> {
    let j = run_end(s, i, CharClass::Digit);
    if j == i { None } else { Some((digits_value(s.subrange(i, j)), j)) }
}

/// The decimal number at `i` when it fits in a `usize`: no match where
/// there is no digit or the number is too large.
pub open spec fn usize_at(s: Seq<char>, i: int) -> Option<(nat, int)> {
    match number_at(s, i) {
        Some((v, j)) => if v <= usize::MAX { Some((v, j)) } else { None },
        None => None,
    }
}

/// Reads the decimal number at `i`; fails where there is no digit or the
/// number does not fit in a `usize`.
#[verifier::loop_isolation(false)]
pub fn scan_number(cs: &Vec<char>, i: usize) -> (r: Option<(usize, usize)>)
    requires
        i <= cs@.len(),
    ensures
        r is Some <==> (number_at(cs@, i as int) matches Some((v, _)) && v <= usize::MAX),
        r matches Some((v, j)) ==> number_at(cs@, i as int) == Some((v as nat, j as int)) && i < j <= cs@.len(),
{
    let j = scan_run(cs, i, CharClass::Digit);
    if j == i {
        return None;
    }
    proof { lemma_run_end(cs@, i as int, CharClass::Digit); }
    let ghost t = cs@.subrange(i as int, j as int);
    let mut v: usize = 0;
    let mut k: usize = i;
    while k < j
        invariant
            i <= k <= j <= cs@.len(),
            t == cs@.subrange(i as int, j as int),
            v == digits_value(t.take(k - i)),
            forall|m: int| i <= m < j ==> in_class(#[trigger] cs@[m], CharClass::Digit),
        decreases j - k,
    {
        proof {
            assert(t.take(k + 1 - i).drop_last() =~= t.take(k - i));
            assert(t.take(k + 1 - i).last() == cs@[k as int]);
        }
        let d = digit_value(cs[k]);
        assert(digits_value(t.take(k + 1 - i)) == v * 10 + d);
        match v.checked_mul(10) {
            None => {
                proof {
                    lemma_digits_value_prefix(t, k + 1 - i);
                    assert(digits_value(t) > usize::MAX);
                }
                return None;
            },
            Some(v10) => match v10.checked_add(d) {
                None => {
                    proof { lemma_digits_value_prefix(t, k + 1 - i); }
                    return None;
                },
                Some(nv) => {
                    v = nv;
                },
            },
        }
        k = k + 1;
    }
    assert(t.take(j - i) =~= t);
    Some((v, j))
}

/// Whether a digit stands at `i`.
pub open spec fn digit_at(s: Seq<char>, i: int) -> bool {
    0 <= i < s.len() && is_digit(s[i])
}

/// Whether the character `c` stands at `i`.
pub open spec fn char_at(s: Seq<char>, i: int, c: char) -> bool {
    0 <= i < s.len() && s[i] == c
}

/// The end of the mantissa of a decimal literal whose sign, if any, ends at
/// `p`: digits with an optional fraction, or a point and digits.
pub open spec fn mantissa_end(s: Seq<char>, p: int) -> Option<int> {
    if digit_at(s, p) {
        let q = run_end(s, p, CharClass::Digit);
        if char_at(s, q, '.') { Some(run_end(s, q + 1, CharClass::Digit)) } else { Some(q) }
    } else if char_at(s, p, '.') && digit_at(s, p + 1) {
        Some(run_end(s, p + 1, CharClass::Digit))
    } else {
        None
    }
}

/// The end of the decimal literal at `i`: an optional sign, a mantissa, and
/// an optional exponent, which must hold a digit once `e` or `E` is there.
pub open spec fn float_end(s: Seq<char>, i: int) -> Option<int> {
    let p = if char_at(s, i, '+') || char_at(s, i, '-') { i + 1 } else { i };
    match mantissa_end(s, p) {
        None => None,
        Some(m) => if char_at(s, m, 'e') || char_at(s, m, 'E') {
            let r = if char_at(s, m + 1, '+') || char_at(s, m + 1, '-') { m + 2 } else { m + 1 };
            if digit_at(s, r) { Some(run_end(s, r, CharClass::Digit)) } else { None }
        } else {
            Some(m)
        },
    }
}

/// Whether a decimal literal denotes a positive number: no minus sign, and
/// a digit other than zero before any exponent.
pub open spec fn is_positive_float(t: Seq<char>) -> bool {
    &&& !(t.len() > 0 && t[0] == '-')
    &&& exists|k: int| 0 <= k < t.len() && is_digit(#[trigger] t[k]) && t[k] != '0'
        && forall|j: int| 0 <= j < k ==> t[j] != 'e' && t[j] != 'E'
}

fn char_is(cs: &Vec<char>, i: usize, c: char) -> (b: bool)
    ensures
        b == char_at(cs@, i as int, c),
{
    i < cs.len() && cs[i] == c
}

fn digit_is_at(cs: &Vec<char>, i: usize) -> (b: bool)
    ensures
        b == digit_at(cs@, i as int),
{
    i < cs.len() && char_is_digit(cs[i])
}

/// Reads the decimal literal at `i`; returns its end.
pub fn scan_float(cs: &Vec<char>, i: usize) -> (r: Option<usize>)
    requires
        i <= cs@.len(),
    ensures
        match float_end(cs@, i as int) {
            Some(j) => r == Some(j as usize) && i < j <= cs@.len(),
            None => r is None,
        },
{
    assert(cs@.len() == cs.len());
    let p = if char_is(cs, i, '+') || char_is(cs, i, '-') { i + 1 } else { i };
    let m = if digit_is_at(cs, p) {
        let q = scan_run(cs, p, CharClass::Digit);
        proof { lemma_run_end(cs@, p + 1, CharClass::Digit); }
        if char_is(cs, q, '.') {
            scan_run(cs, q + 1, CharClass::Digit)
        } else {
            q
        }
    } else if char_is(cs, p, '.') && digit_is_at(cs, p + 1) {
        proof { lemma_run_end(cs@, p + 2, CharClass::Digit); }
        scan_run(cs, p + 1, CharClass::Digit)
    } else {
        return None;
    };
    if char_is(cs, m, 'e') || char_is(cs, m, 'E') {
        let r = if char_is(cs, m + 1, '+') || char_is(cs, m + 1, '-') { m + 2 } else { m + 1 };
        if digit_is_at(cs, r) {
            proof { lemma_run_end(cs@, r + 1, CharClass::Digit); }
            Some(scan_run(cs, r, CharClass::Digit))
        } else {
            None
        }
    } else {
        Some(m)
    }
}

/// Whether the characters form one decimal literal of a positive number.
#[verifier::loop_isolation(false)]
pub fn literal_is_positive(cs: &Vec<char>) -> (b: bool)
    ensures
        b == (float_end(cs@, 0) == Some(cs@.len() as int) && is_positive_float(cs@)),
{
    match scan_float(cs, 0) {
        None => false,
        Some(j) => {
            if j != cs.len() {
                return false;
            }
            assert(float_end(cs@, 0) == Some(cs@.len() as int));
            if cs.len() > 0 && cs[0] == '-' {
                return false;
            }
            let mut k: usize = 0;
            while k < cs.len()
                invariant
                    k <= cs@.len(),
                    forall|a: int| 0 <= a < k ==> !(is_digit(#[trigger] cs@[a]) && cs@[a] != '0'),
                    forall|a: int| 0 <= a < k ==> cs@[a] != 'e' && cs@[a] != 'E',
                decreases cs@.len() - k,
            {
                if char_is_digit(cs[k]) && cs[k] != '0' {
                    assert(is_positive_float(cs@)) by {
                        assert(is_digit(cs@[k as int]) && cs@[k as int] != '0');
                    }
                    return true;
                }
                if cs[k] == 'e' || cs[k] == 'E' {
                    assert(!is_positive_float(cs@)) by {
                        if is_positive_float(cs@) {
                            let w = choose|w: int| 0 <= w < cs@.len() && is_digit(#[trigger] cs@[w]) && cs@[w] != '0'
                                && forall|j: int| 0 <= j < w ==> cs@[j] != 'e' && cs@[j] != 'E';
                            if w > k {
                                assert(cs@[k as int] == 'e' || cs@[k as int] == 'E');
                            }
                        }
                    }
                    return false;
                }
                k = k + 1;
            }
            false
        },
    }
}

} // verus!
