//! The numbers that decimal literals denote, and whether two literals
//! denote the same number.
//!
//! A literal is an optional sign, a mantissa (digits with an optional
//! fraction, or a point and digits) and an optional exponent. It denotes
//! the number of its mantissa digits, read as a whole number, times ten to
//! the power of its exponent less the number of fraction digits. Two
//! literals denote the same number exactly when their significant digits
//! (the mantissa digits without leading and trailing zeros) denote the same
//! whole number and the power of ten of their last significant digit is the
//! same, or when neither has a significant digit.

use vstd::prelude::*;
use crate::scan::{digit_of, digits_value, lemma_run_end, run_end, scan_run, CharClass};
use crate::text::chars_of;

verus! {

/// Ten to a power.
pub open spec fn pow10(n: nat) -> nat
    decreases n,
{
    if n == 0 { 1 } else { 10 * pow10((n - 1) as nat) }
}

/// The end of the sign of a literal.
pub open spec fn lit_sign_end(t: Seq<char>) -> int {
    if t.len() > 0 && (t[0] == '+' || t[0] == '-') { 1 } else { 0 }
}

/// The end of the whole part of the mantissa.
pub open spec fn lit_int_end(t: Seq<char>) -> int {
    run_end(t, lit_sign_end(t), CharClass::Digit)
}

/// The end of the mantissa.
pub open spec fn lit_mant_end(t: Seq<char>) -> int {
    let q = lit_int_end(t);
    if q < t.len() && t[q] == '.' { run_end(t, q + 1, CharClass::Digit) } else { q }
}

/// The fraction digits of the mantissa.
pub open spec fn lit_fraction(t: Seq<char>) -> Seq<char> {
    let q = lit_int_end(t);
    let r = lit_mant_end(t);
    if r > q { t.subrange(q + 1, r) } else { Seq::empty() }
}

/// The digits of the mantissa, the point left out.
pub open spec fn lit_mantissa(t: Seq<char>) -> Seq<char> {
    t.subrange(lit_sign_end(t), lit_int_end(t)) + lit_fraction(t)
}

/// Whether the exponent is there.
pub open spec fn lit_has_exp(t: Seq<char>) -> bool {
    let r = lit_mant_end(t);
    r < t.len() && (t[r] == 'e' || t[r] == 'E')
}

/// Whether the exponent is negative.
pub open spec fn lit_exp_negative(t: Seq<char>) -> bool {
    let p = lit_mant_end(t) + 1;
    lit_has_exp(t) && p < t.len() && t[p] == '-'
}

/// The digits of the exponent, empty where there is none.
pub open spec fn lit_exp_digits(t: Seq<char>) -> Seq<char> {
    let p = lit_mant_end(t) + 1;
    let d = if p < t.len() && (t[p] == '+' || t[p] == '-') { p + 1 } else { p };
    if lit_has_exp(t) { t.subrange(d, run_end(t, d, CharClass::Digit)) } else { Seq::empty() }
}

/// The exponent.
pub open spec fn lit_exponent(t: Seq<char>) -> int {
    if lit_exp_negative(t) { -(digits_value(lit_exp_digits(t)) as int) } else { digits_value(lit_exp_digits(t)) as int }
}

/// The end of the zeros from `i` on.
pub open spec fn zeros_from(m: Seq<char>, i: int) -> int
    decreases m.len() - i,
{
    if 0 <= i < m.len() && m[i] == '0' { zeros_from(m, i + 1) } else { i }
}

/// The start of the zeros that end at `j`.
pub open spec fn zeros_before(m: Seq<char>, j: int) -> int
    decreases j,
{
    if 0 < j <= m.len() && m[j - 1] == '0' { zeros_before(m, j - 1) } else { j }
}

/// The number a literal denotes, as its significant digits read as a whole
/// number and the power of ten of its last significant digit; `(0, 0)`
/// where it has no significant digit.
pub open spec fn real_key(t: Seq<char>) -> (nat, int) {
    let m = lit_mantissa(t);
    let a = zeros_from(m, 0);
    let b = zeros_before(m, m.len() as int);
    if a >= b {
        (0, 0)
    } else {
        (digits_value(m.subrange(a, b)), lit_exponent(t) - lit_fraction(t).len() + (m.len() - b))
    }
}

/// Whether two literals denote the same number.
pub open spec fn real_eq(a: Seq<char>, b: Seq<char>) -> bool {
    real_key(a) == real_key(b)
}

// ---------------------------------------------------------------------
// Facts about the value of digits.

/// The digits of a text followed by more digits.
pub proof fn lemma_digits_append(a: Seq<char>, b: Seq<char>)
    ensures
        digits_value(a + b) == digits_value(a) * pow10(b.len()) + digits_value(b),
    decreases b.len(),
{
    if b.len() == 0 {
        assert(a + b =~= a);
        assert(pow10(0) == 1);
        assert(digits_value(b) == 0);
        assert(digits_value(a) * 1 == digits_value(a));
    } else {
        let b1 = b.drop_last();
        assert((a + b).drop_last() =~= a + b1);
        assert((a + b).last() == b.last());
        lemma_digits_append(a, b1);
        let x = digits_value(a);
        let p = pow10(b1.len());
        let y = digits_value(b1);
        let d = digit_of(b.last());
        assert(digits_value(a + b) == digits_value(a + b1) * 10 + d);
        assert(digits_value(b) == y * 10 + d);
        assert(pow10(b.len()) == 10 * p);
        assert((x * p + y) * 10 + d == x * (10 * p) + (y * 10 + d)) by (nonlinear_arith);
        assert(digits_value(a + b) == x * pow10(b.len()) + digits_value(b));
    }
}

/// Digits denote less than ten to the power of their number.
pub proof fn lemma_digits_bound(t: Seq<char>)
    ensures
        digits_value(t) < pow10(t.len()),
    decreases t.len(),
{
    if t.len() > 0 {
        lemma_digits_bound(t.drop_last());
        assert(digit_of(t.last()) <= 9);
    }
}

/// A significant last digit makes a positive number.
proof fn lemma_digits_positive(t: Seq<char>)
    requires
        t.len() > 0,
        t.last() != '0',
    ensures
        digits_value(t) > 0,
{
}

// ---------------------------------------------------------------------
// Deciding sums and differences of digit runs.

/// The bound below which differences are followed exactly.
pub const DIFF_BOUND: i128 = 0x4_0000_0000_0000_0000;

/// Zeros before digits do not change their value.
fn padded(a: &Vec<char>, n: usize) -> (r: Vec<char>)
    requires
        a@.len() <= n,
    ensures
        r@.len() == n,
        digits_value(r@) == digits_value(a@),
{
    let mut r: Vec<char> = Vec::new();
    let k = n - a.len();
    let mut i: usize = 0;
    while i < k
        invariant
            i <= k,
            k == n - a@.len(),
            r@.len() == i,
            digits_value(r@) == 0,
        decreases k - i,
    {
        let ghost before = r@;
        r.push('0');
        assert(r@.drop_last() =~= before);
        i = i + 1;
    }
    let ghost z = r@;
    let mut j: usize = 0;
    while j < a.len()
        invariant
            j <= a@.len(),
            r@ == z + a@.take(j as int),
        decreases a@.len() - j,
    {
        r.push(a[j]);
        assert(r@ =~= z + a@.take(j + 1));
        j = j + 1;
    }
    assert(a@.take(a@.len() as int) =~= a@);
    proof { lemma_digits_append(z, a@); }
    r
}

/// Whether the digits of `a` less those of `b` make `c`.
#[verifier::loop_isolation(false)]
fn diff_is(a: &Vec<char>, b: &Vec<char>, c: i128) -> (r: bool)
    requires
        -DIFF_BOUND <= c <= DIFF_BOUND,
    ensures
        r == (digits_value(a@) - digits_value(b@) == c),
{
    let n = if a.len() > b.len() { a.len() } else { b.len() };
    let pa = padded(a, n);
    let pb = padded(b, n);
    let mut d: i128 = 0;
    let mut i: usize = 0;
    assert(pa@.take(0) =~= Seq::<char>::empty());
    assert(pb@.take(0) =~= Seq::<char>::empty());
    while i < n
        invariant
            i <= n,
            pa@.len() == n,
            pb@.len() == n,
            d == digits_value(pa@.take(i as int)) - digits_value(pb@.take(i as int)),
            -DIFF_BOUND <= d <= DIFF_BOUND,
        decreases n - i,
    {
        let x = crate::scan::digit_value(pa[i]) as i128;
        let y = crate::scan::digit_value(pb[i]) as i128;
        proof {
            assert(pa@.take(i + 1).drop_last() =~= pa@.take(i as int));
            assert(pb@.take(i + 1).drop_last() =~= pb@.take(i as int));
        }
        d = d * 10 + x - y;
        i = i + 1;
        if d > DIFF_BOUND || d < -DIFF_BOUND {
            proof {
                let ta = pa@.take(i as int);
                let tb = pb@.take(i as int);
                let ra = pa@.skip(i as int);
                let rb = pb@.skip(i as int);
                assert(ta + ra =~= pa@);
                assert(tb + rb =~= pb@);
                lemma_digits_append(ta, ra);
                lemma_digits_append(tb, rb);
                lemma_digits_bound(ra);
                lemma_digits_bound(rb);
                let p = pow10(ra.len()) as int;
                let u = digits_value(ra) as int;
                let v = digits_value(rb) as int;
                assert(rb.len() == ra.len());
                assert(p >= 1) by { lemma_pow10_positive(ra.len()); }
                let dd = d as int;
                assert(dd * p + u - v != c) by (nonlinear_arith)
                    requires
                        dd > DIFF_BOUND || dd < -DIFF_BOUND,
                        -DIFF_BOUND <= c <= DIFF_BOUND,
                        p >= 1,
                        0 <= u < p,
                        0 <= v < p;
                assert(digits_value(pa@) - digits_value(pb@) == dd * p + u - v) by (nonlinear_arith)
                    requires
                        digits_value(pa@) == digits_value(ta) * p + u,
                        digits_value(pb@) == digits_value(tb) * p + v,
                        dd == digits_value(ta) - digits_value(tb);
            }
            return false;
        }
    }
    assert(pa@.take(n as int) =~= pa@);
    assert(pb@.take(n as int) =~= pb@);
    d == c
}

/// Ten to a power is at least one.
pub proof fn lemma_pow10_positive(n: nat)
    ensures
        pow10(n) >= 1,
    decreases n,
{
    if n > 0 {
        lemma_pow10_positive((n - 1) as nat);
    }
}

/// The value of digits where it is at most `bound`.
#[verifier::loop_isolation(false)]
fn value_upto(a: &Vec<char>, bound: u128) -> (r: Option<u128>)
    requires
        bound <= DIFF_BOUND,
    ensures
        r matches Some(v) ==> v == digits_value(a@) && v <= bound,
        r is None ==> digits_value(a@) > bound,
{
    let mut v: u128 = 0;
    let mut i: usize = 0;
    assert(a@.take(0) =~= Seq::<char>::empty());
    while i < a.len()
        invariant
            i <= a@.len(),
            v == digits_value(a@.take(i as int)),
            v <= bound,
        decreases a@.len() - i,
    {
        proof { assert(a@.take(i + 1).drop_last() =~= a@.take(i as int)); }
        let x = crate::scan::digit_value(a[i]) as u128;
        let w = v * 10 + x;
        if w > bound {
            proof { crate::scan::lemma_digits_value_prefix(a@, i + 1); }
            return None;
        }
        v = w;
        i = i + 1;
    }
    assert(a@.take(a@.len() as int) =~= a@);
    Some(v)
}

/// Whether the digits of `a` and of `b` add up to `c`.
fn sum_is(a: &Vec<char>, b: &Vec<char>, c: i128) -> (r: bool)
    requires
        -DIFF_BOUND <= c <= DIFF_BOUND,
    ensures
        r == (digits_value(a@) + digits_value(b@) == c),
{
    if c < 0 {
        return false;
    }
    let bound = c as u128;
    match (value_upto(a, bound), value_upto(b, bound)) {
        (Some(x), Some(y)) => x + y == bound,
        _ => false,
    }
}

// ---------------------------------------------------------------------
// The parts of a literal.

fn char_is(cs: &Vec<char>, i: usize, c: char) -> (b: bool)
    ensures
        b == (i < cs@.len() && cs@[i as int] == c),
{
    i < cs.len() && cs[i] == c
}

fn slice_of(cs: &Vec<char>, a: usize, b: usize) -> (v: Vec<char>)
    requires
        a <= b <= cs@.len(),
    ensures
        v@ == cs@.subrange(a as int, b as int),
{
    let mut v: Vec<char> = Vec::new();
    let mut i: usize = a;
    while i < b
        invariant
            a <= i <= b,
            b <= cs@.len(),
            v@ == cs@.subrange(a as int, i as int),
        decreases b - i,
    {
        v.push(cs[i]);
        assert(v@ =~= cs@.subrange(a as int, i + 1));
        i = i + 1;
    }
    v
}

/// The mantissa digits, the number of fraction digits, whether the
/// exponent is negative, and the exponent digits of a literal.
fn literal_parts(cs: &Vec<char>) -> (r: (Vec<char>, usize, bool, Vec<char>))
    ensures
        r.0@ == lit_mantissa(cs@),
        r.1 == lit_fraction(cs@).len(),
        r.2 == lit_exp_negative(cs@),
        r.3@ == lit_exp_digits(cs@),
{
    assert(cs@.len() == cs.len());
    let s: usize = if char_is(cs, 0, '+') || char_is(cs, 0, '-') { 1 } else { 0 };
    assert(s == lit_sign_end(cs@));
    proof { lemma_run_end(cs@, s as int, CharClass::Digit); }
    let q = scan_run(cs, s, CharClass::Digit);
    let r: usize = if char_is(cs, q, '.') {
        assert(q < cs@.len());
        proof { lemma_run_end(cs@, q + 1, CharClass::Digit); }
        scan_run(cs, q + 1, CharClass::Digit)
    } else {
        q
    };
    let whole = slice_of(cs, s, q);
    let frac = if r > q { slice_of(cs, q + 1, r) } else { Vec::new() };
    assert(frac@ == lit_fraction(cs@));
    let f = frac.len();
    let mut mant = whole;
    let ghost w0 = mant@;
    let mut j: usize = 0;
    while j < frac.len()
        invariant
            j <= frac@.len(),
            mant@ == w0 + frac@.take(j as int),
        decreases frac@.len() - j,
    {
        mant.push(frac[j]);
        assert(mant@ =~= w0 + frac@.take(j + 1));
        j = j + 1;
    }
    assert(frac@.take(frac@.len() as int) =~= frac@);
    let has_exp = char_is(cs, r, 'e') || char_is(cs, r, 'E');
    let neg = has_exp && char_is(cs, r + 1, '-');
    let x = if has_exp {
        let p = r + 1;
        let d: usize = if char_is(cs, p, '+') || char_is(cs, p, '-') { p + 1 } else { p };
        proof { lemma_run_end(cs@, d as int, CharClass::Digit); }
        let e = scan_run(cs, d, CharClass::Digit);
        slice_of(cs, d, e)
    } else {
        Vec::new()
    };
    (mant, f, neg, x)
}

/// The end of the zeros from the start.
fn leading_zeros_end(m: &Vec<char>) -> (a: usize)
    ensures
        a == zeros_from(m@, 0),
        a <= m@.len(),
{
    let mut i: usize = 0;
    while i < m.len() && m[i] == '0'
        invariant
            i <= m@.len(),
            zeros_from(m@, 0) == zeros_from(m@, i as int),
        decreases m@.len() - i,
    {
        i = i + 1;
    }
    i
}

/// The start of the zeros at the end.
fn trailing_zeros_start(m: &Vec<char>) -> (b: usize)
    ensures
        b == zeros_before(m@, m@.len() as int),
        b <= m@.len(),
        b > 0 ==> m@[b - 1] != '0',
{
    let mut j: usize = m.len();
    while j > 0 && m[j - 1] == '0'
        invariant
            j <= m@.len(),
            zeros_before(m@, m@.len() as int) == zeros_before(m@, j as int),
        decreases j,
    {
        j = j - 1;
    }
    j
}

/// Whether two literals denote the same number.
#[verifier::loop_isolation(false)]
pub fn same_number(x: &str, y: &str) -> (r: bool)
    ensures
        r == real_eq(x@, y@),
{
    let cx = chars_of(x);
    let cy = chars_of(y);
    let (m1, f1, n1, e1) = literal_parts(&cx);
    let (m2, f2, n2, e2) = literal_parts(&cy);
    let a1 = leading_zeros_end(&m1);
    let b1 = trailing_zeros_start(&m1);
    let a2 = leading_zeros_end(&m2);
    let b2 = trailing_zeros_start(&m2);
    if a1 >= b1 || a2 >= b2 {
        proof {
            if a1 < b1 {
                lemma_digits_positive(m1@.subrange(a1 as int, b1 as int));
            }
            if a2 < b2 {
                lemma_digits_positive(m2@.subrange(a2 as int, b2 as int));
            }
        }
        return a1 >= b1 && a2 >= b2;
    }
    let d1 = slice_of(&m1, a1, b1);
    let d2 = slice_of(&m2, a2, b2);
    if !diff_is(&d1, &d2, 0) {
        return false;
    }
    let k1: i128 = (m1.len() - b1) as i128 - f1 as i128;
    let k2: i128 = (m2.len() - b2) as i128 - f2 as i128;
    assert(-DIFF_BOUND <= k2 - k1 <= DIFF_BOUND);
    let c: i128 = k2 - k1;
    if !n1 && !n2 {
        diff_is(&e1, &e2, c)
    } else if n1 && n2 {
        diff_is(&e2, &e1, c)
    } else if !n1 && n2 {
        sum_is(&e1, &e2, c)
    } else {
        sum_is(&e1, &e2, -c)
    }
}

} // verus!
