//! Fixed-point numbers, their decimal text, and a fixed-point base-2 logarithm.
//!
//! Every fractional quantity of the library (probabilities, confidences,
//! priorities, thresholds) is a `u64` counted in millionths: the value `v`
//! stands for the real number `v / UNIT`.
use vstd::prelude::*;

verus! {

/// The fixed-point representation of 1.0.
pub const UNIT: u64 = 1_000_000;

/// The scale of `log2_scaled`: a result `r` stands for `r / LOG_ONE`.
pub const LOG_ONE: u64 = 65536;

/// Number of binary fraction digits that `log2_scaled` computes.
pub const LOG_FRAC_DIGITS: u64 = 16;

/// The ASCII digit for `d < 10`.
pub open spec fn digit_char(d: nat) -> char {
    if d == 0 { '0' }
    else if d == 1 { '1' }
    else if d == 2 { '2' }
    else if d == 3 { '3' }
    else if d == 4 { '4' }
    else if d == 5 { '5' }
    else if d == 6 { '6' }
    else if d == 7 { '7' }
    else if d == 8 { '8' }
    else { '9' }
}

/// Decimal text of a natural number, without leading zeros.
pub open spec fn decimal(n: nat) -> Seq<char>
    decreases n,
{
    if n < 10 {
        seq![digit_char(n)]
    } else {
        decimal(n / 10).push(digit_char(n % 10))
    }
}

/// `n` rounded to the nearest hundredth of a unit (halves round up), as a
/// count of hundredths.
pub open spec fn hundredths(n: nat) -> nat {
    (n + 5000) / 10000
}

/// Decimal text of the fixed-point value `n` with exactly two fraction digits.
pub open spec fn decimal_2(n: nat) -> Seq<char> {
    let h = hundredths(n);
    decimal(h / 100) + seq!['.', digit_char((h % 100) / 10), digit_char(h % 10)]
}

/// Relies on `String::push`: appends one character.
#[verifier::external_body]
pub(crate) fn push_char(s: &mut String, c: char)
    ensures
        final(s)@ == old(s)@.push(c),
{
    s.push(c)
}

fn digit_of(d: u128) -> (c: char)
    requires
        d < 10,
    ensures
        c == digit_char(d as nat),
{
    if d == 0 { '0' }
    else if d == 1 { '1' }
    else if d == 2 { '2' }
    else if d == 3 { '3' }
    else if d == 4 { '4' }
    else if d == 5 { '5' }
    else if d == 6 { '6' }
    else if d == 7 { '7' }
    else if d == 8 { '8' }
    else { '9' }
}

/// Appends the decimal text of `n` to `s`.
pub fn push_decimal(s: &mut String, n: u128)
    ensures
        final(s)@ == old(s)@ + decimal(n as nat),
    decreases n,
{
    if n < 10 {
        push_char(s, digit_of(n));
        assert(decimal(n as nat) =~= seq![digit_char(n as nat)]);
    } else {
        push_decimal(s, n / 10);
        push_char(s, digit_of(n % 10));
        assert(decimal(n as nat) == decimal((n / 10) as nat).push(digit_char((n % 10) as nat)));
    }
}

/// Appends the fixed-point value `n` with two fraction digits to `s`.
pub fn push_decimal_2(s: &mut String, n: u128)
    ensures
        final(s)@ == old(s)@ + decimal_2(n as nat),
{
    let h: u128 = n / 10000 + (n % 10000 + 5000) / 10000;
    assert(h == hundredths(n as nat)) by {
        assert(n as nat == (n / 10000) * 10000 + n % 10000);
    }
    push_decimal(s, h / 100);
    push_char(s, '.');
    push_char(s, digit_of((h % 100) / 10));
    push_char(s, digit_of(h % 10));
    assert(final(s)@ =~= old(s)@ + decimal_2(n as nat));
}

/// Splits `m >= LOG_ONE` into a mantissa in `[LOG_ONE, 2 * LOG_ONE)` and the
/// number of halvings that brought `m` there.
pub open spec fn normalize(m: nat) -> (nat, nat)
    decreases m,
{
    if m < 2 * LOG_ONE {
        (m, 0)
    } else {
        let p = normalize(m / 2);
        (p.0, p.1 + 1)
    }
}

/// The binary fraction digits of log2 of the mantissa `m / LOG_ONE`, found by
/// repeated squaring: each squaring that reaches 2 gives the digit 1 and is
/// halved. `acc` holds the digits found so far, most significant first.
pub open spec fn log_digits(m: nat, k: nat, acc: nat) -> nat
    decreases k,
{
    if k == 0 {
        acc
    } else {
        let sq = m * m / (LOG_ONE as nat);
        if sq >= 2 * LOG_ONE {
            log_digits(sq / 2, (k - 1) as nat, 2 * acc + 1)
        } else {
            log_digits(sq, (k - 1) as nat, 2 * acc)
        }
    }
}

/// Base-2 logarithm of `x >= 1`, truncated to `LOG_FRAC_DIGITS` binary digits
/// and scaled by `LOG_ONE`.
pub open spec fn log2_scaled(x: nat) -> nat {
    let p = normalize(x * (LOG_ONE as nat));
    p.1 * (LOG_ONE as nat) + log_digits(p.0, LOG_FRAC_DIGITS as nat, 0)
}

/// `2^k * 2 * LOG_ONE`.
spec fn normalize_bound(k: nat) -> nat
    decreases k,
{
    if k == 0 { 2 * (LOG_ONE as nat) } else { 2 * normalize_bound((k - 1) as nat) }
}

/// `2^k`.
spec fn pow2(k: nat) -> nat
    decreases k,
{
    if k == 0 { 1 } else { 2 * pow2((k - 1) as nat) }
}

proof fn lemma_normalize(m: nat, k: nat)
    requires
        LOG_ONE <= m < normalize_bound(k),
    ensures
        LOG_ONE <= normalize(m).0 < 2 * LOG_ONE,
        normalize(m).1 <= k,
    decreases m,
{
    if m >= 2 * LOG_ONE {
        assert(k > 0);
        lemma_normalize(m / 2, (k - 1) as nat);
    }
}

proof fn lemma_pow2_monotone(i: nat, j: nat)
    requires
        i <= j,
    ensures
        pow2(i) <= pow2(j),
    decreases j,
{
    if i < j {
        lemma_pow2_monotone(i, (j - 1) as nat);
    }
}

proof fn lemma_log_digits_bound(m: nat, k: nat, acc: nat)
    ensures
        log_digits(m, k, acc) < (acc + 1) * pow2(k),
    decreases k,
{
    if k > 0 {
        let sq = m * m / (LOG_ONE as nat);
        let k1 = (k - 1) as nat;
        let p = pow2(k1);
        assert(pow2(k) == 2 * p);
        if sq >= 2 * LOG_ONE {
            lemma_log_digits_bound(sq / 2, k1, 2 * acc + 1);
            assert(log_digits(m, k, acc) == log_digits(sq / 2, k1, 2 * acc + 1));
            assert((2 * acc + 1 + 1) * p == (acc + 1) * (2 * p)) by (nonlinear_arith);
        } else {
            lemma_log_digits_bound(sq, k1, 2 * acc);
            assert(log_digits(m, k, acc) == log_digits(sq, k1, 2 * acc));
            assert((2 * acc + 1) * p <= (acc + 1) * (2 * p)) by (nonlinear_arith);
        }
    } else {
        assert(log_digits(m, 0, acc) == acc);
        assert((acc + 1) * pow2(k) == acc + 1) by (nonlinear_arith)
            requires
                pow2(k) == 1,
        ;
    }
}

/// Bounds of the scaled logarithm: at least one unit from 2 on, and below
/// 65 units on every `u64`.
pub proof fn lemma_log2_scaled_bounds(x: nat)
    requires
        1 <= x <= u64::MAX,
    ensures
        log2_scaled(x) < 65 * LOG_ONE,
        x >= 2 ==> log2_scaled(x) >= LOG_ONE,
{
    reveal_with_fuel(normalize_bound, 65);
    reveal_with_fuel(pow2, 17);
    assert(x * LOG_ONE < normalize_bound(64)) by (nonlinear_arith)
        requires
            x <= u64::MAX,
            normalize_bound(64) == 2 * LOG_ONE * 0x1_0000_0000_0000_0000,
    ;
    assert(x * LOG_ONE >= LOG_ONE) by (nonlinear_arith)
        requires
            x >= 1,
    ;
    lemma_normalize(x * (LOG_ONE as nat), 64);
    let p = normalize(x * (LOG_ONE as nat));
    lemma_log_digits_bound(p.0, LOG_FRAC_DIGITS as nat, 0);
    assert(pow2(16) == 65536);
    assert((0 + 1) * pow2(LOG_FRAC_DIGITS as nat) == 65536);
    assert(p.1 * (LOG_ONE as nat) <= 64 * (LOG_ONE as nat)) by (nonlinear_arith)
        requires
            p.1 <= 64,
    ;
    if x >= 2 {
        assert(x * LOG_ONE >= 2 * LOG_ONE) by (nonlinear_arith)
            requires
                x >= 2,
        ;
    }
}

/// Base-2 logarithm of `x`, scaled by `LOG_ONE` and truncated.
pub fn log2_fixed(x: u64) -> (r: u64)
    requires
        x >= 1,
    ensures
        r == log2_scaled(x as nat),
        r < 65 * LOG_ONE,
{
    proof {
        lemma_log2_scaled_bounds(x as nat);
        reveal_with_fuel(normalize_bound, 65);
    }
    let ghost top = (x as nat) * (LOG_ONE as nat);
    let mut m: u128 = x as u128 * LOG_ONE as u128;
    let mut e: u64 = 0;
    proof {
        lemma_normalize(top, 64);
    }
    while m >= 2 * LOG_ONE as u128
        invariant
            LOG_ONE <= m <= top,
            normalize(m as nat).0 == normalize(top).0,
            normalize(m as nat).1 + e == normalize(top).1,
            normalize(top).1 <= 64,
        decreases m,
    {
        m = m / 2;
        e = e + 1;
    }
    let mut acc: u64 = 0;
    let mut k: u64 = 0;
    proof {
        reveal_with_fuel(pow2, 17);
    }
    while k < LOG_FRAC_DIGITS
        invariant
            LOG_ONE <= m < 2 * LOG_ONE,
            k <= LOG_FRAC_DIGITS,
            acc < pow2(k as nat),
            pow2(16) == LOG_ONE,
            log_digits(m as nat, (LOG_FRAC_DIGITS - k) as nat, acc as nat)
                == log_digits(normalize(top).0, LOG_FRAC_DIGITS as nat, 0),
        decreases LOG_FRAC_DIGITS - k,
    {
        assert(m * m >= LOG_ONE * LOG_ONE) by (nonlinear_arith)
            requires
                m >= LOG_ONE,
        ;
        assert(m * m < 4 * LOG_ONE * LOG_ONE) by (nonlinear_arith)
            requires
                m < 2 * LOG_ONE,
        ;
        let sq: u128 = m * m / LOG_ONE as u128;
        assert(pow2((k + 1) as nat) == 2 * pow2(k as nat));
        proof {
            lemma_pow2_monotone((k + 1) as nat, 16);
        }
        if sq >= 2 * LOG_ONE as u128 {
            m = sq / 2;
            acc = 2 * acc + 1;
        } else {
            m = sq;
            acc = 2 * acc;
        }
        k = k + 1;
    }
    e * LOG_ONE + acc
}

/// `e^-1` in fixed point, rounded down.
pub const EXP_NEG_ONE: u64 = 367_879;

/// Number of terms after the first of the series for `e^f`.
pub const EXP_TERMS: u64 = 12;

/// The remaining terms of the series for `e^(f / UNIT)` from term number
/// `i`, where `term` is term `i - 1` in fixed point; each term is the one
/// before times `f / (UNIT * i)`, rounded down.
pub open spec fn exp_series(f: nat, i: nat, term: nat) -> nat
    decreases EXP_TERMS + 1 - i,
{
    if i > EXP_TERMS || i == 0 {
        0
    } else {
        let next = term * f / (UNIT * i) as nat;
        next + exp_series(f, i + 1, next)
    }
}

/// `e^(f / UNIT)` in fixed point by its series, for a fraction `f < UNIT`.
pub open spec fn exp_frac(f: nat) -> nat {
    (UNIT as nat) + exp_series(f, 1, UNIT as nat)
}

/// `w` multiplied `n` times by `e^-1`, rounding down after each step.
pub open spec fn decay(w: nat, n: nat) -> nat
    decreases n,
{
    if n == 0 {
        w
    } else {
        decay(w * (EXP_NEG_ONE as nat) / (UNIT as nat), (n - 1) as nat)
    }
}

/// `e^(-z / UNIT)` in fixed point: `e` to the minus fraction of `z` by the
/// series, then one factor `e^-1` for each whole unit of `z`.
pub open spec fn exp_neg(z: nat) -> nat {
    decay((UNIT * UNIT) as nat / exp_frac(z % (UNIT as nat)), z / (UNIT as nat))
}

proof fn lemma_exp_series_bound(f: nat, i: nat, term: nat)
    requires
        f < UNIT,
        term <= UNIT,
        1 <= i <= EXP_TERMS + 1,
    ensures
        exp_series(f, i, term) <= (EXP_TERMS + 1 - i) * UNIT,
    decreases EXP_TERMS + 1 - i,
{
    if i <= EXP_TERMS {
        let next = term * f / (UNIT * i) as nat;
        assert(next <= UNIT) by (nonlinear_arith)
            requires
                next == term * f / (UNIT * i) as nat,
                f < UNIT,
                term <= UNIT,
                i >= 1,
        ;
        lemma_exp_series_bound(f, i + 1, next);
    }
}

proof fn lemma_decay_zero(n: nat)
    ensures
        decay(0, n) == 0,
    decreases n,
{
    if n > 0 {
        lemma_decay_zero((n - 1) as nat);
    }
}

/// `e^(-z / UNIT)` in fixed point.
pub fn exp_neg_fixed(z: u128) -> (r: u64)
    ensures
        r == exp_neg(z as nat),
        r <= UNIT,
        z == 0 ==> r == UNIT,
{
    let f: u128 = z % UNIT as u128;
    let mut acc: u128 = UNIT as u128;
    let mut term: u128 = UNIT as u128;
    let mut i: u128 = 1;
    proof {
        lemma_exp_series_bound(f as nat, 1, UNIT as nat);
    }
    while i <= EXP_TERMS as u128
        invariant
            1 <= i <= EXP_TERMS + 1,
            f < UNIT,
            term <= UNIT,
            acc + exp_series(f as nat, i as nat, term as nat) == exp_frac(f as nat),
            acc <= i * UNIT,
            f == 0 ==> acc == UNIT,
        decreases EXP_TERMS + 1 - i,
    {
        assert(term * f <= UNIT * UNIT) by (nonlinear_arith)
            requires
                term <= UNIT,
                f < UNIT,
        ;
        let next = term * f / (UNIT as u128 * i);
        assert(next <= UNIT) by (nonlinear_arith)
            requires
                next == (term * f) as int / ((UNIT * i) as int),
                f < UNIT,
                term <= UNIT,
                i >= 1,
        ;
        acc = acc + next;
        term = next;
        i = i + 1;
    }
    assert(acc >= UNIT);
    let mut w: u128 = UNIT as u128 * UNIT as u128 / acc;
    assert(f == 0 ==> w == UNIT) by (nonlinear_arith)
        requires
            w == (UNIT * UNIT) as int / acc as int,
            f == 0 ==> acc == UNIT,
    ;
    assert(w <= UNIT) by (nonlinear_arith)
        requires
            w == (UNIT * UNIT) as int / acc as int,
            acc >= UNIT,
    ;
    let n: u128 = z / UNIT as u128;
    let mut k: u128 = 0;
    while k < n && w > 0
        invariant
            k <= n,
            w <= UNIT,
            decay(w as nat, (n - k) as nat) == exp_neg(z as nat),
        decreases w,
    {
        let next = w * EXP_NEG_ONE as u128 / UNIT as u128;
        assert(next < w) by (nonlinear_arith)
            requires
                next == (w * EXP_NEG_ONE) as int / (UNIT as int),
                w > 0,
        ;
        w = next;
        k = k + 1;
    }
    if w == 0 {
        proof {
            lemma_decay_zero((n - k) as nat);
        }
    }
    w as u64
}

} // verus!
