//! Categorical sampling from a fixed-point probability vector, normalization
//! of non-negative weights, and one step of a linear diffusion.
use vstd::prelude::*;
use rand::Rng;
use crate::fixed::{UNIT, LOG_ONE, exp_neg, exp_neg_fixed, exp_frac, exp_series, log2_scaled,
    log2_fixed, lemma_log2_scaled_bounds};

verus! {

/// Why a sampler operation refused its input.
#[derive(Debug, Clone, Copy, PartialEq, Eq, Structural)]
pub enum SamplerError {
    /// A malformed input: a non-positive temperature or a dimension mismatch.
    InvalidParameter,
}

/// Sum of the first `k` entries of `p`.
pub open spec fn prefix_sum(p: Seq<u64>, k: int) -> nat
    decreases k,
{
    if k <= 0 {
        0
    } else {
        prefix_sum(p, k - 1) + p[k - 1] as nat
    }
}

/// The first index at or after `i` whose running sum reaches `r`.
pub open spec fn first_reaching(p: Seq<u64>, r: nat, i: nat) -> Option<usize>
    decreases p.len() - i,
{
    if i >= p.len() {
        None
    } else if r <= prefix_sum(p, i + 1 as int) {
        Some(i as usize)
    } else {
        first_reaching(p, r, i + 1)
    }
}

/// The category that the draw `r` selects from `p`: the first index whose
/// running sum reaches `r`, or none where the whole mass stays below `r`.
pub open spec fn selection(p: Seq<u64>, r: nat) -> Option<usize> {
    first_reaching(p, r, 0)
}

/// The categories that the draws select in turn; a draw that selects none
/// adds nothing.
pub open spec fn selections(p: Seq<u64>, draws: Seq<u64>) -> Seq<usize>
    decreases draws.len(),
{
    if draws.len() == 0 {
        seq![]
    } else {
        let prev = selections(p, draws.drop_last());
        match selection(p, draws.last() as nat) {
            Some(i) => prev.push(i),
            None => prev,
        }
    }
}

proof fn lemma_first_reaching(p: Seq<u64>, r: nat, i: nat)
    requires
        p.len() <= usize::MAX,
    ensures
        first_reaching(p, r, i) matches Some(k) ==> i <= k < p.len(),
        i < p.len() && r <= prefix_sum(p, p.len() as int) ==> first_reaching(p, r, i) is Some,
    decreases p.len() - i,
{
    if i < p.len() && r > prefix_sum(p, i + 1 as int) {
        lemma_first_reaching(p, r, i + 1);
    }
}

/// What the selected categories are: never more than the draws, each a
/// valid index, and one for every draw where the whole mass reaches one unit
/// and every draw stays below one unit.
pub proof fn lemma_selections(p: Seq<u64>, draws: Seq<u64>)
    requires
        p.len() <= usize::MAX,
    ensures
        selections(p, draws).len() <= draws.len(),
        forall|k: int|
            0 <= k < selections(p, draws).len() ==> (#[trigger] selections(p, draws)[k] as int)
                < p.len(),
        prefix_sum(p, p.len() as int) >= UNIT && (forall|k: int|
            0 <= k < draws.len() ==> #[trigger] draws[k] < UNIT) ==> selections(p, draws).len()
            == draws.len(),
    decreases draws.len(),
{
    if draws.len() > 0 {
        let prev = draws.drop_last();
        lemma_selections(p, prev);
        lemma_first_reaching(p, draws.last() as nat, 0);
        if prefix_sum(p, p.len() as int) >= UNIT && (forall|k: int|
            0 <= k < draws.len() ==> #[trigger] draws[k] < UNIT) {
            assert(forall|k: int| 0 <= k < prev.len() ==> prev[k] == draws[k]);
            assert(draws[draws.len() - 1] < UNIT);
            if p.len() == 0 {
                assert(prefix_sum(p, 0) == 0);
            }
        }
    }
}

/// The category that the draw `r` selects from `p`.
pub fn select_index(p: &[u64], r: u64) -> (res: Option<usize>)
    ensures
        res == selection(p@, r as nat),
{
    let mut cum: u128 = 0;
    let mut i: usize = 0;
    while i < p.len()
        invariant
            i <= p.len(),
            cum == prefix_sum(p@, i as int),
            cum <= i * 0xffff_ffff_ffff_ffff,
            first_reaching(p@, r as nat, i as nat) == selection(p@, r as nat),
        decreases p.len() - i,
    {
        cum = cum + p[i] as u128;
        if r as u128 <= cum {
            return Some(i);
        }
        i = i + 1;
    }
    None
}

/// The categories that the given draws select from `p`, in draw order.
pub fn sample_with_draws(p: &[u64], draws: &[u64]) -> (res: Vec<usize>)
    ensures
        res@ == selections(p@, draws@),
{
    let mut out: Vec<usize> = Vec::new();
    let mut k: usize = 0;
    while k < draws.len()
        invariant
            k <= draws.len(),
            out@ == selections(p@, draws@.subrange(0, k as int)),
        decreases draws.len() - k,
    {
        let ghost before = draws@.subrange(0, k as int);
        assert(draws@.subrange(0, k + 1).drop_last() =~= before);
        match select_index(p, draws[k]) {
            Some(i) => out.push(i),
            None => {},
        }
        k = k + 1;
    }
    assert(draws@.subrange(0, draws.len() as int) =~= draws@);
    out
}

/// Sum of the first `k` weights.
pub open spec fn weight_sum(w: Seq<u128>, k: int) -> nat
    decreases k,
{
    if k <= 0 {
        0
    } else {
        weight_sum(w, k - 1) + w[k - 1] as nat
    }
}

/// Sum of all weights.
pub open spec fn total_weight(w: Seq<u128>) -> nat {
    weight_sum(w, w.len() as int)
}

/// The fixed-point share of the weight `x` in the total `t`, rounded down;
/// zero where the total is zero.
pub open spec fn share(x: nat, t: nat) -> nat {
    if t == 0 {
        0
    } else {
        x * (UNIT as nat) / t
    }
}

/// Each weight replaced by its share of the total.
pub open spec fn normalized(w: Seq<u128>) -> Seq<u64> {
    Seq::new(w.len(), |i: int| share(w[i] as nat, total_weight(w)) as u64)
}

/// Sum of the first `k` fixed-point values.
pub open spec fn unit_sum(v: Seq<u64>, k: int) -> nat
    decreases k,
{
    if k <= 0 {
        0
    } else {
        unit_sum(v, k - 1) + v[k - 1] as nat
    }
}

proof fn lemma_weight_sum_prefix(w: Seq<u128>, i: int, k: int)
    requires
        0 <= i <= k <= w.len(),
    ensures
        weight_sum(w, i) <= weight_sum(w, k),
        i < k ==> w[i] as nat <= weight_sum(w, k),
    decreases k,
{
    if i < k {
        if i < k - 1 {
            lemma_weight_sum_prefix(w, i, k - 1);
        } else {
            assert(weight_sum(w, i) <= weight_sum(w, i + 1));
        }
    }
}

proof fn lemma_weight_sum_bound(w: Seq<u128>, k: int, b: nat)
    requires
        0 <= k <= w.len(),
        forall|j: int| 0 <= j < w.len() ==> #[trigger] w[j] <= b,
    ensures
        weight_sum(w, k) <= k * b,
    decreases k,
{
    if k > 0 {
        lemma_weight_sum_bound(w, k - 1, b);
        assert((k - 1) * b + b == k * b) by (nonlinear_arith);
    }
}

proof fn lemma_shares(w: Seq<u128>, k: int)
    requires
        0 <= k <= w.len(),
        total_weight(w) > 0,
    ensures
        ({
            let t = total_weight(w);
            let s = unit_sum(normalized(w), k);
            &&& t * s <= UNIT * weight_sum(w, k)
            &&& t * s + k * t >= UNIT * weight_sum(w, k)
            &&& k > 0 ==> t * s + k * t > UNIT * weight_sum(w, k)
        }),
    decreases k,
{
    let t = total_weight(w);
    if k > 0 {
        lemma_shares(w, k - 1);
        lemma_weight_sum_prefix(w, k - 1, w.len() as int);
        let x = w[k - 1] as nat;
        let q = x * (UNIT as nat) / t;
        assert(x * UNIT <= t * UNIT) by (nonlinear_arith)
            requires
                x <= t,
        ;
        assert(q <= UNIT) by (nonlinear_arith)
            requires
                q == x * (UNIT as nat) / t,
                x * UNIT <= t * UNIT,
                t > 0,
        ;
        assert(normalized(w)[k - 1] as nat == q);
        assert(t * q <= x * UNIT && t * q + t > x * UNIT) by (nonlinear_arith)
            requires
                q == x * (UNIT as nat) / t,
                t > 0,
        ;
        let s0 = unit_sum(normalized(w), k - 1);
        assert(t * (s0 + q) == t * s0 + t * q) by (nonlinear_arith);
        assert(k * t == (k - 1) * t + t) by (nonlinear_arith);
        assert(UNIT * (weight_sum(w, k - 1) + x) == UNIT * weight_sum(w, k - 1) + UNIT * x)
            by (nonlinear_arith);
    } else {
        assert(t * 0 == 0) by (nonlinear_arith);
        assert(UNIT * 0 == 0);
    }
}

/// Normalized weights sum to one unit up to rounding: never above it, and
/// less than one millionth per entry below it.
pub proof fn lemma_normalized_sum(w: Seq<u128>)
    requires
        total_weight(w) > 0,
    ensures
        normalized(w).len() == w.len(),
        unit_sum(normalized(w), w.len() as int) <= UNIT,
        w.len() > 0 ==> unit_sum(normalized(w), w.len() as int) + w.len() > UNIT,
{
    let t = total_weight(w);
    let n = w.len() as int;
    lemma_shares(w, n);
    let s = unit_sum(normalized(w), n);
    assert(s <= UNIT) by (nonlinear_arith)
        requires
            t * s <= UNIT * t,
            t > 0,
    ;
    if n > 0 {
        assert(s + n > UNIT) by (nonlinear_arith)
            requires
                t * s + n * t > UNIT * t,
                t > 0,
        ;
    }
}

/// Each weight replaced by its fixed-point share of the total, rounded down;
/// all zeros where the total is zero.
pub fn normalize(w: &[u128]) -> (res: Vec<u64>)
    requires
        total_weight(w@) * UNIT <= u128::MAX,
    ensures
        res@ == normalized(w@),
{
    let mut t: u128 = 0;
    let mut i: usize = 0;
    while i < w.len()
        invariant
            i <= w.len(),
            t == weight_sum(w@, i as int),
            total_weight(w@) * UNIT <= u128::MAX,
        decreases w.len() - i,
    {
        proof {
            lemma_weight_sum_prefix(w@, i + 1, w.len() as int);
        }
        t = t + w[i];
        i = i + 1;
    }
    let mut out: Vec<u64> = Vec::new();
    let mut k: usize = 0;
    while k < w.len()
        invariant
            k <= w.len(),
            t == total_weight(w@),
            t * UNIT <= u128::MAX,
            out@.len() == k,
            forall|j: int| 0 <= j < k ==> out@[j] == normalized(w@)[j],
        decreases w.len() - k,
    {
        if t == 0 {
            out.push(0);
        } else {
            proof {
                lemma_weight_sum_prefix(w@, k as int, w.len() as int);
            }
            let x = w[k];
            assert(x * UNIT <= t * UNIT) by (nonlinear_arith)
                requires
                    x <= t,
            ;
            let q = x * UNIT as u128 / t;
            assert(q <= UNIT) by (nonlinear_arith)
                requires
                    q == (x * UNIT) as int / (t as int),
                    x * UNIT <= t * UNIT,
                    t > 0,
            ;
            out.push(q as u64);
        }
        k = k + 1;
    }
    assert(out@ =~= normalized(w@));
    out
}

/// Largest dimension of a diffusion step. A square matrix of more rows would
/// hold more than 2^48 entries, beyond any address space.
pub const WALK_MAX_DIM: usize = 16_777_216;

/// Largest entry (2^30 millionths, about 1073 units) of a diffusion step's
/// state and matrix: with it, every sum the step forms, times one unit,
/// fits a `u128`.
pub const WALK_MAX_ENTRY: u64 = 1_073_741_824;

/// A transition matrix that is square, of the state's dimension.
pub open spec fn walk_square(state: Seq<u64>, t: Seq<Vec<u64>>) -> bool {
    &&& t.len() == state.len()
    &&& forall|j: int| 0 <= j < t.len() ==> (#[trigger] t[j])@.len() == state.len()
}

/// The dimension and every entry of the state and the matrix are within the
/// limits of the fixed-point arithmetic.
pub open spec fn walk_within_limits(state: Seq<u64>, t: Seq<Vec<u64>>) -> bool {
    &&& state.len() <= WALK_MAX_DIM
    &&& forall|j: int| 0 <= j < state.len() ==> #[trigger] state[j] <= WALK_MAX_ENTRY
    &&& forall|j: int, i: int|
        0 <= j < t.len() && 0 <= i < t[j]@.len() ==> #[trigger] t[j]@[i] <= WALK_MAX_ENTRY
}

/// A square matrix of the state's dimension, within the arithmetic's limits.
pub open spec fn walk_inputs_valid(state: Seq<u64>, t: Seq<Vec<u64>>) -> bool {
    walk_square(state, t) && walk_within_limits(state, t)
}

/// What flows into entry `i` from the first `k` entries of the state.
pub open spec fn inflow(state: Seq<u64>, t: Seq<Vec<u64>>, i: int, k: int) -> nat
    decreases k,
{
    if k <= 0 {
        0
    } else {
        inflow(state, t, i, k - 1) + t[k - 1]@[i] as nat * state[k - 1] as nat
    }
}

/// The next state before renormalization.
pub open spec fn walk_raw(state: Seq<u64>, t: Seq<Vec<u64>>) -> Seq<u128> {
    Seq::new(state.len(), |i: int| inflow(state, t, i, state.len() as int) as u128)
}

/// The next state: `walk_raw` renormalized to one unit.
pub open spec fn walk_step(state: Seq<u64>, t: Seq<Vec<u64>>) -> Seq<u64> {
    normalized(walk_raw(state, t))
}

proof fn lemma_inflow_bound(state: Seq<u64>, t: Seq<Vec<u64>>, i: int, k: int)
    requires
        walk_inputs_valid(state, t),
        0 <= i < state.len(),
        0 <= k <= state.len(),
    ensures
        inflow(state, t, i, k) <= k * (WALK_MAX_ENTRY * WALK_MAX_ENTRY),
    decreases k,
{
    if k > 0 {
        lemma_inflow_bound(state, t, i, k - 1);
        let a = t[k - 1]@[i] as nat;
        let b = state[k - 1] as nat;
        assert(a * b <= WALK_MAX_ENTRY * WALK_MAX_ENTRY) by (nonlinear_arith)
            requires
                a <= WALK_MAX_ENTRY,
                b <= WALK_MAX_ENTRY,
        ;
        assert((k - 1) * (WALK_MAX_ENTRY * WALK_MAX_ENTRY) + WALK_MAX_ENTRY * WALK_MAX_ENTRY == k
            * (WALK_MAX_ENTRY * WALK_MAX_ENTRY)) by (nonlinear_arith);
    }
}

/// Sum of column `i` over the first `k` rows.
pub open spec fn column_sum(t: Seq<Vec<u64>>, i: int, k: int) -> nat
    decreases k,
{
    if k <= 0 {
        0
    } else {
        column_sum(t, i, k - 1) + t[k - 1]@[i] as nat
    }
}

/// A diffusion step keeps the dimension, and where anything flows at all
/// the next state sums to one unit up to one millionth per entry.
pub proof fn lemma_walk_step_mass(state: Seq<u64>, t: Seq<Vec<u64>>)
    requires
        walk_inputs_valid(state, t),
        total_weight(walk_raw(state, t)) > 0,
    ensures
        walk_step(state, t).len() == state.len(),
        unit_sum(walk_step(state, t), state.len() as int) <= UNIT,
        unit_sum(walk_step(state, t), state.len() as int) + state.len() > UNIT,
{
    lemma_normalized_sum(walk_raw(state, t));
}

proof fn lemma_inflow_uniform(state: Seq<u64>, t: Seq<Vec<u64>>, i: int, k: int, u: nat)
    requires
        0 <= k <= state.len(),
        forall|j: int| 0 <= j < state.len() ==> #[trigger] state[j] == u,
    ensures
        inflow(state, t, i, k) == u * column_sum(t, i, k),
    decreases k,
{
    if k > 0 {
        lemma_inflow_uniform(state, t, i, k - 1, u);
        let c = column_sum(t, i, k - 1);
        let a = t[k - 1]@[i] as nat;
        assert(u * c + a * u == u * (c + a)) by (nonlinear_arith);
    } else {
        assert(u * 0 == 0) by (nonlinear_arith);
    }
}

proof fn lemma_weight_sum_constant(w: Seq<u128>, k: int, v: nat)
    requires
        0 <= k <= w.len(),
        forall|j: int| 0 <= j < w.len() ==> #[trigger] w[j] == v,
    ensures
        weight_sum(w, k) == k * v,
    decreases k,
{
    if k > 0 {
        lemma_weight_sum_constant(w, k - 1, v);
        assert((k - 1) * v + v == k * v) by (nonlinear_arith);
    } else {
        assert(0 * v == 0) by (nonlinear_arith);
    }
}

/// A uniform state under a matrix whose columns all have the same positive
/// sum (for a row-normalized matrix: a doubly stochastic one) steps to the
/// uniform state `UNIT / n`; so the uniform state `UNIT / n` is fixed.
pub proof fn lemma_walk_step_uniform(state: Seq<u64>, t: Seq<Vec<u64>>, u: nat, c: nat)
    requires
        walk_inputs_valid(state, t),
        0 < state.len(),
        u > 0,
        c > 0,
        forall|j: int| 0 <= j < state.len() ==> #[trigger] state[j] == u,
        forall|i: int| 0 <= i < state.len() ==> #[trigger] column_sum(t, i, state.len() as int) == c,
    ensures
        forall|i: int|
            0 <= i < state.len() ==> #[trigger] walk_step(state, t)[i] as int == UNIT as int / (
                state.len() as int),
{
    let n = state.len() as int;
    let raw = walk_raw(state, t);
    assert forall|i: int| 0 <= i < n implies #[trigger] raw[i] == u * c by {
        lemma_inflow_uniform(state, t, i, n, u);
        lemma_inflow_bound(state, t, i, n);
        assert(n * (WALK_MAX_ENTRY * WALK_MAX_ENTRY) <= u128::MAX) by (nonlinear_arith)
            requires
                n <= WALK_MAX_DIM,
        ;
    }
    assert(u * c > 0) by (nonlinear_arith)
        requires
            u > 0,
            c > 0,
    ;
    lemma_weight_sum_constant(raw, n, u * c);
    let x = u * c;
    assert(n * x > 0) by (nonlinear_arith)
        requires
            n > 0,
            x > 0,
    ;
    assert forall|i: int| 0 <= i < n implies #[trigger] walk_step(state, t)[i] as int == UNIT as int
        / n by {
        vstd::arithmetic::div_mod::lemma_div_multiples_vanish_quotient(x as int, UNIT as int, n);
        assert(x * n == n * x) by (nonlinear_arith);
        assert((UNIT as int) / n <= UNIT) by (nonlinear_arith)
            requires
                n > 0,
        ;
    }
}

/// The largest of the first `k` entries; zero for none.
pub open spec fn max_prefix(p: Seq<u64>, k: int) -> u64
    decreases k,
{
    if k <= 0 {
        0
    } else {
        let m = max_prefix(p, k - 1);
        if p[k - 1] > m {
            p[k - 1]
        } else {
            m
        }
    }
}

/// Annealing weights: `e^((p - max) / temperature)` for each entry, in fixed
/// point, the exponent taken in fixed point and rounded down.
pub open spec fn anneal_weights(p: Seq<u64>, temperature: u64) -> Seq<u128> {
    let m = max_prefix(p, p.len() as int);
    Seq::new(
        p.len(),
        |i: int| exp_neg(((m - p[i]) * UNIT / (temperature as int)) as nat) as u128,
    )
}

/// The annealed vector: the softmax of `p / temperature`, each weight
/// taken relative to the largest entry and then normalized.
pub open spec fn annealed(p: Seq<u64>, temperature: u64) -> Seq<u64> {
    normalized(anneal_weights(p, temperature))
}

proof fn lemma_max_prefix(p: Seq<u64>, k: int)
    requires
        0 <= k <= p.len(),
    ensures
        forall|i: int| 0 <= i < k ==> #[trigger] p[i] <= max_prefix(p, k),
        k > 0 ==> exists|i: int| 0 <= i < k && #[trigger] p[i] == max_prefix(p, k),
    decreases k,
{
    if k > 0 {
        lemma_max_prefix(p, k - 1);
        if p[k - 1] <= max_prefix(p, k - 1) && k > 1 {
            let i = choose|i: int| 0 <= i < k - 1 && #[trigger] p[i] == max_prefix(p, k - 1);
            assert(p[i] == max_prefix(p, k));
        } else {
            assert(p[k - 1] == max_prefix(p, k));
        }
    }
}

proof fn lemma_exp_series_zero(i: nat, term: nat)
    ensures
        exp_series(0, i, term) == 0,
    decreases crate::fixed::EXP_TERMS + 1 - i,
{
    if i <= crate::fixed::EXP_TERMS && i != 0 {
        assert(term * 0 == 0);
        lemma_exp_series_zero(i + 1, 0);
    }
}

/// Annealing with a positive temperature gives a vector of the same length
/// that sums to one unit up to one millionth per entry.
pub proof fn lemma_annealed_sum(p: Seq<u64>, temperature: u64)
    requires
        temperature > 0,
        p.len() > 0,
    ensures
        annealed(p, temperature).len() == p.len(),
        unit_sum(annealed(p, temperature), p.len() as int) <= UNIT,
        unit_sum(annealed(p, temperature), p.len() as int) + p.len() > UNIT,
{
    let w = anneal_weights(p, temperature);
    lemma_max_prefix(p, p.len() as int);
    let i = choose|i: int| 0 <= i < p.len() && #[trigger] p[i] == max_prefix(p, p.len() as int);
    lemma_exp_series_zero(1, UNIT as nat);
    assert(exp_frac(0) == UNIT);
    assert((UNIT * UNIT) as nat / exp_frac(0) == UNIT);
    assert(exp_neg(0) == UNIT);
    assert(w[i] == UNIT);
    lemma_weight_sum_prefix(w, i, w.len() as int);
    lemma_normalized_sum(w);
}

/// Contribution of one probability `p` to the entropy, scaled by
/// `UNIT * LOG_ONE`: `p * (log2(UNIT) - log2(p))`, taken as zero where
/// rounding made it negative. Zero entries, and entries above one unit,
/// contribute nothing.
pub open spec fn entropy_term(p: nat) -> nat {
    if p == 0 || p > UNIT {
        0
    } else if log2_scaled(p) <= log2_scaled(UNIT as nat) {
        p * (log2_scaled(UNIT as nat) - log2_scaled(p)) as nat
    } else {
        0
    }
}

/// Sum of the entropy terms of the first `k` entries.
pub open spec fn entropy_sum(p: Seq<u64>, k: int) -> nat
    decreases k,
{
    if k <= 0 {
        0
    } else {
        entropy_sum(p, k - 1) + entropy_term(p[k - 1] as nat)
    }
}

/// Entropy in bits of a fixed-point probability vector, itself in fixed
/// point, rounded down.
pub open spec fn entropy_of(p: Seq<u64>) -> nat {
    entropy_sum(p, p.len() as int) / (LOG_ONE as nat)
}

/// Samples drawn from a probability vector, with the vector's entropy.
#[derive(Debug, Clone)]
pub struct SamplingResult {
    pub samples: Vec<usize>,
    pub probabilities: Vec<u64>,
    pub entropy: u128,
}

impl SamplingResult {
    pub fn new(samples: Vec<usize>, probabilities: Vec<u64>) -> (r: Self)
        ensures
            r.samples@ == samples@,
            r.probabilities@ == probabilities@,
            r.entropy == entropy_of(probabilities@),
    {
        let entropy = Self::compute_entropy(probabilities.as_slice());
        SamplingResult { samples, probabilities, entropy }
    }

    /// Entropy in bits of `probabilities`, in fixed point.
    pub fn compute_entropy(probabilities: &[u64]) -> (r: u128)
        ensures
            r == entropy_of(probabilities@),
    {
        let lg_unit = log2_fixed(UNIT) as u128;
        proof {
            lemma_log2_scaled_bounds(UNIT as nat);
        }
        let n = probabilities.len();
        let mut sum: u128 = 0;
        let mut i: usize = 0;
        while i < n
            invariant
                i <= n,
                n == probabilities@.len(),
                lg_unit == log2_scaled(UNIT as nat),
                lg_unit < 65 * LOG_ONE,
                sum == entropy_sum(probabilities@, i as int),
                sum <= i * (UNIT * (65 * LOG_ONE)),
            decreases n - i,
        {
            let p = probabilities[i];
            if p > 0 && p <= UNIT {
                let lg = log2_fixed(p) as u128;
                if lg <= lg_unit {
                    assert(p * (lg_unit - lg) <= UNIT * (65 * LOG_ONE)) by (nonlinear_arith)
                        requires
                            p <= UNIT,
                            lg_unit < 65 * LOG_ONE,
                            lg <= lg_unit,
                    ;
                    assert(i * (UNIT * (65 * LOG_ONE)) + UNIT * (65 * LOG_ONE) == (i + 1) * (UNIT
                        * (65 * LOG_ONE))) by (nonlinear_arith);
                    assert((i + 1) * (UNIT * (65 * LOG_ONE)) <= 0x1_0000_0000_0000_0000 * (UNIT * (
                    65 * LOG_ONE))) by (nonlinear_arith)
                        requires
                            i < n,
                            n <= usize::MAX,
                    ;
                    let term = p as u128 * (lg_unit - lg);
                    sum = sum + term;
                }
            }
            proof {
                assert(i * (UNIT * (65 * LOG_ONE)) <= (i + 1) * (UNIT * (65 * LOG_ONE))) by (nonlinear_arith);
            }
            i = i + 1;
        }
        sum / LOG_ONE as u128
    }
}

/// The uniform state `UNIT / n` is a fixed point of the diffusion step under
/// a matrix whose columns all have the same positive sum (for a row-normalized
/// matrix: a doubly stochastic one). The dimension is at most one million, so
/// that `UNIT / n` is positive.
pub proof fn lemma_uniform_state_fixed(state: Seq<u64>, t: Seq<Vec<u64>>, c: nat)
    requires
        walk_inputs_valid(state, t),
        0 < state.len() <= UNIT,
        c > 0,
        forall|j: int| 0 <= j < state.len() ==> #[trigger] state[j] == UNIT / (state.len() as u64),
        forall|i: int| 0 <= i < state.len() ==> #[trigger] column_sum(t, i, state.len() as int) == c,
    ensures
        walk_step(state, t) == state,
{
    let n = state.len() as int;
    let u = (UNIT as int / n) as nat;
    assert(u > 0) by (nonlinear_arith)
        requires
            u == UNIT as int / n,
            0 < n <= UNIT,
    ;
    assert forall|j: int| 0 <= j < n implies #[trigger] state[j] == u by {}
    lemma_walk_step_uniform(state, t, u, c);
    assert(walk_step(state, t) =~= state);
}

/// Relies on `rand::Rng::gen_range` over the thread-local generator: a value
/// drawn from `0..bound`, a range that is never empty here.
#[verifier::external_body]
fn draw_below(bound: u64) -> (r: u64)
    requires
        bound > 0,
    ensures
        r < bound,
{
    rand::thread_rng().gen_range(0..bound)
}

/// A sampler with a fixed temperature (in fixed point) and number of draws.
pub struct QuantumSampler {
    pub temperature: u64,
    pub num_samples: usize,
}

impl QuantumSampler {
    pub fn new(temperature: u64, num_samples: usize) -> (r: Self)
        ensures
            r.temperature == temperature,
            r.num_samples == num_samples,
    {
        QuantumSampler { temperature, num_samples }
    }

    /// Draws `num_samples` uniform values below one unit and returns the
    /// categories they select from `probabilities`.
    pub fn sample(&self, probabilities: &[u64]) -> (res: Vec<usize>)
        ensures
            exists|d: Seq<u64>|
                d.len() == self.num_samples && (forall|k: int|
                    0 <= k < d.len() ==> #[trigger] d[k] < UNIT) && res@ == selections(
                    probabilities@,
                    d,
                ),
            res.len() <= self.num_samples,
            forall|k: int| 0 <= k < res.len() ==> (#[trigger] res[k] as int) < probabilities.len(),
            prefix_sum(probabilities@, probabilities.len() as int) >= UNIT ==> res.len()
                == self.num_samples,
    {
        let mut draws: Vec<u64> = Vec::new();
        let mut k: usize = 0;
        while k < self.num_samples
            invariant
                k <= self.num_samples,
                draws.len() == k,
                forall|j: int| 0 <= j < draws.len() ==> #[trigger] draws[j] < UNIT,
            decreases self.num_samples - k,
        {
            let r = draw_below(UNIT);
            draws.push(r);
            k = k + 1;
        }
        let res = sample_with_draws(probabilities, draws.as_slice());
        let categories = probabilities.len();
        proof {
            assert(probabilities@.len() == categories);
            lemma_selections(probabilities@, draws@);
        }
        res
    }

    /// The softmax of `probabilities` over the temperature, in fixed point;
    /// a zero temperature is refused.
    pub fn anneal(&self, probabilities: &[u64]) -> (res: Result<Vec<u64>, SamplerError>)
        ensures
            self.temperature == 0 ==> res == Err::<Vec<u64>, SamplerError>(
                SamplerError::InvalidParameter,
            ),
            self.temperature > 0 ==> (res matches Ok(v) && v@ == annealed(
                probabilities@,
                self.temperature,
            )),
    {
        let t = self.temperature;
        if t == 0 {
            return Err(SamplerError::InvalidParameter);
        }
        let n = probabilities.len();
        let mut m: u64 = 0;
        let mut i: usize = 0;
        while i < n
            invariant
                i <= n,
                n == probabilities@.len(),
                m == max_prefix(probabilities@, i as int),
            decreases n - i,
        {
            if probabilities[i] > m {
                m = probabilities[i];
            }
            i = i + 1;
        }
        proof {
            lemma_max_prefix(probabilities@, n as int);
        }
        let ghost expected = anneal_weights(probabilities@, t);
        let mut weights: Vec<u128> = Vec::new();
        let mut k: usize = 0;
        while k < n
            invariant
                k <= n,
                n == probabilities@.len(),
                t > 0,
                t == self.temperature,
                m == max_prefix(probabilities@, n as int),
                forall|j: int| 0 <= j < n ==> #[trigger] probabilities@[j] <= m,
                expected == anneal_weights(probabilities@, t),
                weights@.len() == k,
                forall|j: int| 0 <= j < k ==> #[trigger] weights@[j] == expected[j],
                forall|j: int| 0 <= j < k ==> #[trigger] weights@[j] <= UNIT,
            decreases n - k,
        {
            let gap = (m - probabilities[k]) as u128;
            assert(gap * UNIT <= u64::MAX * UNIT) by (nonlinear_arith)
                requires
                    gap <= u64::MAX,
            ;
            let z = gap * UNIT as u128 / t as u128;
            let w = exp_neg_fixed(z);
            weights.push(w as u128);
            k = k + 1;
        }
        assert(weights@ =~= expected);
        proof {
            lemma_weight_sum_bound(weights@, n as int, UNIT as nat);
            assert(n * UNIT * UNIT <= u128::MAX) by (nonlinear_arith)
                requires
                    n <= usize::MAX,
            ;
            assert(total_weight(weights@) * UNIT <= n * UNIT * UNIT) by (nonlinear_arith)
                requires
                    total_weight(weights@) <= n * UNIT,
            ;
        }
        Ok(normalize(weights.as_slice()))
    }

    /// One diffusion step: entry `i` of the next state is the sum over `j` of
    /// `transition_matrix[j][i] * current_state[j]`, then the whole vector is
    /// renormalized to one unit (left at zero where it sums to zero). Only a
    /// matrix that is not square of the state's dimension is refused.
    pub fn quantum_walk_step(&self, current_state: &[u64], transition_matrix: &[Vec<u64>]) -> (res:
        Result<Vec<u64>, SamplerError>)
        requires
            walk_within_limits(current_state@, transition_matrix@),
        ensures
            walk_square(current_state@, transition_matrix@) ==> (res matches Ok(v) && v@
                == walk_step(current_state@, transition_matrix@)),
            !walk_square(current_state@, transition_matrix@) ==> res == Err::<
                Vec<u64>,
                SamplerError,
            >(SamplerError::InvalidParameter),
    {
        let n = current_state.len();
        if transition_matrix.len() != n {
            return Err(SamplerError::InvalidParameter);
        }
        let mut j: usize = 0;
        while j < n
            invariant
                j <= n,
                n == current_state@.len(),
                transition_matrix@.len() == n,
                forall|a: int| 0 <= a < j ==> (#[trigger] transition_matrix@[a])@.len() == n,
            decreases n - j,
        {
            if transition_matrix[j].len() != n {
                return Err(SamplerError::InvalidParameter);
            }
            j = j + 1;
        }
        assert(walk_inputs_valid(current_state@, transition_matrix@));
        let ghost bound: nat = (n * (WALK_MAX_ENTRY * WALK_MAX_ENTRY)) as nat;
        let mut raw: Vec<u128> = Vec::new();
        let mut i: usize = 0;
        while i < n
            invariant
                i <= n,
                n == current_state@.len(),
                n <= WALK_MAX_DIM,
                bound == n * (WALK_MAX_ENTRY * WALK_MAX_ENTRY),
                walk_inputs_valid(current_state@, transition_matrix@),
                raw@.len() == i,
                forall|a: int| 0 <= a < i ==> #[trigger] raw@[a] == walk_raw(current_state@, transition_matrix@)[a],
                forall|a: int| 0 <= a < i ==> #[trigger] raw@[a] <= bound,
            decreases n - i,
        {
            let mut acc: u128 = 0;
            let mut k: usize = 0;
            while k < n
                invariant
                    k <= n,
                    i < n,
                    n == current_state@.len(),
                    n <= WALK_MAX_DIM,
                    walk_inputs_valid(current_state@, transition_matrix@),
                    acc == inflow(current_state@, transition_matrix@, i as int, k as int),
                decreases n - k,
            {
                proof {
                    lemma_inflow_bound(current_state@, transition_matrix@, i as int, k as int + 1);
                    assert((k + 1) * (WALK_MAX_ENTRY * WALK_MAX_ENTRY) <= WALK_MAX_DIM * (
                    WALK_MAX_ENTRY * WALK_MAX_ENTRY)) by (nonlinear_arith)
                        requires
                            k + 1 <= WALK_MAX_DIM,
                    ;
                }
                assert(transition_matrix@[k as int]@.len() == n);
                let a = transition_matrix[k][i] as u128;
                let b = current_state[k] as u128;
                assert(a * b <= WALK_MAX_ENTRY * WALK_MAX_ENTRY) by (nonlinear_arith)
                    requires
                        a <= WALK_MAX_ENTRY,
                        b <= WALK_MAX_ENTRY,
                ;
                acc = acc + a * b;
                k = k + 1;
            }
            proof {
                lemma_inflow_bound(current_state@, transition_matrix@, i as int, n as int);
            }
            raw.push(acc);
            i = i + 1;
        }
        assert(raw@ =~= walk_raw(current_state@, transition_matrix@));
        proof {
            lemma_weight_sum_bound(raw@, n as int, bound);
            assert(n * bound * UNIT <= u128::MAX) by (nonlinear_arith)
                requires
                    n <= WALK_MAX_DIM,
                    bound == n * (WALK_MAX_ENTRY * WALK_MAX_ENTRY),
            ;
            assert(total_weight(raw@) * UNIT <= n * bound * UNIT) by (nonlinear_arith)
                requires
                    total_weight(raw@) <= n * bound,
            ;
        }
        let out = normalize(raw.as_slice());
        Ok(out)
    }
}

} // verus!
