//! Blending schemes: pure reductions of parallel score and weight lists
//! into one aggregate score.
//!
//! All six schemes are exact integer computations over fixed-point scores
//! (see `score::SCALE`). Degenerate configurations (no dimensions, or all
//! weights zero) resolve to an aggregate of zero rather than a fault.

use vstd::prelude::*;
use crate::fixed::{spec_pow_frac, pow_frac};
use crate::score::{SCALE, WEIGHT_MAX, MAX_DIMENSIONS, THRESHOLD_GATE, valid_score, valid_weight};

verus! {

/// The six interchangeable ways of reducing dimension scores to one
/// aggregate.
#[derive(Clone, Copy, Debug, PartialEq, Eq, Structural)]
pub enum Scheme {
    /// Weighted arithmetic mean of the scores.
    Additive,
    /// Weighted geometric mean: every dimension must contribute.
    Multiplicative,
    /// The weakest dimension dominates; weights are ignored.
    Minimum,
    /// The best dimension dominates; weights are ignored.
    Maximum,
    /// Weighted mean if every score clears the fixed gate, else zero.
    Threshold,
    /// Weighted harmonic mean; any zero score forces zero.
    Harmonic,
}

impl Default for Scheme {
    /// The additive scheme is the default reduction.
    fn default() -> (r: Scheme)
        ensures
            r == Scheme::Additive,
    {
        Scheme::Additive
    }
}

/// Every entry is a well-formed score.
pub open spec fn all_scores_valid(rs: Seq<u64>) -> bool {
    forall|i: int| 0 <= i < rs.len() ==> valid_score(#[trigger] rs[i])
}

/// Every entry is a well-formed weight.
pub open spec fn all_weights_valid(ws: Seq<u64>) -> bool {
    forall|i: int| 0 <= i < ws.len() ==> valid_weight(#[trigger] ws[i])
}

/// Sum of a weight list.
pub open spec fn sum_weights(ws: Seq<u64>) -> int
    decreases ws.len(),
{
    if ws.len() == 0 {
        0
    } else {
        sum_weights(ws.drop_last()) + ws.last()
    }
}

/// Sum of per-dimension contributions, each `score * weight`.
pub open spec fn sum_contributions(rs: Seq<u64>, ws: Seq<u64>) -> int
    decreases rs.len(),
{
    if rs.len() == 0 || ws.len() == 0 {
        0
    } else {
        sum_contributions(rs.drop_last(), ws.drop_last()) + rs.last() * ws.last()
    }
}

/// Weighted arithmetic mean, floored; zero when the total weight is zero.
pub open spec fn spec_additive(rs: Seq<u64>, ws: Seq<u64>) -> int {
    if sum_weights(ws) == 0 {
        0
    } else {
        sum_contributions(rs, ws) / sum_weights(ws)
    }
}

/// Least score of the list; zero for an empty list.
pub open spec fn spec_minimum(rs: Seq<u64>) -> int
    decreases rs.len(),
{
    if rs.len() == 0 {
        0
    } else if rs.len() == 1 {
        rs.last() as int
    } else {
        let rest = spec_minimum(rs.drop_last());
        if rs.last() < rest {
            rs.last() as int
        } else {
            rest
        }
    }
}

/// Greatest score of the list; zero for an empty list.
pub open spec fn spec_maximum(rs: Seq<u64>) -> int
    decreases rs.len(),
{
    if rs.len() == 0 {
        0
    } else {
        let rest = spec_maximum(rs.drop_last());
        if rs.last() > rest {
            rs.last() as int
        } else {
            rest
        }
    }
}

/// Whether every score clears the fixed threshold gate.
pub open spec fn all_clear_gate(rs: Seq<u64>) -> bool {
    forall|i: int| 0 <= i < rs.len() ==> #[trigger] rs[i] >= THRESHOLD_GATE
}

/// The weighted mean when every score reaches the fixed minimum, and
/// zero otherwise.
pub open spec fn spec_threshold(rs: Seq<u64>, ws: Seq<u64>) -> int {
    if all_clear_gate(rs) {
        spec_additive(rs, ws)
    } else {
        0
    }
}

/// Whether any score in the list is exactly zero.
pub open spec fn has_zero_score(rs: Seq<u64>) -> bool {
    exists|i: int| 0 <= i < rs.len() && rs[i] == 0
}

/// Ceiling division for nonnegative operands.
pub open spec fn ceil_div(a: int, b: int) -> int {
    (a + b - 1) / b
}

/// Sum of scaled reciprocal terms `ceil(w * SCALE^2 / r)`, defined for
/// lists without zero scores.
pub open spec fn sum_reciprocals(rs: Seq<u64>, ws: Seq<u64>) -> int
    decreases rs.len(),
{
    if rs.len() == 0 || ws.len() == 0 {
        0
    } else {
        sum_reciprocals(rs.drop_last(), ws.drop_last()) + ceil_div(
            ws.last() * SCALE * SCALE,
            rs.last() as int,
        )
    }
}

/// Weighted harmonic mean, floored. A zero score acts as an infinite
/// reciprocal term and forces the aggregate to zero; so does a zero total
/// weight.
pub open spec fn spec_harmonic(rs: Seq<u64>, ws: Seq<u64>) -> int {
    if rs.len() == 0 || has_zero_score(rs) {
        0
    } else {
        let u = sum_reciprocals(rs, ws);
        if u == 0 {
            0
        } else {
            sum_weights(ws) * SCALE * SCALE / u
        }
    }
}

/// The fractional exponent `w / total`, in fixed point (floored).
pub open spec fn frac_exponent(w: int, total: int) -> int {
    w * SCALE / total
}

/// Running fixed-point product of `pow_frac(score, weight / total)` over
/// the dimensions, with floored rounding after each factor.
pub open spec fn product_pow(rs: Seq<u64>, ws: Seq<u64>, total: int) -> int
    decreases rs.len(),
{
    if rs.len() == 0 || ws.len() == 0 {
        SCALE as int
    } else {
        product_pow(rs.drop_last(), ws.drop_last(), total) * spec_pow_frac(
            rs.last() as int,
            frac_exponent(ws.last() as int, total),
        ) / (SCALE as int)
    }
}

/// Whether some positively weighted dimension scored zero; such a
/// dimension vetoes the whole geometric mean.
pub open spec fn has_vetoing_zero(rs: Seq<u64>, ws: Seq<u64>) -> bool {
    exists|i: int| 0 <= i < rs.len() && rs[i] == 0 && i < ws.len() && ws[i] > 0
}

/// Weighted geometric mean, realized deterministically by binary-fraction
/// exponentiation with floored rounding.
pub open spec fn spec_multiplicative(rs: Seq<u64>, ws: Seq<u64>) -> int {
    if rs.len() == 0 || sum_weights(ws) == 0 {
        0
    } else if has_vetoing_zero(rs, ws) {
        0
    } else {
        product_pow(rs, ws, sum_weights(ws))
    }
}

/// The aggregate that a scheme assigns to parallel score and weight
/// lists.
pub open spec fn spec_blend(scheme: Scheme, rs: Seq<u64>, ws: Seq<u64>) -> int {
    match scheme {
        Scheme::Additive => spec_additive(rs, ws),
        Scheme::Multiplicative => spec_multiplicative(rs, ws),
        Scheme::Minimum => spec_minimum(rs),
        Scheme::Maximum => spec_maximum(rs),
        Scheme::Threshold => spec_threshold(rs, ws),
        Scheme::Harmonic => spec_harmonic(rs, ws),
    }
}

pub proof fn lemma_sum_weights_bounds(ws: Seq<u64>)
    requires
        all_weights_valid(ws),
    ensures
        0 <= sum_weights(ws) <= ws.len() * WEIGHT_MAX,
    decreases ws.len(),
{
    if ws.len() > 0 {
        assert(all_weights_valid(ws.drop_last()));
        lemma_sum_weights_bounds(ws.drop_last());
        assert((ws.len() - 1) * WEIGHT_MAX + WEIGHT_MAX == ws.len() * WEIGHT_MAX)
            by (nonlinear_arith);
    }
}

pub proof fn lemma_sum_contributions_bounds(rs: Seq<u64>, ws: Seq<u64>)
    requires
        rs.len() == ws.len(),
        all_scores_valid(rs),
        all_weights_valid(ws),
    ensures
        0 <= sum_contributions(rs, ws) <= SCALE * sum_weights(ws),
    decreases rs.len(),
{
    if rs.len() > 0 {
        assert(all_scores_valid(rs.drop_last()));
        assert(all_weights_valid(ws.drop_last()));
        lemma_sum_contributions_bounds(rs.drop_last(), ws.drop_last());
        assert(rs.last() * ws.last() <= SCALE * ws.last()) by (nonlinear_arith)
            requires rs.last() <= SCALE && 0 <= ws.last();
        assert(SCALE * sum_weights(ws.drop_last()) + SCALE * (ws.last() as int) == SCALE
            * sum_weights(ws)) by (nonlinear_arith)
            requires sum_weights(ws) == sum_weights(ws.drop_last()) + ws.last();
        assert(rs.last() * ws.last() >= 0) by (nonlinear_arith)
            requires 0 <= rs.last() && 0 <= ws.last();
    }
}

pub proof fn lemma_additive_in_range(rs: Seq<u64>, ws: Seq<u64>)
    requires
        rs.len() == ws.len(),
        all_scores_valid(rs),
        all_weights_valid(ws),
    ensures
        0 <= spec_additive(rs, ws) <= SCALE,
{
    lemma_sum_weights_bounds(ws);
    lemma_sum_contributions_bounds(rs, ws);
    let w = sum_weights(ws);
    let c = sum_contributions(rs, ws);
    if w != 0 {
        assert(0 <= c / w <= SCALE) by (nonlinear_arith)
            requires w > 0 && 0 <= c && c <= SCALE * w;
    }
}

/// Each reciprocal term is at least `SCALE` times its weight, so the sum
/// of reciprocals dominates `SCALE * sum_weights`.
pub proof fn lemma_sum_reciprocals_lower(rs: Seq<u64>, ws: Seq<u64>)
    requires
        rs.len() == ws.len(),
        all_scores_valid(rs),
        !has_zero_score(rs),
    ensures
        sum_reciprocals(rs, ws) >= SCALE * sum_weights(ws),
        sum_reciprocals(rs, ws) >= 0,
    decreases rs.len(),
{
    if rs.len() > 0 {
        assert(all_scores_valid(rs.drop_last()));
        assert(!has_zero_score(rs.drop_last())) by {
            if has_zero_score(rs.drop_last()) {
                let i = choose|i: int| 0 <= i < rs.drop_last().len() && rs.drop_last()[i] == 0;
                assert(rs[i] == 0);
            }
        }
        lemma_sum_reciprocals_lower(rs.drop_last(), ws.drop_last());
        let r = rs.last() as int;
        let w = ws.last() as int;
        assert(rs[rs.len() - 1] != 0);
        assert(r >= 1);
        assert(ceil_div(w * SCALE * SCALE, r) >= SCALE * w) by (nonlinear_arith)
            requires 1 <= r <= SCALE && 0 <= w;
        assert(SCALE * sum_weights(ws.drop_last()) + SCALE * w == SCALE * sum_weights(ws))
            by (nonlinear_arith)
            requires sum_weights(ws) == sum_weights(ws.drop_last()) + w;
    }
}

pub proof fn lemma_harmonic_in_range(rs: Seq<u64>, ws: Seq<u64>)
    requires
        rs.len() == ws.len(),
        all_scores_valid(rs),
        all_weights_valid(ws),
    ensures
        0 <= spec_harmonic(rs, ws) <= SCALE,
{
    if rs.len() > 0 && !has_zero_score(rs) {
        lemma_sum_reciprocals_lower(rs, ws);
        lemma_sum_weights_bounds(ws);
        let u = sum_reciprocals(rs, ws);
        let w = sum_weights(ws);
        if u != 0 {
            assert(0 <= w * SCALE * SCALE / u <= SCALE) by (nonlinear_arith)
                requires u > 0 && 0 <= w && u >= SCALE * w;
        }
    }
}

pub proof fn lemma_minimum_in_range(rs: Seq<u64>)
    requires
        all_scores_valid(rs),
    ensures
        0 <= spec_minimum(rs) <= SCALE,
    decreases rs.len(),
{
    if rs.len() > 1 {
        assert(all_scores_valid(rs.drop_last()));
        lemma_minimum_in_range(rs.drop_last());
    }
}

pub proof fn lemma_maximum_in_range(rs: Seq<u64>)
    requires
        all_scores_valid(rs),
    ensures
        0 <= spec_maximum(rs) <= SCALE,
    decreases rs.len(),
{
    if rs.len() > 0 {
        assert(all_scores_valid(rs.drop_last()));
        lemma_maximum_in_range(rs.drop_last());
    }
}

/// The minimum scheme never exceeds any individual dimension score.
pub proof fn lemma_minimum_le_each(rs: Seq<u64>, i: int)
    requires
        0 <= i < rs.len(),
    ensures
        spec_minimum(rs) <= rs[i],
    decreases rs.len(),
{
    if rs.len() > 1 {
        if i < rs.len() - 1 {
            lemma_minimum_le_each(rs.drop_last(), i);
        }
    }
}

/// The maximum scheme is at least every individual dimension score.
pub proof fn lemma_maximum_ge_each(rs: Seq<u64>, i: int)
    requires
        0 <= i < rs.len(),
    ensures
        spec_maximum(rs) >= rs[i],
    decreases rs.len(),
{
    if i < rs.len() - 1 {
        lemma_maximum_ge_each(rs.drop_last(), i);
    }
}

/// A single dimension under the additive scheme reproduces its raw score
/// exactly, whatever its positive weight.
pub proof fn lemma_additive_single_identity(r: u64, w: u64)
    requires
        w > 0,
    ensures
        spec_additive(seq![r], seq![w]) == r as int,
{
    let rs = seq![r];
    let ws = seq![w];
    assert(rs.drop_last() =~= Seq::<u64>::empty());
    assert(ws.drop_last() =~= Seq::<u64>::empty());
    assert(sum_weights(Seq::<u64>::empty()) == 0);
    assert(sum_contributions(Seq::<u64>::empty(), Seq::<u64>::empty()) == 0);
    assert(sum_weights(ws) == w as int);
    assert(sum_contributions(rs, ws) == (r as int) * (w as int));
    assert((r as int) * (w as int) / (w as int) == r as int) by (nonlinear_arith)
        requires w as int > 0;
}

pub fn additive(scores: &Vec<u64>, weights: &Vec<u64>) -> (r: u64)
    requires
        scores@.len() == weights@.len(),
        scores@.len() <= MAX_DIMENSIONS,
        all_scores_valid(scores@),
        all_weights_valid(weights@),
    ensures
        r as int == spec_additive(scores@, weights@),
        valid_score(r),
{
    let n = scores.len();
    let mut total_contribution: u128 = 0;
    let mut total_weight: u128 = 0;
    let mut i: usize = 0;
    while i < n
        invariant
            i <= n,
            n == scores@.len() == weights@.len(),
            n <= MAX_DIMENSIONS,
            all_scores_valid(scores@),
            all_weights_valid(weights@),
            total_contribution == sum_contributions(scores@.take(i as int), weights@.take(i as int)),
            total_weight == sum_weights(weights@.take(i as int)),
            total_contribution <= (i as int) * (SCALE as int) * (WEIGHT_MAX as int),
            total_weight <= (i as int) * (WEIGHT_MAX as int),
        decreases n - i,
    {
        proof {
            assert(scores@.take(i + 1).drop_last() =~= scores@.take(i as int));
            assert(weights@.take(i + 1).drop_last() =~= weights@.take(i as int));
            assert(scores@[i as int] * weights@[i as int] <= (SCALE as int) * (WEIGHT_MAX as int))
                by (nonlinear_arith)
                requires
                    scores@[i as int] <= SCALE,
                    weights@[i as int] <= WEIGHT_MAX;
            assert(scores@[i as int] * weights@[i as int] >= 0) by (nonlinear_arith)
                requires scores@[i as int] >= 0 && weights@[i as int] >= 0;
            assert((i as int) * (SCALE as int) * (WEIGHT_MAX as int) + (SCALE as int)
                * (WEIGHT_MAX as int) == ((i + 1) as int) * (SCALE as int) * (WEIGHT_MAX as int))
                by (nonlinear_arith);
            assert(((MAX_DIMENSIONS) as int) * (SCALE as int) * (WEIGHT_MAX as int) < u128::MAX)
               ;
            assert((i as int) * (SCALE as int) * (WEIGHT_MAX as int) <= ((MAX_DIMENSIONS) as int)
                * (SCALE as int) * (WEIGHT_MAX as int)) by (nonlinear_arith)
                requires 0 <= i as int <= MAX_DIMENSIONS as int;
            assert((i as int) * (WEIGHT_MAX as int) + WEIGHT_MAX as int == ((i + 1) as int)
                * (WEIGHT_MAX as int)) by (nonlinear_arith);
            assert((i as int) * (WEIGHT_MAX as int) <= (MAX_DIMENSIONS as int)
                * (WEIGHT_MAX as int)) by (nonlinear_arith)
                requires 0 <= i as int <= MAX_DIMENSIONS as int;
        }
        let contribution: u128 = (scores[i] as u128) * (weights[i] as u128);
        total_contribution = total_contribution + contribution;
        total_weight = total_weight + (weights[i] as u128);
        i = i + 1;
    }
    proof {
        assert(scores@.take(n as int) =~= scores@);
        assert(weights@.take(n as int) =~= weights@);
        lemma_additive_in_range(scores@, weights@);
    }
    if total_weight == 0 {
        0
    } else {
        (total_contribution / total_weight) as u64
    }
}

pub fn minimum(scores: &Vec<u64>) -> (r: u64)
    requires
        all_scores_valid(scores@),
    ensures
        r as int == spec_minimum(scores@),
        valid_score(r),
{
    if scores.len() == 0 {
        return 0;
    }
    let mut best: u64 = scores[0];
    let mut i: usize = 1;
    proof {
        assert(scores@.take(1).len() == 1);
        assert(scores@.take(1).last() == scores@[0]);
    }
    while i < scores.len()
        invariant
            1 <= i <= scores@.len(),
            all_scores_valid(scores@),
            best as int == spec_minimum(scores@.take(i as int)),
            best <= SCALE,
        decreases scores@.len() - i,
    {
        proof {
            assert(scores@.take(i + 1).drop_last() =~= scores@.take(i as int));
        }
        if scores[i] < best {
            best = scores[i];
        }
        i = i + 1;
    }
    proof {
        assert(scores@.take(scores@.len() as int) =~= scores@);
    }
    best
}

pub fn maximum(scores: &Vec<u64>) -> (r: u64)
    requires
        all_scores_valid(scores@),
    ensures
        r as int == spec_maximum(scores@),
        valid_score(r),
{
    let mut best: u64 = 0;
    let mut i: usize = 0;
    while i < scores.len()
        invariant
            i <= scores@.len(),
            all_scores_valid(scores@),
            best as int == spec_maximum(scores@.take(i as int)),
            best <= SCALE,
        decreases scores@.len() - i,
    {
        proof {
            assert(scores@.take(i + 1).drop_last() =~= scores@.take(i as int));
        }
        if scores[i] > best {
            best = scores[i];
        }
        i = i + 1;
    }
    proof {
        assert(scores@.take(scores@.len() as int) =~= scores@);
    }
    best
}

pub fn threshold(scores: &Vec<u64>, weights: &Vec<u64>) -> (r: u64)
    requires
        scores@.len() == weights@.len(),
        scores@.len() <= MAX_DIMENSIONS,
        all_scores_valid(scores@),
        all_weights_valid(weights@),
    ensures
        r as int == spec_threshold(scores@, weights@),
        valid_score(r),
{
    let mut i: usize = 0;
    while i < scores.len()
        invariant
            i <= scores@.len(),
            scores@.len() == weights@.len(),
            scores@.len() <= MAX_DIMENSIONS,
            all_scores_valid(scores@),
            all_weights_valid(weights@),
            forall|j: int| 0 <= j < i ==> #[trigger] scores@[j] >= THRESHOLD_GATE,
        decreases scores@.len() - i,
    {
        if scores[i] < THRESHOLD_GATE {
            return 0;
        }
        i = i + 1;
    }
    additive(scores, weights)
}

pub fn harmonic(scores: &Vec<u64>, weights: &Vec<u64>) -> (r: u64)
    requires
        scores@.len() == weights@.len(),
        scores@.len() <= MAX_DIMENSIONS,
        all_scores_valid(scores@),
        all_weights_valid(weights@),
    ensures
        r as int == spec_harmonic(scores@, weights@),
        valid_score(r),
{
    if scores.len() == 0 {
        return 0;
    }
    let n = scores.len();
    let mut total_reciprocal: u128 = 0;
    let mut total_weight: u128 = 0;
    let mut i: usize = 0;
    while i < n
        invariant
            i <= n,
            n == scores@.len() == weights@.len(),
            n <= MAX_DIMENSIONS,
            all_scores_valid(scores@),
            all_weights_valid(weights@),
            forall|j: int| 0 <= j < i ==> #[trigger] scores@[j] != 0,
            total_reciprocal == sum_reciprocals(scores@.take(i as int), weights@.take(i as int)),
            total_weight == sum_weights(weights@.take(i as int)),
            total_reciprocal <= (i as int) * (WEIGHT_MAX as int) * (SCALE as int) * (SCALE as int),
            total_weight <= (i as int) * (WEIGHT_MAX as int),
        decreases n - i,
    {
        if scores[i] == 0 {
            return 0;
        }
        proof {
            assert(scores@.take(i + 1).drop_last() =~= scores@.take(i as int));
            assert(weights@.take(i + 1).drop_last() =~= weights@.take(i as int));
            let w = weights@[i as int] as int;
            let s = scores@[i as int] as int;
            assert(0 <= ceil_div(w * SCALE * SCALE, s) <= (WEIGHT_MAX as int) * (SCALE as int)
                * (SCALE as int)) by (nonlinear_arith)
                requires 1 <= s && 0 <= w <= WEIGHT_MAX;
            assert((i as int) * (WEIGHT_MAX as int) * (SCALE as int) * (SCALE as int)
                + (WEIGHT_MAX as int) * (SCALE as int) * (SCALE as int) == ((i + 1) as int)
                * (WEIGHT_MAX as int) * (SCALE as int) * (SCALE as int)) by (nonlinear_arith);
            assert((MAX_DIMENSIONS as int) * (WEIGHT_MAX as int) * (SCALE as int) * (SCALE as int)
                < u128::MAX);
            assert((i as int) * (WEIGHT_MAX as int) * (SCALE as int) * (SCALE as int)
                <= (MAX_DIMENSIONS as int) * (WEIGHT_MAX as int) * (SCALE as int) * (SCALE as int))
                by (nonlinear_arith)
                requires 0 <= i as int <= MAX_DIMENSIONS as int;
            assert((i as int) * (WEIGHT_MAX as int) + WEIGHT_MAX as int == ((i + 1) as int)
                * (WEIGHT_MAX as int)) by (nonlinear_arith);
            assert((i as int) * (WEIGHT_MAX as int) <= (MAX_DIMENSIONS as int)
                * (WEIGHT_MAX as int)) by (nonlinear_arith)
                requires 0 <= i as int <= MAX_DIMENSIONS as int;
        }
        let numerator: u128 = (weights[i] as u128) * (SCALE as u128) * (SCALE as u128);
        let term: u128 = (numerator + (scores[i] as u128) - 1) / (scores[i] as u128);
        total_reciprocal = total_reciprocal + term;
        total_weight = total_weight + (weights[i] as u128);
        i = i + 1;
    }
    proof {
        assert(scores@.take(n as int) =~= scores@);
        assert(weights@.take(n as int) =~= weights@);
        assert(!has_zero_score(scores@));
        lemma_harmonic_in_range(scores@, weights@);
        lemma_sum_weights_bounds(weights@);
        assert((MAX_DIMENSIONS as int) * (WEIGHT_MAX as int) * (SCALE as int) * (SCALE as int)
            < u128::MAX);
    }
    if total_reciprocal == 0 {
        0
    } else {
        ((total_weight * (SCALE as u128) * (SCALE as u128)) / total_reciprocal) as u64
    }
}

pub fn multiplicative(scores: &Vec<u64>, weights: &Vec<u64>) -> (r: u64)
    requires
        scores@.len() == weights@.len(),
        scores@.len() <= MAX_DIMENSIONS,
        all_scores_valid(scores@),
        all_weights_valid(weights@),
    ensures
        r as int == spec_multiplicative(scores@, weights@),
        valid_score(r),
{
    if scores.len() == 0 {
        return 0;
    }
    let n = scores.len();
    let mut total_weight: u128 = 0;
    let mut i: usize = 0;
    while i < n
        invariant
            i <= n,
            n == scores@.len() == weights@.len(),
            n <= MAX_DIMENSIONS,
            all_weights_valid(weights@),
            total_weight == sum_weights(weights@.take(i as int)),
            total_weight <= (i as int) * (WEIGHT_MAX as int),
        decreases n - i,
    {
        proof {
            assert(weights@.take(i + 1).drop_last() =~= weights@.take(i as int));
            assert((i as int) * (WEIGHT_MAX as int) + WEIGHT_MAX as int == ((i + 1) as int)
                * (WEIGHT_MAX as int)) by (nonlinear_arith);
            assert((i as int) * (WEIGHT_MAX as int) <= (MAX_DIMENSIONS as int)
                * (WEIGHT_MAX as int)) by (nonlinear_arith)
                requires 0 <= i as int <= MAX_DIMENSIONS as int;
            assert((MAX_DIMENSIONS as int) * (WEIGHT_MAX as int) < u128::MAX);
        }
        total_weight = total_weight + (weights[i] as u128);
        i = i + 1;
    }
    proof {
        assert(weights@.take(n as int) =~= weights@);
    }
    if total_weight == 0 {
        return 0;
    }
    let mut j: usize = 0;
    while j < n
        invariant
            j <= n,
            n == scores@.len() == weights@.len(),
            forall|k: int|
                0 <= k < j ==> !(scores@[k] == 0 && #[trigger] weights@[k] > 0),
        decreases n - j,
    {
        if scores[j] == 0 && weights[j] > 0 {
            proof {
                assert(has_vetoing_zero(scores@, weights@));
            }
            return 0;
        }
        j = j + 1;
    }
    proof {
        assert(!has_vetoing_zero(scores@, weights@));
    }
    let mut acc: u64 = SCALE;
    let mut i2: usize = 0;
    while i2 < n
        invariant
            i2 <= n,
            n == scores@.len() == weights@.len(),
            all_scores_valid(scores@),
            all_weights_valid(weights@),
            total_weight == sum_weights(weights@),
            total_weight > 0,
            acc as int == product_pow(scores@.take(i2 as int), weights@.take(i2 as int),
                total_weight as int),
            acc <= SCALE,
        decreases n - i2,
    {
        proof {
            assert(scores@.take(i2 + 1).drop_last() =~= scores@.take(i2 as int));
            assert(weights@.take(i2 + 1).drop_last() =~= weights@.take(i2 as int));
            lemma_sum_weights_bounds(weights@);
            assert(weights@[i2 as int] as int <= sum_weights(weights@)) by {
                lemma_weight_le_sum(weights@, i2 as int);
            }
            assert((weights@[i2 as int] as int) * (SCALE as int) / (total_weight as int)
                <= SCALE as int) by (nonlinear_arith)
                requires
                    total_weight as int > 0,
                    0 <= weights@[i2 as int] as int <= total_weight as int;
            assert((weights@[i2 as int] as int) * (SCALE as int) >= 0) by (nonlinear_arith)
                requires weights@[i2 as int] as int >= 0;
        }
        let exponent_wide: u128 = ((weights[i2] as u128) * (SCALE as u128)) / total_weight;
        let exponent: u64 = exponent_wide as u64;
        let factor = pow_frac(scores[i2], exponent);
        proof {
            assert((acc as int) * (factor as int) / (SCALE as int) <= acc as int)
                by (nonlinear_arith)
                requires 0 <= acc as int && 0 <= factor as int <= SCALE as int;
            assert((acc as int) * (factor as int) >= 0) by (nonlinear_arith)
                requires 0 <= acc as int && 0 <= factor as int;
        }
        let wide: u128 = (acc as u128) * (factor as u128);
        acc = (wide / (SCALE as u128)) as u64;
        i2 = i2 + 1;
    }
    proof {
        assert(scores@.take(n as int) =~= scores@);
        assert(weights@.take(n as int) =~= weights@);
    }
    acc
}

pub proof fn lemma_sum_weights_nonneg(ws: Seq<u64>)
    ensures
        sum_weights(ws) >= 0,
    decreases ws.len(),
{
    if ws.len() > 0 {
        lemma_sum_weights_nonneg(ws.drop_last());
    }
}

pub proof fn lemma_weight_le_sum(ws: Seq<u64>, i: int)
    requires
        0 <= i < ws.len(),
    ensures
        ws[i] as int <= sum_weights(ws),
    decreases ws.len(),
{
    if i < ws.len() - 1 {
        lemma_weight_le_sum(ws.drop_last(), i);
    } else {
        lemma_sum_weights_nonneg(ws.drop_last());
    }
}

/// Reduces parallel score and weight lists to one aggregate under the
/// given scheme. The result is exactly the scheme's spec-level reduction
/// and always a valid score; degenerate inputs resolve to zero.
pub fn blend(scheme: &Scheme, scores: &Vec<u64>, weights: &Vec<u64>) -> (r: u64)
    requires
        scores@.len() == weights@.len(),
        scores@.len() <= MAX_DIMENSIONS,
        all_scores_valid(scores@),
        all_weights_valid(weights@),
    ensures
        r as int == spec_blend(*scheme, scores@, weights@),
        valid_score(r),
{
    match scheme {
        Scheme::Additive => additive(scores, weights),
        Scheme::Multiplicative => multiplicative(scores, weights),
        Scheme::Minimum => minimum(scores),
        Scheme::Maximum => maximum(scores),
        Scheme::Threshold => threshold(scores, weights),
        Scheme::Harmonic => harmonic(scores, weights),
    }
}

/// A nonnegative ceiling division covers its numerator.
proof fn lemma_ceil_covers(x: int, a: int)
    requires
        x >= 0,
        a >= 1,
    ensures
        ceil_div(x, a) * a >= x,
        ceil_div(x, a) >= 0,
{
    let u = (x + a - 1) / a;
    vstd::arithmetic::div_mod::lemma_fundamental_div_mod(x + a - 1, a);
    vstd::arithmetic::div_mod::lemma_mod_bound(x + a - 1, a);
    assert(a * u == (x + a - 1) - (x + a - 1) % a);
    assert(a * u >= x);
    assert(u * a == a * u) by (nonlinear_arith);
    assert(u >= 0) by (nonlinear_arith)
        requires a >= 1 && a * u >= x && x >= 0;
}

/// Integers ordered by their squares are ordered themselves.
proof fn lemma_sqrt_monotone(x: int, y: int)
    requires
        x >= 0,
        y >= 0,
        x * x <= y * y,
    ensures
        x <= y,
{
    assert(x <= y) by (nonlinear_arith)
        requires x >= 0 && y >= 0 && x * x <= y * y;
}

/// The integer Cauchy-Schwarz bound behind the harmonic-additive
/// ordering: the squared scaled weight total is covered by the product
/// of the contribution total and the reciprocal total.
proof fn lemma_cauchy_schwarz(rs: Seq<u64>, ws: Seq<u64>)
    requires
        rs.len() == ws.len(),
        all_scores_valid(rs),
        all_weights_valid(ws),
        !has_zero_score(rs),
    ensures
        (SCALE * SCALE) * (sum_weights(ws) * sum_weights(ws)) <= sum_contributions(rs, ws)
            * sum_reciprocals(rs, ws),
    decreases rs.len(),
{
    let s2 = (SCALE as int) * (SCALE as int);
    assert(s2 > 0) by (nonlinear_arith)
        requires s2 == (SCALE as int) * (SCALE as int) && SCALE as int >= 1;
    if rs.len() == 0 {
        assert(s2 * (sum_weights(ws) * sum_weights(ws)) == 0) by (nonlinear_arith)
            requires sum_weights(ws) == 0;
    } else {
        let rs0 = rs.drop_last();
        let ws0 = ws.drop_last();
        assert(all_scores_valid(rs0));
        assert(all_weights_valid(ws0));
        assert(!has_zero_score(rs0)) by {
            if has_zero_score(rs0) {
                let i = choose|i: int| 0 <= i < rs0.len() && rs0[i] == 0;
                assert(rs[i] == 0);
            }
        }
        lemma_cauchy_schwarz(rs0, ws0);
        lemma_sum_contributions_bounds(rs0, ws0);
        lemma_sum_reciprocals_lower(rs0, ws0);
        lemma_sum_weights_bounds(ws0);
        let a = rs.last() as int;
        let w = ws.last() as int;
        assert(rs[rs.len() - 1] != 0);
        assert(a >= 1);
        assert(w >= 0);
        assert(w * SCALE * SCALE == w * s2) by (nonlinear_arith)
            requires s2 == (SCALE as int) * (SCALE as int);
        assert(w * s2 >= 0) by (nonlinear_arith)
            requires w >= 0 && s2 > 0;
        lemma_ceil_covers(w * s2, a);
        let u = ceil_div(w * SCALE * SCALE, a);
        assert(u == ceil_div(w * s2, a));
        assert(u * a >= w * s2);
        assert(u >= 0);
        let big_w = sum_weights(ws0);
        let big_a = sum_contributions(rs0, ws0);
        let big_u = sum_reciprocals(rs0, ws0);
        assert(sum_weights(ws) == big_w + w);
        assert(sum_contributions(rs, ws) == big_a + a * w) by {
            assert(rs.last() * ws.last() == a * w) by (nonlinear_arith)
                requires a == rs.last() as int && w == ws.last() as int;
        }
        assert(sum_reciprocals(rs, ws) == big_u + u);
        assert(big_a >= 0);
        assert(big_u >= 0);
        assert(big_w >= 0);
        let ih = big_a * big_u;
        assert(ih >= s2 * (big_w * big_w));
        // (A s2 - a^2 U)^2 >= 0 gives (A s2 + a^2 U)^2 >= 4 a^2 s2 (A U).
        let x = big_a * s2 + (a * a) * big_u;
        let y = 2 * (a * s2 * big_w);
        assert(x * x >= 4 * ((a * a) * s2) * ih) by (nonlinear_arith)
            requires x == big_a * s2 + (a * a) * big_u && ih == big_a * big_u && s2 > 0;
        assert(4 * ((a * a) * s2) * ih >= 4 * ((a * a) * s2) * (s2 * (big_w * big_w)))
            by (nonlinear_arith)
            requires ih >= s2 * (big_w * big_w) && a >= 1 && s2 > 0;
        assert(y * y == 4 * ((a * a) * s2) * (s2 * (big_w * big_w))) by (nonlinear_arith)
            requires y == 2 * (a * s2 * big_w);
        assert(x >= 0) by (nonlinear_arith)
            requires x == big_a * s2 + (a * a) * big_u && big_a >= 0 && big_u >= 0 && s2 > 0
                && a >= 1;
        assert(y >= 0) by (nonlinear_arith)
            requires y == 2 * (a * s2 * big_w) && a >= 1 && s2 > 0 && big_w >= 0;
        assert(x * x >= y * y);
        lemma_sqrt_monotone(y, x);
        // Multiply x >= y by w and a, and combine with the other terms.
        assert(w * x >= w * y) by (nonlinear_arith)
            requires x >= y && w >= 0;
        assert((big_a * u) * a >= (big_a * s2) * w) by (nonlinear_arith)
            requires u * a >= w * s2 && big_a >= 0;
        assert(((big_a * u) + (a * w) * big_u) * a >= (w * x) ) by (nonlinear_arith)
            requires (big_a * u) * a >= (big_a * s2) * w && x == big_a * s2 + (a * a) * big_u
                && w >= 0 && big_u >= 0 && a >= 1;
        assert(((big_a * u) + (a * w) * big_u) * a >= (2 * (s2 * big_w * w)) * a)
            by (nonlinear_arith)
            requires ((big_a * u) + (a * w) * big_u) * a >= w * x && w * x >= w * y && y == 2 * (
            a * s2 * big_w);
        assert((big_a * u) + (a * w) * big_u >= 2 * (s2 * big_w * w)) by (nonlinear_arith)
            requires ((big_a * u) + (a * w) * big_u) * a >= (2 * (s2 * big_w * w)) * a && a >= 1;
        assert((a * w) * u >= s2 * (w * w)) by (nonlinear_arith)
            requires u * a >= w * s2 && w >= 0;
        assert((big_a + a * w) * (big_u + u) == big_a * big_u + ((big_a * u) + (a * w) * big_u)
            + (a * w) * u) by (nonlinear_arith);
        assert(s2 * ((big_w + w) * (big_w + w)) == s2 * (big_w * big_w) + 2 * (s2 * big_w * w)
            + s2 * (w * w)) by (nonlinear_arith);
        assert((big_a + a * w) * (big_u + u) >= s2 * ((big_w + w) * (big_w + w)));
        assert((SCALE * SCALE) * (sum_weights(ws) * sum_weights(ws)) == s2 * ((big_w + w) * (
        big_w + w)));
    }
}

/// When every weight totals to nothing, so do the reciprocal terms.
proof fn lemma_zero_weights_zero_reciprocals(rs: Seq<u64>, ws: Seq<u64>)
    requires
        rs.len() == ws.len(),
        all_scores_valid(rs),
        !has_zero_score(rs),
        sum_weights(ws) == 0,
    ensures
        sum_reciprocals(rs, ws) == 0,
    decreases rs.len(),
{
    if rs.len() > 0 {
        lemma_sum_weights_nonneg(ws.drop_last());
        assert(ws.last() == 0);
        assert(sum_weights(ws.drop_last()) == 0);
        assert(!has_zero_score(rs.drop_last())) by {
            if has_zero_score(rs.drop_last()) {
                let i = choose|i: int| 0 <= i < rs.drop_last().len() && rs.drop_last()[i] == 0;
                assert(rs[i] == 0);
            }
        }
        assert(all_scores_valid(rs.drop_last()));
        lemma_zero_weights_zero_reciprocals(rs.drop_last(), ws.drop_last());
        let a = rs.last() as int;
        assert(rs[rs.len() - 1] != 0);
        assert(ceil_div(0 * SCALE * SCALE, a) == 0) by (nonlinear_arith)
            requires a >= 1;
    }
}

/// The harmonic aggregate never exceeds the additive aggregate of the
/// same scores and weights.
pub proof fn lemma_harmonic_le_additive(rs: Seq<u64>, ws: Seq<u64>)
    requires
        rs.len() == ws.len(),
        all_scores_valid(rs),
        all_weights_valid(ws),
    ensures
        spec_harmonic(rs, ws) <= spec_additive(rs, ws),
{
    lemma_additive_in_range(rs, ws);
    if rs.len() == 0 || has_zero_score(rs) {
    } else {
        let u = sum_reciprocals(rs, ws);
        let w = sum_weights(ws);
        let a = sum_contributions(rs, ws);
        let s2 = (SCALE as int) * (SCALE as int);
        lemma_sum_weights_bounds(ws);
        lemma_sum_reciprocals_lower(rs, ws);
        lemma_sum_contributions_bounds(rs, ws);
        if u != 0 {
            if w == 0 {
                lemma_zero_weights_zero_reciprocals(rs, ws);
                assert(false);
            }
            lemma_cauchy_schwarz(rs, ws);
            assert((SCALE * SCALE) * (w * w) <= a * u);
            let h = w * SCALE * SCALE / u;
            assert(u > 0) by (nonlinear_arith)
                requires u >= SCALE * w && w >= 1 && SCALE as int >= 1;
            assert(w * SCALE * SCALE == w * s2) by (nonlinear_arith)
                requires s2 == (SCALE as int) * (SCALE as int);
            assert(h * u <= w * s2) by {
                vstd::arithmetic::div_mod::lemma_fundamental_div_mod(w * s2, u);
                vstd::arithmetic::div_mod::lemma_mod_bound(w * s2, u);
                assert(u * h == w * s2 - (w * s2) % u);
                assert(h * u == u * h) by (nonlinear_arith);
            }
            assert(h >= 0) by {
                assert(w * s2 >= 0) by (nonlinear_arith)
                    requires w >= 0 && s2 > 0;
                assert(h >= 0) by (nonlinear_arith)
                    requires h == w * s2 / u && u > 0 && w * s2 >= 0;
            }
            assert((h * u) * w <= (w * s2) * w) by (nonlinear_arith)
                requires h * u <= w * s2 && w >= 0;
            assert((w * s2) * w == s2 * (w * w)) by (nonlinear_arith);
            assert(s2 * (w * w) == (SCALE * SCALE) * (w * w)) by (nonlinear_arith)
                requires s2 == (SCALE as int) * (SCALE as int);
            assert((h * u) * w == (h * w) * u) by (nonlinear_arith);
            assert((h * w) * u <= a * u);
            assert(h * w <= a) by (nonlinear_arith)
                requires (h * w) * u <= a * u && u > 0;
            assert(h <= a / w) by (nonlinear_arith)
                requires h * w <= a && w > 0;
        }
    }
}

/// A full unit raised to any fractional power stays a full unit at
/// every step of the binary-fraction loop.
proof fn lemma_pow_step_unit(rem: int, acc: int, k: nat)
    ensures
        acc == SCALE as int ==> crate::fixed::spec_pow_step(SCALE as int, rem, acc, k)
            == SCALE as int,
    decreases k,
{
    if k > 0 {
        let s = SCALE as int;
        crate::fixed::lemma_isqrt(s * s);
        crate::fixed::lemma_isqrt_unique(s * s, crate::fixed::spec_isqrt(s * s), s);
        assert(crate::fixed::is_isqrt(s * s, s)) by (nonlinear_arith)
            requires s >= 1;
        if acc == s {
            assert(s * s / s == s) by (nonlinear_arith)
                requires s >= 1;
            let doubled = rem * 2;
            if doubled >= s {
                lemma_pow_step_unit(doubled - s, s, (k - 1) as nat);
            } else {
                lemma_pow_step_unit(doubled, s, (k - 1) as nat);
            }
        }
    }
}

/// A full unit raised to any fractional power is a full unit.
pub proof fn lemma_pow_frac_unit(f: int)
    ensures
        spec_pow_frac(SCALE as int, f) == SCALE as int,
{
    lemma_pow_step_unit(f, SCALE as int, crate::fixed::FRAC_BITS as nat);
}

/// When every dimension scores a full unit, so does their running
/// fixed-point product.
proof fn lemma_product_pow_unit(rs: Seq<u64>, ws: Seq<u64>, total: int)
    requires
        rs.len() == ws.len(),
        forall|i: int| 0 <= i < rs.len() ==> #[trigger] rs[i] == SCALE,
    ensures
        product_pow(rs, ws, total) == SCALE as int,
    decreases rs.len(),
{
    if rs.len() > 0 {
        assert(forall|i: int| 0 <= i < rs.drop_last().len() ==> #[trigger] rs.drop_last()[i]
            == SCALE);
        lemma_product_pow_unit(rs.drop_last(), ws.drop_last(), total);
        assert(rs[rs.len() - 1] == SCALE);
        lemma_pow_frac_unit(frac_exponent(ws.last() as int, total));
        assert((SCALE as int) * (SCALE as int) / (SCALE as int) == SCALE as int)
            by (nonlinear_arith)
            requires SCALE as int >= 1;
    }
}

/// A candidate that every dimension judges a full unit keeps a full
/// unit under the multiplicative scheme, whenever any weight is
/// positive.
pub proof fn lemma_multiplicative_all_perfect(rs: Seq<u64>, ws: Seq<u64>)
    requires
        rs.len() == ws.len(),
        rs.len() > 0,
        sum_weights(ws) > 0,
        forall|i: int| 0 <= i < rs.len() ==> #[trigger] rs[i] == SCALE,
    ensures
        spec_multiplicative(rs, ws) == SCALE as int,
{
    assert(!has_vetoing_zero(rs, ws)) by {
        if has_vetoing_zero(rs, ws) {
            let i = choose|i: int|
                0 <= i < rs.len() && rs[i] == 0 && i < ws.len() && ws[i] > 0;
        }
    }
    lemma_product_pow_unit(rs, ws, sum_weights(ws));
}

/// A zero score on any positively weighted dimension vetoes the whole
/// multiplicative aggregate.
pub proof fn lemma_multiplicative_zero_veto(rs: Seq<u64>, ws: Seq<u64>, i: int)
    requires
        0 <= i < rs.len(),
        i < ws.len(),
        rs[i] == 0,
        ws[i] > 0,
    ensures
        spec_multiplicative(rs, ws) == 0,
{
    assert(has_vetoing_zero(rs, ws));
}

} // verus!
