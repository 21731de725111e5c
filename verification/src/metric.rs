//! The closed union of the library's scoring capabilities, including the
//! recursive composite combinator: a composite is itself a capability, so
//! combinators nest into trees.

use vstd::prelude::*;
use crate::capability::Capability;
use crate::cosine::{CosineScorer, lemma_cosine_bounds};
use crate::exact::{ExactMatchScorer, CaseInsensitiveScorer};
use crate::fuzzy::{EditDistanceScorer, SimpleLevenshteinMetric, lemma_edit_score_bounds,
    lemma_length_gap_bounds};
use crate::jaccard::{JaccardMetric, lemma_jaccard_bounds};
use crate::lexical::{TokenSimilarityScorer, AcronymScorer, lemma_token_similarity_bounds};
use crate::ngram::{NGramScorer, lemma_dice_bounds};
use crate::phonetic::{PhoneticScorer, SoundexSimilarity, lemma_phonetic_score_bounds,
    lemma_soundex_score_bounds};
use crate::scheme::{spec_additive, spec_maximum, all_scores_valid, all_weights_valid,
    lemma_additive_in_range, lemma_maximum_in_range};
use crate::score::{Measurement, MetricFailure, SCALE, WEIGHT_ONE, MAX_DIMENSIONS, STRING_MAX,
    valid_score};
use crate::structural::{PrefixScorer, SuffixScorer, SubstringScorer, lemma_capped_ratio_bounds};

verus! {

/// How a composite reduces its children's scores.
pub enum CompositeStrategy {
    /// The highest child score wins.
    Maximum,
    /// The unweighted mean of the child scores.
    Average,
    /// The first child scoring at or above the threshold wins; failing
    /// that, the last child's score stands.
    Fallback(u64),
    /// Position-indexed weights; positions beyond the vector weigh one
    /// full unit.
    Weighted(Vec<u64>),
}

impl CompositeStrategy {
    /// Weights stay within range.
    pub open spec fn wf(&self) -> bool {
        match self {
            CompositeStrategy::Weighted(ws) => all_weights_valid(ws@),
            _ => true,
        }
    }
}

/// A capability built from several child capabilities under one
/// sub-strategy.
pub struct CompositeMetric {
    /// The reduction strategy.
    pub strategy: CompositeStrategy,
    /// The child capabilities.
    pub children: Vec<Metric>,
}

/// One of the library's scoring capabilities.
pub enum Metric {
    /// Exact string equality.
    Exact(ExactMatchScorer),
    /// Case-insensitive equality.
    CaseInsensitive(CaseInsensitiveScorer),
    /// Prefix containment.
    Prefix(PrefixScorer),
    /// Suffix containment.
    Suffix(SuffixScorer),
    /// Substring containment.
    Substring(SubstringScorer),
    /// Normalized edit distance.
    Edit(EditDistanceScorer),
    /// Length-gap similarity.
    LengthGap(SimpleLevenshteinMetric),
    /// N-gram Dice overlap.
    Ngram(NGramScorer),
    /// Cosine similarity over n-gram counts.
    Cosine(CosineScorer),
    /// Character-set Jaccard overlap.
    Jaccard(JaccardMetric),
    /// Best-match token similarity.
    Tokens(TokenSimilarityScorer),
    /// Acronym detection.
    Acronym(AcronymScorer),
    /// Soundex code comparison.
    Phonetic(PhoneticScorer),
    /// Classic Soundex similarity.
    Soundex(SoundexSimilarity),
    /// A nested composite of further metrics.
    Composite(CompositeMetric),
}

/// Configuration well-formedness of a metric tree.
pub open spec fn metric_wf(m: Metric) -> bool
    decreases m,
{
    match m {
        Metric::Ngram(s) => s.wf(),
        Metric::Cosine(s) => s.wf(),
        Metric::Soundex(s) => s.wf(),
        Metric::Composite(comp) => comp.strategy.wf() && comp.children@.len() <= MAX_DIMENSIONS
            && (forall|i: int|
            0 <= i < comp.children@.len() ==> metric_wf(#[trigger] comp.children@[i])),
        _ => true,
    }
}

/// The score a metric assigns to a pair.
pub open spec fn metric_score(m: Metric, q: Seq<char>, c: Seq<char>) -> u64
    decreases m, 1int,
{
    match m {
        Metric::Exact(s) => s.spec_score(q, c),
        Metric::CaseInsensitive(s) => s.spec_score(q, c),
        Metric::Prefix(s) => s.spec_score(q, c),
        Metric::Suffix(s) => s.spec_score(q, c),
        Metric::Substring(s) => s.spec_score(q, c),
        Metric::Edit(s) => s.spec_score(q, c),
        Metric::LengthGap(s) => s.spec_score(q, c),
        Metric::Ngram(s) => s.spec_score(q, c),
        Metric::Cosine(s) => s.spec_score(q, c),
        Metric::Jaccard(s) => s.spec_score(q, c),
        Metric::Tokens(s) => s.spec_score(q, c),
        Metric::Acronym(s) => s.spec_score(q, c),
        Metric::Phonetic(s) => s.spec_score(q, c),
        Metric::Soundex(s) => s.spec_score(q, c),
        Metric::Composite(comp) => composite_score(comp.strategy, children_scores(
            comp.children@,
            q,
            c,
        )) as u64,
    }
}

/// The perfect flag a metric reports for a pair.
pub open spec fn metric_perfect(m: Metric, q: Seq<char>, c: Seq<char>) -> bool
    decreases m, 1int,
{
    match m {
        Metric::Exact(s) => s.spec_perfect(q, c),
        Metric::CaseInsensitive(s) => s.spec_perfect(q, c),
        Metric::Prefix(s) => s.spec_perfect(q, c),
        Metric::Suffix(s) => s.spec_perfect(q, c),
        Metric::Substring(s) => s.spec_perfect(q, c),
        Metric::Edit(s) => s.spec_perfect(q, c),
        Metric::LengthGap(s) => s.spec_perfect(q, c),
        Metric::Ngram(s) => s.spec_perfect(q, c),
        Metric::Cosine(s) => s.spec_perfect(q, c),
        Metric::Jaccard(s) => s.spec_perfect(q, c),
        Metric::Tokens(s) => s.spec_perfect(q, c),
        Metric::Acronym(s) => s.spec_perfect(q, c),
        Metric::Phonetic(s) => s.spec_perfect(q, c),
        Metric::Soundex(s) => s.spec_perfect(q, c),
        Metric::Composite(comp) => children_any_perfect(comp.children@, q, c),
    }
}

/// The scores the children of a composite assign, in order.
pub open spec fn children_scores(children: Seq<Metric>, q: Seq<char>, c: Seq<char>) -> Seq<u64>
    decreases children, 0int,
{
    if children.len() == 0 {
        Seq::empty()
    } else {
        children_scores(children.drop_last(), q, c).push(metric_score(children.last(), q, c))
    }
}

/// Whether any child reports a perfect match.
pub open spec fn children_any_perfect(children: Seq<Metric>, q: Seq<char>, c: Seq<char>) -> bool
    decreases children, 0int,
{
    if children.len() == 0 {
        false
    } else {
        children_any_perfect(children.drop_last(), q, c) || metric_perfect(children.last(), q, c)
    }
}

/// Weights of one full unit for every position.
pub open spec fn unit_weights(n: int) -> Seq<u64> {
    Seq::new(n as nat, |i: int| WEIGHT_ONE)
}

/// Position-indexed weights padded with one full unit beyond the
/// vector.
pub open spec fn padded_weights(ws: Seq<u64>, n: int) -> Seq<u64> {
    Seq::new(
        n as nat,
        |i: int|
            if i < ws.len() {
                ws[i]
            } else {
                WEIGHT_ONE
            },
    )
}

/// The first score at or above the threshold, else the last score.
pub open spec fn spec_fallback(scores: Seq<u64>, threshold: u64, i: int) -> int
    decreases scores.len() - i,
{
    if i < 0 || i >= scores.len() - 1 {
        scores.last() as int
    } else if scores[i] >= threshold {
        scores[i] as int
    } else {
        spec_fallback(scores, threshold, i + 1)
    }
}

/// How a composite strategy reduces its children's scores; no children
/// reduce to zero.
pub open spec fn composite_score(strategy: CompositeStrategy, scores: Seq<u64>) -> int {
    if scores.len() == 0 {
        0
    } else {
        match strategy {
            CompositeStrategy::Maximum => spec_maximum(scores),
            CompositeStrategy::Average => spec_additive(scores, unit_weights(scores.len() as int)),
            CompositeStrategy::Fallback(threshold) => spec_fallback(scores, threshold, 0),
            CompositeStrategy::Weighted(ws) => spec_additive(
                scores,
                padded_weights(ws@, scores.len() as int),
            ),
        }
    }
}

/// Every well-formed metric's score stays within one unit.
pub proof fn lemma_metric_score_bounds(m: Metric, q: Seq<char>, c: Seq<char>)
    requires
        metric_wf(m),
    ensures
        metric_score(m, q, c) <= SCALE,
    decreases m, 2int,
{
    match m {
        Metric::Exact(s) => {},
        Metric::CaseInsensitive(s) => {},
        Metric::Prefix(s) => {
            lemma_capped_ratio_bounds(crate::structural::PREFIX_FACTOR, q.len() as int,
                c.len() as int);
        },
        Metric::Suffix(s) => {
            lemma_capped_ratio_bounds(crate::structural::SUFFIX_FACTOR, q.len() as int,
                c.len() as int);
        },
        Metric::Substring(s) => {
            lemma_capped_ratio_bounds(crate::structural::SUBSTRING_FACTOR, q.len() as int,
                c.len() as int);
        },
        Metric::Edit(s) => {
            lemma_edit_score_bounds(q, c);
        },
        Metric::LengthGap(s) => {
            lemma_length_gap_bounds(q, c);
        },
        Metric::Ngram(s) => {
            lemma_dice_bounds(
                crate::ngram::spec_ngrams(crate::chars::lower_of(q), s.n as int),
                crate::ngram::spec_ngrams(crate::chars::lower_of(c), s.n as int),
            );
        },
        Metric::Cosine(s) => {
            lemma_cosine_bounds(
                crate::ngram::spec_ngrams(q, s.n_gram_size as int),
                crate::ngram::spec_ngrams(c, s.n_gram_size as int),
            );
        },
        Metric::Jaccard(s) => {
            lemma_jaccard_bounds(q, c);
        },
        Metric::Tokens(s) => {
            lemma_token_similarity_bounds(
                crate::lexical::spec_tokens(crate::chars::lower_of(q), s.separators@),
                crate::lexical::spec_tokens(crate::chars::lower_of(c), s.separators@),
            );
        },
        Metric::Acronym(s) => {},
        Metric::Phonetic(s) => {
            lemma_phonetic_score_bounds(s, q, c);
        },
        Metric::Soundex(s) => {
            lemma_soundex_score_bounds(q, c, s.max_compare_length as int, s.international_mode);
        },
        Metric::Composite(comp) => {
            lemma_children_scores_valid(comp.children@, q, c);
            lemma_composite_score_bounds(comp.strategy, children_scores(comp.children@, q, c));
        },
    }
}

/// A child-score list is a list of valid scores.
pub proof fn lemma_children_scores_valid(children: Seq<Metric>, q: Seq<char>, c: Seq<char>)
    requires
        forall|i: int| 0 <= i < children.len() ==> metric_wf(#[trigger] children[i]),
    ensures
        all_scores_valid(children_scores(children, q, c)),
        children_scores(children, q, c).len() == children.len(),
    decreases children,
{
    if children.len() > 0 {
        assert(forall|i: int|
            0 <= i < children.drop_last().len() ==> metric_wf(
                #[trigger] children.drop_last()[i],
            )) by {
            assert(forall|i: int|
                0 <= i < children.drop_last().len() ==> children.drop_last()[i] == children[i]);
        }
        lemma_children_scores_valid(children.drop_last(), q, c);
        assert(metric_wf(children.last()));
        lemma_metric_score_bounds(children.last(), q, c);
        let rest = children_scores(children.drop_last(), q, c);
        let whole = children_scores(children, q, c);
        assert(forall|i: int|
            0 <= i < whole.len() ==> valid_score(#[trigger] whole[i])) by {
            assert(forall|i: int| 0 <= i < rest.len() ==> #[trigger] whole[i] == rest[i]);
        }
    }
}

pub proof fn lemma_fallback_in_range(scores: Seq<u64>, threshold: u64, i: int)
    requires
        scores.len() > 0,
        all_scores_valid(scores),
    ensures
        0 <= spec_fallback(scores, threshold, i) <= SCALE,
    decreases scores.len() - i,
{
    if 0 <= i < scores.len() - 1 && scores[i] < threshold {
        lemma_fallback_in_range(scores, threshold, i + 1);
    }
}

/// A composite's reduction stays within one unit.
pub proof fn lemma_composite_score_bounds(strategy: CompositeStrategy, scores: Seq<u64>)
    requires
        all_scores_valid(scores),
        strategy.wf(),
    ensures
        0 <= composite_score(strategy, scores) <= SCALE,
{
    if scores.len() > 0 {
        match strategy {
            CompositeStrategy::Maximum => {
                lemma_maximum_in_range(scores);
            },
            CompositeStrategy::Average => {
                assert(all_weights_valid(unit_weights(scores.len() as int)));
                lemma_additive_in_range(scores, unit_weights(scores.len() as int));
            },
            CompositeStrategy::Fallback(threshold) => {
                lemma_fallback_in_range(scores, threshold, 0);
            },
            CompositeStrategy::Weighted(ws) => {
                assert(all_weights_valid(padded_weights(ws@, scores.len() as int)));
                lemma_additive_in_range(scores, padded_weights(ws@, scores.len() as int));
            },
        }
    }
}

impl CompositeMetric {
    /// An empty composite under the given strategy.
    pub fn new(strategy: CompositeStrategy) -> (r: CompositeMetric)
        requires
            strategy.wf(),
        ensures
            r.strategy == strategy,
            r.children@.len() == 0,
            metric_wf(Metric::Composite(r)),
    {
        CompositeMetric { strategy, children: Vec::new() }
    }

    /// Appends one child capability.
    pub fn with_metric(self, metric: Metric) -> (r: CompositeMetric)
        requires
            metric_wf(metric),
            self.children@.len() < MAX_DIMENSIONS,
        ensures
            r.strategy == self.strategy,
            r.children@ == self.children@.push(metric),
    {
        let mut children = self.children;
        children.push(metric);
        CompositeMetric { strategy: self.strategy, children }
    }
}

/// Measures a metric tree against one pair, exactly as `metric_score`
/// and `metric_perfect` say.
fn metric_measure(m: &Metric, query: &String, candidate: &String) -> (r: Measurement)
    requires
        metric_wf(*m),
        query@.len() <= STRING_MAX,
        candidate@.len() <= STRING_MAX,
    ensures
        r.wf(),
        r.score == metric_score(*m, query@, candidate@),
        r.perfect == metric_perfect(*m, query@, candidate@),
    decreases *m,
{
    match m {
        Metric::Exact(s) => unwrap_total(s.measure(query, candidate)),
        Metric::CaseInsensitive(s) => unwrap_total(s.measure(query, candidate)),
        Metric::Prefix(s) => unwrap_total(s.measure(query, candidate)),
        Metric::Suffix(s) => unwrap_total(s.measure(query, candidate)),
        Metric::Substring(s) => unwrap_total(s.measure(query, candidate)),
        Metric::Edit(s) => unwrap_total(s.measure(query, candidate)),
        Metric::LengthGap(s) => unwrap_total(s.measure(query, candidate)),
        Metric::Ngram(s) => unwrap_total(s.measure(query, candidate)),
        Metric::Cosine(s) => unwrap_total(s.measure(query, candidate)),
        Metric::Jaccard(s) => unwrap_total(s.measure(query, candidate)),
        Metric::Tokens(s) => unwrap_total(s.measure(query, candidate)),
        Metric::Acronym(s) => unwrap_total(s.measure(query, candidate)),
        Metric::Phonetic(s) => unwrap_total(s.measure(query, candidate)),
        Metric::Soundex(s) => unwrap_total(s.measure(query, candidate)),
        Metric::Composite(comp) => {
            let n = comp.children.len();
            let mut scores: Vec<u64> = Vec::new();
            let mut perfect = false;
            let mut i: usize = 0;
            proof {
                assert(scores@ =~= children_scores(comp.children@.take(0), query@, candidate@));
            }
            while i < n
                invariant
                    i <= n,
                    n == comp.children@.len(),
                    n <= MAX_DIMENSIONS,
                    *m == Metric::Composite(*comp),
                    metric_wf(Metric::Composite(*comp)),
                    query@.len() <= STRING_MAX,
                    candidate@.len() <= STRING_MAX,
                    scores@ == children_scores(comp.children@.take(i as int), query@, candidate@),
                    scores@.len() == i,
                    all_scores_valid(scores@),
                    perfect == children_any_perfect(
                        comp.children@.take(i as int),
                        query@,
                        candidate@,
                    ),
                decreases n - i,
            {
                proof {
                    assert(comp.children@.take(i + 1).drop_last() =~= comp.children@.take(i as int));
                    assert(comp.children@.take(i + 1).last() == comp.children@[i as int]);
                    assert(metric_wf(comp.children@[i as int]));
                }
                let child = &comp.children[i];
                proof {
                    assert(decreases_to!(*m => comp.children@));
                    assert(decreases_to!(comp.children@ => comp.children@[i as int]));
                }
                let measurement = metric_measure(child, query, candidate);
                scores.push(measurement.score);
                if measurement.perfect {
                    perfect = true;
                }
                i = i + 1;
            }
            proof {
                assert(comp.children@.take(n as int) =~= comp.children@);
            }
            let score = composite_reduce(&comp.strategy, &scores);
            Measurement { score, perfect }
        },
    }
}

/// Unwraps the result of a total capability.
fn unwrap_total(r: Result<Measurement, MetricFailure>) -> (m: Measurement)
    requires
        r is Ok,
        r->Ok_0.wf(),
    ensures
        m == r->Ok_0,
{
    match r {
        Ok(m) => m,
        Err(_) => vstd::pervasive::unreached(),
    }
}

/// Reduces child scores under a strategy, exactly as `composite_score`
/// says.
fn composite_reduce(strategy: &CompositeStrategy, scores: &Vec<u64>) -> (r: u64)
    requires
        strategy.wf(),
        all_scores_valid(scores@),
        scores@.len() <= MAX_DIMENSIONS,
    ensures
        r as int == composite_score(*strategy, scores@),
        valid_score(r),
{
    proof {
        lemma_composite_score_bounds(*strategy, scores@);
    }
    if scores.len() == 0 {
        return 0;
    }
    match strategy {
        CompositeStrategy::Maximum => crate::scheme::maximum(scores),
        CompositeStrategy::Average => {
            let n = scores.len();
            let mut weights: Vec<u64> = Vec::new();
            let mut i: usize = 0;
            while i < n
                invariant
                    i <= n,
                    weights@.len() == i,
                    forall|t: int| 0 <= t < i ==> #[trigger] weights@[t] == WEIGHT_ONE,
                decreases n - i,
            {
                weights.push(WEIGHT_ONE);
                i = i + 1;
            }
            proof {
                assert(weights@ =~= unit_weights(scores@.len() as int));
            }
            crate::scheme::additive(scores, &weights)
        },
        CompositeStrategy::Fallback(threshold) => {
            let n = scores.len();
            let mut i: usize = 0;
            while i < n - 1
                invariant
                    i <= n - 1,
                    n == scores@.len(),
                    n >= 1,
                    all_scores_valid(scores@),
                    *strategy == CompositeStrategy::Fallback(*threshold),
                    spec_fallback(scores@, *threshold, 0) == spec_fallback(
                        scores@,
                        *threshold,
                        i as int,
                    ),
                decreases n - i,
            {
                if scores[i] >= *threshold {
                    return scores[i];
                }
                i = i + 1;
            }
            scores[n - 1]
        },
        CompositeStrategy::Weighted(ws) => {
            let n = scores.len();
            let mut weights: Vec<u64> = Vec::new();
            let mut i: usize = 0;
            while i < n
                invariant
                    i <= n,
                    all_weights_valid(ws@),
                    weights@.len() == i,
                    forall|t: int|
                        0 <= t < i ==> #[trigger] weights@[t] == (if t < ws@.len() {
                            ws@[t]
                        } else {
                            WEIGHT_ONE
                        }),
                decreases n - i,
            {
                let w: u64 = if i < ws.len() {
                    ws[i]
                } else {
                    WEIGHT_ONE
                };
                weights.push(w);
                i = i + 1;
            }
            proof {
                assert(weights@ =~= padded_weights(ws@, scores@.len() as int));
            }
            crate::scheme::additive(scores, &weights)
        },
    }
}

impl Capability for Metric {
    open spec fn wf(&self) -> bool {
        metric_wf(*self)
    }

    open spec fn total(&self) -> bool {
        true
    }

    open spec fn spec_score(&self, q: Seq<char>, c: Seq<char>) -> u64 {
        metric_score(*self, q, c)
    }

    open spec fn spec_perfect(&self, q: Seq<char>, c: Seq<char>) -> bool {
        metric_perfect(*self, q, c)
    }

    fn measure(&self, query: &String, candidate: &String) -> (r: Result<
        Measurement,
        MetricFailure,
    >) {
        Ok(metric_measure(self, query, candidate))
    }
}

} // verus!
