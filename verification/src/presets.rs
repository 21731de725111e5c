//! Ready-made engine configurations.

use vstd::prelude::*;
use crate::assessor::{Assessor, Dimension};
use crate::capability::Capability;
use crate::cosine::CosineScorer;
use crate::exact::{ExactMatchScorer, CaseInsensitiveScorer};
use crate::fuzzy::EditDistanceScorer;
use crate::jaccard::JaccardMetric;
use crate::lexical::{TokenSimilarityScorer, AcronymScorer};
use crate::metric::Metric;
use crate::ngram::NGramScorer;
use crate::phonetic::PhoneticScorer;
use crate::score::{Measurement, MetricFailure, WEIGHT_ONE};
use crate::scheme::Scheme;
use crate::structural::{PrefixScorer, SuffixScorer, SubstringScorer};

verus! {

/// Floor of the customizable fuzzy matcher (0.6).
pub const FUZZY_FLOOR: u64 = 600_000;

/// The fuzzy string matcher's dimensions: exact equality at weight 1.0,
/// edit distance at 0.8, bigram overlap at 0.6.
pub open spec fn fuzzy_string_dimensions(dims: Seq<Dimension<Metric>>) -> bool {
    &&& dims.len() == 3
    &&& dims[0].metric is Exact && dims[0].weight == WEIGHT_ONE
    &&& dims[1].metric is Edit && dims[1].weight == 800_000
    &&& dims[2].metric is Ngram && dims[2].metric->Ngram_0.n == 2 && dims[2].weight == 600_000
}

/// The name matcher's dimensions: exact equality at weight 1.0, then
/// the better of a Soundex and an edit-distance reading at 0.8.
pub open spec fn name_dimensions(dims: Seq<Dimension<Metric>>) -> bool {
    &&& dims.len() == 2
    &&& dims[0].metric is Exact && dims[0].weight == WEIGHT_ONE
    &&& dims[1].metric is Composite && dims[1].weight == 800_000
    &&& dims[1].metric->Composite_0.strategy is Maximum
    &&& dims[1].metric->Composite_0.children@.len() == 2
    &&& dims[1].metric->Composite_0.children@[0] is Phonetic
    &&& dims[1].metric->Composite_0.children@[0]->Phonetic_0.mode is Soundex
    &&& dims[1].metric->Composite_0.children@[1] is Edit
}

/// The address matcher's dimensions: token overlap at weight 0.7,
/// bigram cosine at 0.5, edit distance at 0.3.
pub open spec fn address_dimensions(dims: Seq<Dimension<Metric>>) -> bool {
    &&& dims.len() == 3
    &&& dims[0].metric is Tokens && dims[0].metric->Tokens_0.separators@ == seq![
        '_',
        '-',
        '.',
        ' ',
    ] && dims[0].weight == 700_000
    &&& dims[1].metric is Cosine && dims[1].metric->Cosine_0.n_gram_size == 2 && dims[1].weight
        == 500_000
    &&& dims[2].metric is Edit && dims[2].weight == 300_000
}

/// The document matcher's dimensions: token overlap at weight 0.6,
/// trigram cosine at 0.4.
pub open spec fn document_dimensions(dims: Seq<Dimension<Metric>>) -> bool {
    &&& dims.len() == 2
    &&& dims[0].metric is Tokens && dims[0].metric->Tokens_0.separators@ == seq![
        '_',
        '-',
        '.',
        ' ',
    ] && dims[0].weight == 600_000
    &&& dims[1].metric is Cosine && dims[1].metric->Cosine_0.n_gram_size == 3 && dims[1].weight
        == 400_000
}

/// The customizable fuzzy matcher's dimensions: exact equality at
/// weight 1.0, bigram overlap at 0.7, edit distance at 0.5.
pub open spec fn customized_fuzzy_dimensions(dims: Seq<Dimension<Metric>>) -> bool {
    &&& dims.len() == 3
    &&& dims[0].metric is Exact && dims[0].weight == WEIGHT_ONE
    &&& dims[1].metric is Ngram && dims[1].metric->Ngram_0.n == 2 && dims[1].weight == 700_000
    &&& dims[2].metric is Edit && dims[2].weight == 500_000
}

/// Named collections of preconfigured matchers.
pub struct MatcherPresets;

impl MatcherPresets {
    /// A fuzzy string matcher: exact equality dominates, with edit
    /// distance and bigram overlap as softer dimensions, gated at 0.7.
    pub fn fuzzy_string_matcher() -> (r: Assessor<Metric>)
        ensures
            r.wf(),
            r.total(),
            fuzzy_string_dimensions(r.dimensions@),
            r.scheme == Scheme::Additive,
            r.floor == 700_000,
    {
        Assessor::new().floor(700_000).dimension(Metric::Exact(ExactMatchScorer), WEIGHT_ONE)
            .dimension(Metric::Edit(EditDistanceScorer), 800_000).dimension(
            Metric::Ngram(NGramScorer::default()),
            600_000,
        )
    }

    /// A name matcher: exact equality plus the better of a phonetic and
    /// an edit-distance reading, gated at 0.6.
    pub fn name_matcher() -> (r: Assessor<Metric>)
        ensures
            r.wf(),
            r.total(),
            name_dimensions(r.dimensions@),
            r.scheme == Scheme::Additive,
            r.floor == 600_000,
    {
        let sound_or_shape = Metric::Composite(
            crate::metric::CompositeMetric::new(crate::metric::CompositeStrategy::Maximum)
                .with_metric(Metric::Phonetic(PhoneticScorer::default())).with_metric(
                Metric::Edit(EditDistanceScorer),
            ),
        );
        proof {
            let children = sound_or_shape->Composite_0.children@;
            assert(children.len() == 2);
            assert(crate::metric::metric_wf(children[0]));
            assert(crate::metric::metric_wf(children[1]));
            assert(crate::metric::metric_wf(sound_or_shape));
        }
        Assessor::new().floor(600_000).dimension(Metric::Exact(ExactMatchScorer), WEIGHT_ONE)
            .dimension(sound_or_shape, 800_000)
    }

    /// An address matcher: token overlap and cosine grams first, edit
    /// distance as a tiebreaker, gated at 0.6.
    pub fn address_matcher() -> (r: Assessor<Metric>)
        ensures
            r.wf(),
            r.total(),
            address_dimensions(r.dimensions@),
            r.scheme == Scheme::Additive,
            r.floor == 600_000,
    {
        Assessor::new().floor(600_000).dimension(
            Metric::Tokens(TokenSimilarityScorer::default()),
            700_000,
        ).dimension(Metric::Cosine(CosineScorer::default()), 500_000).dimension(
            Metric::Edit(EditDistanceScorer),
            300_000,
        )
    }

    /// A document matcher: token overlap with trigram cosine grams,
    /// gated at 0.5.
    pub fn document_matcher() -> (r: Assessor<Metric>)
        ensures
            r.wf(),
            r.total(),
            document_dimensions(r.dimensions@),
            r.scheme == Scheme::Additive,
            r.floor == 500_000,
    {
        Assessor::new().floor(500_000).dimension(
            Metric::Tokens(TokenSimilarityScorer::default()),
            600_000,
        ).dimension(Metric::Cosine(CosineScorer::new(3)), 400_000)
    }

    /// The customizable starting point: exact equality dominating over
    /// bigram overlap and edit distance, gated at 0.6; callers adjust it
    /// with the builder methods.
    pub fn customize_fuzzy_matcher() -> (r: Assessor<Metric>)
        ensures
            r.wf(),
            r.total(),
            customized_fuzzy_dimensions(r.dimensions@),
            r.scheme == Scheme::Additive,
            r.floor == FUZZY_FLOOR,
    {
        Assessor::new().floor(FUZZY_FLOOR).dimension(Metric::Exact(ExactMatchScorer), WEIGHT_ONE)
            .dimension(Metric::Ngram(NGramScorer::default()), 700_000).dimension(
            Metric::Edit(EditDistanceScorer),
            500_000,
        )
    }
}

/// The broad matcher's dimensions: exact equality at weight 1.0,
/// case-insensitive equality at 0.8, edit distance at 0.6, token
/// overlap at 0.4.
pub open spec fn full_matcher_dimensions(dims: Seq<Dimension<Metric>>) -> bool {
    &&& dims.len() == 4
    &&& dims[0].metric is Exact && dims[0].weight == WEIGHT_ONE
    &&& dims[1].metric is CaseInsensitive && dims[1].weight == 800_000
    &&& dims[2].metric is Edit && dims[2].weight == 600_000
    &&& dims[3].metric is Tokens && dims[3].metric->Tokens_0.separators@ == seq![
        '_',
        '-',
        '.',
        ' ',
    ] && dims[3].weight == 400_000
}

/// The aligner's dimensions and weights, in order.
pub open spec fn aligner_dimensions(dims: Seq<Dimension<Metric>>) -> bool {
    &&& dims.len() == 12
    &&& dims[0].metric is Edit && dims[0].weight == 200_000
    &&& dims[1].metric is Cosine && dims[1].metric->Cosine_0.n_gram_size == 2 && dims[1].weight
        == 150_000
    &&& dims[2].metric is Exact && dims[2].weight == 100_000
    &&& dims[3].metric is CaseInsensitive && dims[3].weight == 100_000
    &&& dims[4].metric is Prefix && dims[4].weight == 100_000
    &&& dims[5].metric is Suffix && dims[5].weight == 50_000
    &&& dims[6].metric is Substring && dims[6].weight == 50_000
    &&& dims[7].metric is Tokens && dims[7].weight == 100_000
    &&& dims[8].metric is Acronym && dims[8].weight == 50_000
    &&& dims[9].metric is Phonetic && dims[9].metric->Phonetic_0.mode is Soundex && dims[
        9
    ].weight == 50_000
    &&& dims[10].metric is Ngram && dims[10].metric->Ngram_0.n == 2 && dims[10].weight == 50_000
    &&& dims[11].metric is Jaccard && dims[11].weight == 100_000
}

/// A broad preset matcher over the most common string dimensions.
pub struct FullMatcher {
    /// The configured engine.
    pub engine: Assessor<Metric>,
}

impl FullMatcher {
    /// Exact, case-insensitive, edit-distance and token dimensions over
    /// the default floor.
    pub fn new() -> (r: FullMatcher)
        ensures
            r.engine.wf(),
            r.engine.total(),
            full_matcher_dimensions(r.engine.dimensions@),
            r.engine.scheme == Scheme::Additive,
            r.engine.floor == crate::score::DEFAULT_FLOOR,
    {
        let engine = Assessor::new().dimension(Metric::Exact(ExactMatchScorer), WEIGHT_ONE)
            .dimension(Metric::CaseInsensitive(CaseInsensitiveScorer), 800_000).dimension(
            Metric::Edit(EditDistanceScorer),
            600_000,
        ).dimension(Metric::Tokens(TokenSimilarityScorer::default()), 400_000);
        FullMatcher { engine }
    }
}

impl Default for FullMatcher {
    /// Same as `new`.
    fn default() -> (r: FullMatcher)
        ensures
            r.engine.wf(),
            r.engine.total(),
    {
        FullMatcher::new()
    }
}

/// A wide preset blend of every stock string dimension, usable itself as
/// a capability.
pub struct Aligner {
    /// The configured engine.
    pub engine: Assessor<Metric>,
}

impl Aligner {
    /// Twelve weighted dimensions under the additive scheme.
    pub fn new() -> (r: Aligner)
        ensures
            r.engine.wf(),
            r.engine.total(),
            aligner_dimensions(r.engine.dimensions@),
            r.engine.scheme == Scheme::Additive,
            r.engine.floor == crate::score::DEFAULT_FLOOR,
    {
        let engine = Assessor::new().dimension(Metric::Edit(EditDistanceScorer), 200_000)
            .dimension(Metric::Cosine(CosineScorer::default()), 150_000).dimension(
            Metric::Exact(ExactMatchScorer),
            100_000,
        ).dimension(Metric::CaseInsensitive(CaseInsensitiveScorer), 100_000).dimension(
            Metric::Prefix(PrefixScorer),
            100_000,
        ).dimension(Metric::Suffix(SuffixScorer), 50_000).dimension(
            Metric::Substring(SubstringScorer),
            50_000,
        ).dimension(Metric::Tokens(TokenSimilarityScorer::default()), 100_000).dimension(
            Metric::Acronym(AcronymScorer::default()),
            50_000,
        ).dimension(Metric::Phonetic(PhoneticScorer::default()), 50_000).dimension(
            Metric::Ngram(NGramScorer::default()),
            50_000,
        ).dimension(Metric::Jaccard(JaccardMetric), 100_000);
        Aligner { engine }
    }
}

impl Default for Aligner {
    /// Same as `new`.
    fn default() -> (r: Aligner)
        ensures
            r.engine.wf(),
            r.engine.total(),
    {
        Aligner::new()
    }
}

impl Capability for Aligner {
    open spec fn wf(&self) -> bool {
        self.engine.wf()
    }

    open spec fn total(&self) -> bool {
        self.engine.total()
    }

    open spec fn spec_score(&self, q: Seq<char>, c: Seq<char>) -> u64 {
        self.engine.spec_aggregate(q, c) as u64
    }

    open spec fn spec_perfect(&self, q: Seq<char>, c: Seq<char>) -> bool {
        self.engine.spec_any_perfect(q, c)
    }

    fn measure(&self, query: &String, candidate: &String) -> (r: Result<
        Measurement,
        MetricFailure,
    >) {
        let p = self.engine.profile(query, candidate);
        Ok(Measurement { score: p.score, perfect: p.perfect })
    }
}

} // verus!
