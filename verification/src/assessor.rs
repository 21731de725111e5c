//! The assessor: an immutable engine that measures every dimension,
//! blends the results under one scheme, and gates candidates against a
//! viability floor.

use vstd::prelude::*;
use crate::capability::Capability;
use crate::scheme::{Scheme, spec_blend, all_scores_valid, all_weights_valid, blend};
use crate::score::{MatchType, Measurement, MetricFailure, Resemblance, SCALE, MAX_DIMENSIONS,
    STRING_MAX, DEFAULT_FLOOR, valid_score, valid_weight};

verus! {

/// One scoring dimension: a capability paired with its weight (in
/// millionths, like scores). A dimension carries no state between calls.
pub struct Dimension<M> {
    /// The wrapped scoring capability.
    pub metric: M,
    /// The dimension's weight in the blending scheme.
    pub weight: u64,
}

impl<M: Capability> Dimension<M> {
    /// Configuration well-formedness.
    pub open spec fn wf(&self) -> bool {
        self.metric.wf() && valid_weight(self.weight)
    }

    /// Pairs a capability with a weight.
    pub fn new(metric: M, weight: u64) -> (r: Dimension<M>)
        requires
            metric.wf(),
            valid_weight(weight),
        ensures
            r.wf(),
            r.metric == metric,
            r.weight == weight,
    {
        Dimension { metric, weight }
    }
}

/// What one dimension contributed to one profile.
#[derive(Clone, Copy, Debug, PartialEq, Eq, Structural)]
pub struct DimensionReport {
    /// The dimension's normalized score (zero if it failed).
    pub score: u64,
    /// The dimension's configured weight.
    pub weight: u64,
    /// `score * weight`, the weighted contribution.
    pub contribution: u64,
    /// Whether the dimension judged the pair perfect.
    pub perfect: bool,
    /// Whether the capability failed on this pair.
    pub failed: bool,
}

/// The immutable outcome of assessing one (query, candidate) pair.
pub struct Profile {
    /// The query, as handed in.
    pub query: String,
    /// The candidate, as handed in.
    pub candidate: String,
    /// The blended aggregate score.
    pub score: u64,
    /// Whether any dimension judged the pair perfect.
    pub perfect: bool,
    /// Per-dimension measurements, in dimension order.
    pub details: Vec<DimensionReport>,
    /// The failures recorded during this assessment, in dimension order.
    pub failures: Vec<MetricFailure>,
}

/// The multi-dimensional weighted resemblance engine: an ordered list of
/// dimensions, one blending scheme, and one viability floor. The
/// configuration is immutable once built; every assessment recomputes its
/// scores fresh.
pub struct Assessor<M> {
    /// The ordered scoring dimensions.
    pub dimensions: Vec<Dimension<M>>,
    /// How the per-dimension scores are reduced to one aggregate.
    pub scheme: Scheme,
    /// The viability floor in millionths; a perfect dimension overrides
    /// it unconditionally.
    pub floor: u64,
}

impl<M: Capability> Assessor<M> {
    /// Configuration well-formedness.
    pub open spec fn wf(&self) -> bool {
        &&& self.dimensions@.len() <= MAX_DIMENSIONS
        &&& valid_score(self.floor)
        &&& forall|i: int|
            0 <= i < self.dimensions@.len() ==> (#[trigger] self.dimensions@[i]).wf()
    }

    /// Whether every dimension is total, so that the whole profile is a
    /// deterministic function of the configuration and the inputs.
    pub open spec fn total(&self) -> bool {
        forall|i: int|
            0 <= i < self.dimensions@.len() ==> (#[trigger] self.dimensions@[i]).metric.total()
    }

    /// The weights of the dimensions, in order.
    pub open spec fn spec_weights(&self) -> Seq<u64> {
        Seq::new(self.dimensions@.len(), |i: int| self.dimensions@[i].weight)
    }

    /// The scores the dimensions assign to one pair, in order (meaningful
    /// for total assessors).
    pub open spec fn spec_scores(&self, q: Seq<char>, c: Seq<char>) -> Seq<u64> {
        Seq::new(self.dimensions@.len(), |i: int| self.dimensions@[i].metric.spec_score(q, c))
    }

    /// The aggregate score of one pair: the scheme's reduction of the
    /// per-dimension scores and weights.
    pub open spec fn spec_aggregate(&self, q: Seq<char>, c: Seq<char>) -> int {
        spec_blend(self.scheme, self.spec_scores(q, c), self.spec_weights())
    }

    /// Whether any dimension judges the pair perfect.
    pub open spec fn spec_any_perfect(&self, q: Seq<char>, c: Seq<char>) -> bool {
        exists|i: int|
            0 <= i < self.dimensions@.len() && (#[trigger] self.dimensions@[i]).metric.spec_perfect(
                q,
                c,
            )
    }

    /// Whether the pair is viable: perfect on some dimension, or an
    /// aggregate at or above the floor.
    pub open spec fn spec_viable(&self, q: Seq<char>, c: Seq<char>) -> bool {
        self.spec_any_perfect(q, c) || self.spec_aggregate(q, c) >= self.floor
    }

    /// An empty engine: no dimensions, the additive scheme, and the
    /// default floor.
    pub fn new() -> (r: Assessor<M>)
        ensures
            r.wf(),
            r.dimensions@.len() == 0,
            r.scheme == Scheme::Additive,
            r.floor == DEFAULT_FLOOR,
    {
        Assessor { dimensions: Vec::new(), scheme: Scheme::Additive, floor: DEFAULT_FLOOR }
    }

    /// Sets the viability floor.
    pub fn floor(self, floor: u64) -> (r: Assessor<M>)
        requires
            valid_score(floor),
        ensures
            r.dimensions == self.dimensions,
            r.scheme == self.scheme,
            r.floor == floor,
    {
        Assessor { floor, ..self }
    }

    /// Sets the blending scheme.
    pub fn scheme(self, scheme: Scheme) -> (r: Assessor<M>)
        ensures
            r.dimensions == self.dimensions,
            r.scheme == scheme,
            r.floor == self.floor,
    {
        Assessor { scheme, ..self }
    }

    /// Appends one dimension.
    pub fn dimension(self, metric: M, weight: u64) -> (r: Assessor<M>)
        requires
            metric.wf(),
            valid_weight(weight),
            self.dimensions@.len() < MAX_DIMENSIONS,
        ensures
            r.dimensions@.len() == self.dimensions@.len() + 1,
            r.dimensions@ == self.dimensions@.push(Dimension { metric, weight }),
            r.scheme == self.scheme,
            r.floor == self.floor,
    {
        let mut dimensions = self.dimensions;
        dimensions.push(Dimension { metric, weight });
        Assessor { dimensions, scheme: self.scheme, floor: self.floor }
    }

    /// Measures every dimension against the pair, blends the scores, and
    /// reports the outcome. Failures are isolated: a failed dimension
    /// contributes a zero score and its failure is recorded, and the
    /// profile is produced regardless.
    pub fn profile(&self, query: &String, candidate: &String) -> (p: Profile)
        requires
            self.wf(),
            query@.len() <= STRING_MAX,
            candidate@.len() <= STRING_MAX,
        ensures
            self.profile_post(query@, candidate@, &p),
    {
        let n = self.dimensions.len();
        let mut details: Vec<DimensionReport> = Vec::new();
        let mut failures: Vec<MetricFailure> = Vec::new();
        let mut scores: Vec<u64> = Vec::new();
        let mut weights: Vec<u64> = Vec::new();
        let mut perfect = false;
        let mut i: usize = 0;
        while i < n
            invariant
                i <= n,
                n == self.dimensions@.len(),
                self.wf(),
                query@.len() <= STRING_MAX,
                candidate@.len() <= STRING_MAX,
                details@.len() == i,
                scores@.len() == i,
                weights@.len() == i,
                forall|j: int| 0 <= j < i ==> #[trigger] scores@[j] == details@[j].score,
                forall|j: int| 0 <= j < i ==> #[trigger] weights@[j] == self.dimensions@[j].weight,
                forall|j: int|
                    0 <= j < i ==> report_ok(self, query@, candidate@, #[trigger] details@[j], j),
                perfect == exists|j: int| 0 <= j < i && (#[trigger] details@[j]).perfect,
                failures@.len() == count_failed(details@),
                self.total() ==> failures@.len() == 0,
                failures@.len() <= i,
            decreases n - i,
        {
            let dim = &self.dimensions[i];
            let report: DimensionReport = match dim.metric.measure(query, candidate) {
                Ok(m) => {
                    proof {
                        assert((m.score as int) * (dim.weight as int) <= (SCALE as int) * (
                        crate::score::WEIGHT_MAX as int)) by (nonlinear_arith)
                            requires
                                m.score <= SCALE,
                                dim.weight <= crate::score::WEIGHT_MAX;
                        assert((m.score as int) * (dim.weight as int) >= 0) by (nonlinear_arith)
                            requires m.score >= 0 && dim.weight >= 0;
                    }
                    let contribution: u64 = ((m.score as u128) * (dim.weight as u128)) as u64;
                    DimensionReport {
                        score: m.score,
                        weight: dim.weight,
                        contribution,
                        perfect: m.perfect,
                        failed: false,
                    }
                },
                Err(failure) => {
                    failures.push(failure);
                    DimensionReport {
                        score: 0,
                        weight: dim.weight,
                        contribution: 0,
                        perfect: false,
                        failed: true,
                    }
                },
            };
            let ghost prev_details = details@;
            let ghost prev_perfect = perfect;
            if report.perfect {
                perfect = true;
            }
            scores.push(report.score);
            weights.push(report.weight);
            details.push(report);
            proof {
                assert(details@[i as int] == report);
                assert(details@.drop_last() =~= prev_details);
                assert(count_failed(details@) == count_failed(prev_details) + (if report.failed {
                    1int
                } else {
                    0int
                }));
                if perfect {
                    if report.perfect {
                        assert(details@[i as int].perfect);
                    } else {
                        let j = choose|j: int| 0 <= j < i && (#[trigger] prev_details[j]).perfect;
                        assert(details@[j].perfect);
                    }
                } else {
                    assert(forall|j: int|
                        0 <= j < i + 1 ==> !(#[trigger] details@[j]).perfect) by {
                        assert(forall|j: int|
                            0 <= j < i ==> details@[j] == prev_details[j]
                                && !(#[trigger] prev_details[j]).perfect);
                    }
                }
            }
            i = i + 1;
        }
        proof {
            assert(forall|j: int| 0 <= j < n ==> valid_score(#[trigger] scores@[j])) by {
                assert(forall|j: int|
                    0 <= j < n ==> #[trigger] scores@[j] == details@[j].score && report_ok(
                        self,
                        query@,
                        candidate@,
                        details@[j],
                        j,
                    ));
            }
            assert(all_scores_valid(scores@));
            assert(all_weights_valid(weights@));
            assert(weights@ =~= self.spec_weights());
            assert(scores@ =~= report_scores(details@));
            if self.total() {
                assert(scores@ =~= self.spec_scores(query@, candidate@));
                if perfect {
                    let j = choose|j: int| 0 <= j < n && (#[trigger] details@[j]).perfect;
                    assert(self.dimensions@[j].metric.spec_perfect(query@, candidate@));
                } else {
                    if self.spec_any_perfect(query@, candidate@) {
                        let j = choose|j: int|
                            0 <= j < self.dimensions@.len() && (
                            #[trigger] self.dimensions@[j]).metric.spec_perfect(query@, candidate@);
                        assert(details@[j].perfect);
                    }
                }
            }
        }
        let score = blend(&self.scheme, &scores, &weights);
        let p = Profile {
            query: clone_string(query),
            candidate: clone_string(candidate),
            score,
            perfect,
            details,
            failures,
        };
        proof {
            assert(p.details@.len() == self.dimensions@.len());
            assert(forall|i2: int|
                0 <= i2 < p.details@.len() ==> report_ok(
                    self,
                    query@,
                    candidate@,
                    #[trigger] p.details@[i2],
                    i2,
                ));
            assert(p.score as int == spec_blend(
                self.scheme,
                report_scores(p.details@),
                self.spec_weights(),
            ));
            assert(self.profile_post(query@, candidate@, &p));
        }
        p
    }

    /// Everything `profile` promises about its result, gathered so that
    /// laws can be stated over profiles.
    pub open spec fn profile_post(&self, q: Seq<char>, c: Seq<char>, p: &Profile) -> bool {
        &&& p.query@ == q
        &&& p.candidate@ == c
        &&& p.details@.len() == self.dimensions@.len()
        &&& forall|i: int|
            0 <= i < p.details@.len() ==> report_ok(self, q, c, #[trigger] p.details@[i], i)
        &&& valid_score(p.score)
        &&& p.score as int == spec_blend(
            self.scheme,
            report_scores(p.details@),
            self.spec_weights(),
        )
        &&& p.perfect == exists|i: int| 0 <= i < p.details@.len() && (#[trigger] p.details@[i]).perfect
        &&& p.failures@.len() == count_failed(p.details@)
        &&& (self.total() ==> p.failures@.len() == 0)
        &&& (self.total() ==> p.score as int == self.spec_aggregate(q, c))
        &&& (self.total() ==> p.perfect == self.spec_any_perfect(q, c))
    }

    /// Whether the pair is viable: some dimension perfect, or aggregate
    /// at or above the floor.
    pub fn viable(&self, query: &String, candidate: &String) -> (r: bool)
        requires
            self.wf(),
            query@.len() <= STRING_MAX,
            candidate@.len() <= STRING_MAX,
        ensures
            self.total() ==> r == self.spec_viable(query@, candidate@),
    {
        let p = self.profile(query, candidate);
        p.perfect || p.score >= self.floor
    }
}

/// What holds of the report a dimension leaves in a profile: the weight
/// is the dimension's, the contribution is exact, a failed dimension
/// contributes zero, and a total dimension reports its spec-level score.
pub open spec fn report_ok<M: Capability>(
    a: &Assessor<M>,
    q: Seq<char>,
    c: Seq<char>,
    d: DimensionReport,
    i: int,
) -> bool {
    &&& valid_score(d.score)
    &&& d.weight == a.dimensions@[i].weight
    &&& d.contribution == d.score * d.weight
    &&& (d.failed ==> d.score == 0 && !d.perfect)
    &&& (a.dimensions@[i].metric.total() ==> !d.failed && d.score
        == a.dimensions@[i].metric.spec_score(q, c) && d.perfect
        == a.dimensions@[i].metric.spec_perfect(q, c))
}

/// The score column of a report list.
pub open spec fn report_scores(ds: Seq<DimensionReport>) -> Seq<u64> {
    Seq::new(ds.len(), |i: int| ds[i].score)
}

/// How many reports record a failed dimension.
pub open spec fn count_failed(ds: Seq<DimensionReport>) -> int
    decreases ds.len(),
{
    if ds.len() == 0 {
        0
    } else {
        count_failed(ds.drop_last()) + (if ds.last().failed {
            1int
        } else {
            0int
        })
    }
}

impl Profile {
    /// The aggregate as a classified resemblance.
    pub fn resemblance(&self) -> (r: Resemblance)
        requires
            valid_score(self.score),
        ensures
            r.wf(),
            r.spec_scaled() == self.score,
    {
        Resemblance::from_scaled(self.score)
    }

    /// The position of the dominant dimension: the one with the
    /// greatest weighted contribution, ties resolving to the later
    /// dimension. Nothing dominates an empty profile.
    pub fn dominant(&self) -> (r: Option<usize>)
        ensures
            r is None <==> self.details@.len() == 0,
            (match r {
                Option::None => true,
                Option::Some(i) => i < self.details@.len() && (forall|j: int|
                    0 <= j < self.details@.len() ==> (#[trigger] self.details@[j]).contribution
                        <= self.details@[i as int].contribution) && (forall|j: int|
                    i < j < self.details@.len() ==> (#[trigger] self.details@[j]).contribution
                        < self.details@[i as int].contribution),
            }),
    {
        let n = self.details.len();
        if n == 0 {
            return None;
        }
        let mut best: usize = 0;
        let mut j: usize = 1;
        while j < n
            invariant
                best < j <= n,
                n == self.details@.len(),
                forall|t: int|
                    0 <= t < j ==> (#[trigger] self.details@[t]).contribution <= self.details@[
                    best as int].contribution,
                forall|t: int|
                    best < t < j ==> (#[trigger] self.details@[t]).contribution < self.details@[
                    best as int].contribution,
            decreases n - j,
        {
            if self.details[j].contribution >= self.details[best].contribution {
                best = j;
            }
            j = j + 1;
        }
        Some(best)
    }

    /// The kind of match this profile amounts to: exact when some
    /// dimension was perfect, similar (tagged with the candidate) when
    /// anything scored, and not found otherwise.
    pub fn match_type(&self) -> (r: MatchType)
        ensures
            self.perfect ==> r == MatchType::Exact,
            !self.perfect && self.score > 0 ==> r is Similar && r->Similar_0@
                == self.candidate@,
            !self.perfect && self.score == 0 ==> r == MatchType::NotFound,
    {
        if self.perfect {
            MatchType::Exact
        } else if self.score > 0 {
            MatchType::Similar(clone_string(&self.candidate))
        } else {
            MatchType::NotFound
        }
    }
}

/// A copy of a string with the same characters.
pub fn clone_string(s: &String) -> (r: String)
    ensures
        r@ == s@,
{
    s.clone()
}

} // verus!
