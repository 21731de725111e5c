use resemblance::{
    Assessor, Custom, JaccardMetric, Metric, MetricFailure, Scheme, Union, EditDistanceScorer,
    ExactMatchScorer, CaseInsensitiveScorer, SubstringScorer, SCALE, WEIGHT_ONE,
};
use resemblance::fuzzy::SimpleLevenshteinMetric;
use resemblance::lexical::AcronymScorer;
use resemblance::{CompositeMetric, CompositeStrategy, FullMatcher, MatcherPresets};
use resemblance::{MatchType, Resemblance};

fn s(text: &str) -> String {
    String::from(text)
}

fn jaccard_engine(floor: u64) -> Assessor<Metric> {
    Assessor::new().floor(floor).dimension(Metric::Jaccard(JaccardMetric), WEIGHT_ONE)
}

fn edit_engine(floor: u64) -> Assessor<Metric> {
    Assessor::new().floor(floor).dimension(Metric::Edit(EditDistanceScorer), WEIGHT_ONE)
}

#[test]
fn additive_weighted_mean_reaches_the_floor_exactly() {
    // Two dimensions both scoring 0.5 under weights 0.7 and 0.3 blend to
    // exactly 0.5, which meets a floor of 0.5.
    let engine = Assessor::new()
        .floor(500_000)
        .dimension(Metric::Jaccard(JaccardMetric), 700_000)
        .dimension(Metric::Jaccard(JaccardMetric), 300_000);
    let profile = engine.profile(&s("test"), &s("tent"));
    assert_eq!(profile.score, 500_000);
    assert!(engine.viable(&s("test"), &s("tent")));
}

#[test]
fn jaccard_of_test_and_tent_is_half() {
    // Character sets {t,e,s} and {t,e,n}: intersection {t,e} over union
    // {t,e,s,n} gives 0.5 exactly.
    let engine = jaccard_engine(0);
    let profile = engine.profile(&s("test"), &s("tent"));
    assert_eq!(profile.score, 500_000);
}

#[test]
fn edit_distance_of_test_and_tent_is_one_substitution() {
    assert_eq!(resemblance::damerau_levenshtein_distance("test", "tent"), 1);
    let engine = edit_engine(0);
    let profile = engine.profile(&s("test"), &s("tent"));
    assert_eq!(profile.score, 750_000);
}

#[test]
fn minimum_and_maximum_bound_the_dimensions() {
    let engine = Assessor::new()
        .dimension(Metric::Jaccard(JaccardMetric), WEIGHT_ONE)
        .dimension(Metric::Edit(EditDistanceScorer), WEIGHT_ONE);
    let low = engine.scheme(Scheme::Minimum).profile(&s("test"), &s("tent"));
    assert_eq!(low.score, 500_000);
    let engine2 = Assessor::new()
        .dimension(Metric::Jaccard(JaccardMetric), WEIGHT_ONE)
        .dimension(Metric::Edit(EditDistanceScorer), WEIGHT_ONE)
        .scheme(Scheme::Maximum);
    let high = engine2.profile(&s("test"), &s("tent"));
    assert_eq!(high.score, 750_000);
}

#[test]
fn harmonic_multiplicative_additive_are_ordered() {
    // Strictly positive, non-uniform scores: 0.5 at weight 1.0 and 0.75
    // at weight 2.0.
    let build = |scheme: Scheme| {
        Assessor::new()
            .scheme(scheme)
            .dimension(Metric::Jaccard(JaccardMetric), WEIGHT_ONE)
            .dimension(Metric::Edit(EditDistanceScorer), 2 * WEIGHT_ONE)
    };
    let harmonic = build(Scheme::Harmonic).profile(&s("test"), &s("tent")).score;
    let multiplicative = build(Scheme::Multiplicative).profile(&s("test"), &s("tent")).score;
    let additive = build(Scheme::Additive).profile(&s("test"), &s("tent")).score;
    assert_eq!(harmonic, 642_857);
    assert_eq!(additive, 666_666);
    assert!(harmonic <= multiplicative);
    assert!(multiplicative <= additive);
    // The geometric mean of 0.5 and 0.75 under these weights is near 0.655.
    assert!(multiplicative > 640_000 && multiplicative < 670_000);
}

#[test]
fn single_dimension_additive_reproduces_raw_score() {
    let engine = jaccard_engine(0);
    let profile = engine.profile(&s("test"), &s("tent"));
    let raw = jaccard_engine(0).profile(&s("test"), &s("tent")).score;
    assert_eq!(profile.score, raw);
    assert_eq!(profile.score, 500_000);
}

#[test]
fn profile_is_idempotent() {
    let engine = Assessor::new()
        .dimension(Metric::Jaccard(JaccardMetric), WEIGHT_ONE)
        .dimension(Metric::Edit(EditDistanceScorer), 300_000);
    let first = engine.profile(&s("kitten"), &s("sitting"));
    let second = engine.profile(&s("kitten"), &s("sitting"));
    assert_eq!(first.score, second.score);
    assert_eq!(first.perfect, second.perfect);
    assert_eq!(first.details, second.details);
    assert_eq!(first.query, second.query);
    assert_eq!(first.candidate, second.candidate);
    assert!(first.failures.is_empty());
}

#[test]
fn shortlist_is_sorted_and_every_entry_clears_the_floor() {
    let engine = edit_engine(500_000);
    let candidates = vec![s("toast"), s("zzzz"), s("test"), s("tent")];
    let entries = engine.shortlist(&s("test"), &candidates);
    assert_eq!(entries.len(), 3);
    assert_eq!(entries[0].candidate, "test");
    assert_eq!(entries[0].score, SCALE);
    assert!(entries[0].perfect);
    assert_eq!(entries[1].candidate, "tent");
    assert_eq!(entries[1].score, 750_000);
    assert_eq!(entries[2].candidate, "toast");
    assert_eq!(entries[2].score, 600_000);
    for window in entries.windows(2) {
        assert!(window[0].score >= window[1].score);
    }
    for entry in &entries {
        assert!(entry.perfect || entry.score >= 500_000);
    }
}

#[test]
fn champion_equals_the_head_of_the_shortlist() {
    let engine = edit_engine(500_000);
    let candidates = vec![s("toast"), s("tent"), s("test")];
    let best = engine.champion(&s("test"), &candidates).expect("a viable candidate exists");
    let entries = engine.shortlist(&s("test"), &candidates);
    assert_eq!(best.index, entries[0].index);
    assert_eq!(best.score, entries[0].score);
    assert_eq!(best.candidate, entries[0].candidate);
}

#[test]
fn champion_ties_resolve_to_the_first_in_input_order() {
    let engine = edit_engine(0);
    // Both candidates sit at the same edit distance from the query.
    let candidates = vec![s("tent"), s("best"), s("toast")];
    let best = engine.champion(&s("test"), &candidates).expect("candidates exist");
    assert_eq!(best.index, 0);
    assert_eq!(best.candidate, "tent");
}

#[test]
fn empty_candidate_list_yields_nothing() {
    let engine = edit_engine(0);
    let none: Vec<String> = Vec::new();
    assert!(engine.champion(&s("test"), &none).is_none());
    assert!(engine.shortlist(&s("test"), &none).is_empty());
    assert!(engine.constrain(&s("test"), &none, 5).is_empty());
}

#[test]
fn constrain_caps_the_shortlist_and_zero_keeps_nothing() {
    let engine = edit_engine(500_000);
    let candidates = vec![s("toast"), s("tent"), s("test")];
    let capped = engine.constrain(&s("test"), &candidates, 2);
    assert_eq!(capped.len(), 2);
    assert_eq!(capped[0].candidate, "test");
    assert_eq!(capped[1].candidate, "tent");
    assert!(engine.constrain(&s("test"), &candidates, 0).is_empty());
}

#[test]
fn threshold_scheme_vetoes_on_a_single_low_dimension() {
    // One dimension scores 0.4 (below the fixed 0.5 gate), the other 0.9;
    // the aggregate collapses to zero whatever the weights.
    fn low(_q: &String, _c: &String) -> Result<u64, MetricFailure> {
        Ok(400_000)
    }
    let engine = Assessor::new()
        .scheme(Scheme::Threshold)
        .dimension(Custom::new(low as fn(&String, &String) -> Result<u64, MetricFailure>), WEIGHT_ONE)
        .dimension(Custom::new(high as fn(&String, &String) -> Result<u64, MetricFailure>), WEIGHT_ONE);
    fn high(_q: &String, _c: &String) -> Result<u64, MetricFailure> {
        Ok(900_000)
    }
    let profile = engine.profile(&s("anything"), &s("else"));
    assert_eq!(profile.score, 0);
}

#[test]
fn threshold_scheme_averages_when_every_dimension_clears_the_gate() {
    let engine = Assessor::new()
        .scheme(Scheme::Threshold)
        .dimension(Metric::Jaccard(JaccardMetric), WEIGHT_ONE)
        .dimension(Metric::Edit(EditDistanceScorer), WEIGHT_ONE);
    // Scores 0.5 and 0.75 both clear the 0.5 gate.
    let profile = engine.profile(&s("test"), &s("tent"));
    assert_eq!(profile.score, 625_000);
}

#[test]
fn a_failing_dimension_is_isolated_and_recorded() {
    fn broken(_q: &String, _c: &String) -> Result<u64, MetricFailure> {
        Err(MetricFailure { detail: String::from("no score for this input") })
    }
    let engine = Assessor::new()
        .dimension(Custom::new(broken as fn(&String, &String) -> Result<u64, MetricFailure>), WEIGHT_ONE);
    let profile = engine.profile(&s("a"), &s("b"));
    assert_eq!(profile.failures.len(), 1);
    assert_eq!(profile.details.len(), 1);
    assert!(profile.details[0].failed);
    assert_eq!(profile.details[0].score, 0);
    assert_eq!(profile.score, 0);
}

#[test]
fn union_prefers_the_perfect_champion() {
    // The case-insensitive assessor judges the pair perfect; the
    // substring assessor scores it well but not perfectly.
    let relaxed = Assessor::new().floor(400_000).dimension(
        Metric::CaseInsensitive(CaseInsensitiveScorer),
        WEIGHT_ONE,
    );
    let containment = Assessor::new().floor(400_000).dimension(
        Metric::Substring(SubstringScorer),
        WEIGHT_ONE,
    );
    let union = Union::new().floor(400_000).add(containment).add(relaxed);
    let candidates = vec![s("alpha")];
    let best = union.find_best(&s("ALPHA"), &candidates).expect("a perfect match exists");
    assert!(best.perfect);
    assert_eq!(best.source, 1);
    assert_eq!(best.candidate, "alpha");
    assert_eq!(best.score, 950_000);
}

#[test]
fn union_find_all_merges_sorts_and_deduplicates() {
    let edit = Assessor::new().floor(500_000).dimension(
        Metric::Edit(EditDistanceScorer),
        WEIGHT_ONE,
    );
    let jaccard = Assessor::new().floor(400_000).dimension(
        Metric::Jaccard(JaccardMetric),
        WEIGHT_ONE,
    );
    let union = Union::new().add(edit).add(jaccard);
    let candidates = vec![s("tent"), s("test")];
    let all = union.find_all(&s("test"), &candidates, 0);
    // Both assessors rank both candidates; each candidate appears once.
    assert_eq!(all.len(), 2);
    assert_eq!(all[0].candidate, "test");
    assert_eq!(all[0].score, SCALE);
    assert_eq!(all[1].candidate, "tent");
    assert!(all[0].score >= all[1].score);
    let capped = union.find_all(&s("test"), &candidates, 1);
    assert_eq!(capped.len(), 1);
    assert_eq!(capped[0].candidate, "test");
}

#[test]
fn composite_strategies_reduce_children_as_documented() {
    let maximum = Metric::Composite(
        CompositeMetric::new(CompositeStrategy::Maximum)
            .with_metric(Metric::Exact(ExactMatchScorer))
            .with_metric(Metric::Jaccard(JaccardMetric)),
    );
    let engine = Assessor::new().dimension(maximum, WEIGHT_ONE);
    assert_eq!(engine.profile(&s("test"), &s("tent")).score, 500_000);

    let fallback = Metric::Composite(
        CompositeMetric::new(CompositeStrategy::Fallback(600_000))
            .with_metric(Metric::Jaccard(JaccardMetric))
            .with_metric(Metric::Edit(EditDistanceScorer)),
    );
    let engine = Assessor::new().dimension(fallback, WEIGHT_ONE);
    // Jaccard scores 0.5, under the 0.6 threshold; edit distance wins.
    assert_eq!(engine.profile(&s("test"), &s("tent")).score, 750_000);

    let weighted = Metric::Composite(
        CompositeMetric::new(CompositeStrategy::Weighted(vec![3 * WEIGHT_ONE]))
            .with_metric(Metric::Jaccard(JaccardMetric))
            .with_metric(Metric::Edit(EditDistanceScorer)),
    );
    let engine = Assessor::new().dimension(weighted, WEIGHT_ONE);
    // (0.5 * 3 + 0.75 * 1) / 4 = 0.5625; the second child weighs 1.0.
    assert_eq!(engine.profile(&s("test"), &s("tent")).score, 562_500);

    let average = Metric::Composite(
        CompositeMetric::new(CompositeStrategy::Average)
            .with_metric(Metric::Jaccard(JaccardMetric))
            .with_metric(Metric::Edit(EditDistanceScorer)),
    );
    let engine = Assessor::new().dimension(average, WEIGHT_ONE);
    assert_eq!(engine.profile(&s("test"), &s("tent")).score, 625_000);
}

#[test]
fn composite_maximum_is_perfect_when_any_child_is() {
    let composite = Metric::Composite(
        CompositeMetric::new(CompositeStrategy::Maximum)
            .with_metric(Metric::Exact(ExactMatchScorer))
            .with_metric(Metric::LengthGap(SimpleLevenshteinMetric)),
    );
    let engine = Assessor::new().dimension(composite, WEIGHT_ONE);
    assert!(engine.profile(&s("same"), &s("same")).perfect);
    assert!(!engine.profile(&s("same"), &s("other")).perfect);
}

#[test]
fn acronym_and_exact_under_threshold_veto() {
    // The acronym dimension scores zero on a plain equal pair, vetoing
    // the threshold scheme even though equality scores a full unit.
    let engine = Assessor::new()
        .scheme(Scheme::Threshold)
        .dimension(Metric::Exact(ExactMatchScorer), WEIGHT_ONE)
        .dimension(Metric::Acronym(AcronymScorer::default()), WEIGHT_ONE);
    let profile = engine.profile(&s("ab"), &s("ab"));
    assert_eq!(profile.score, 0);
    // The perfect flag still comes through the exact dimension.
    assert!(profile.perfect);
}

#[test]
fn presets_build_working_engines() {
    let fuzzy = MatcherPresets::customize_fuzzy_matcher();
    assert!(fuzzy.viable(&s("hello"), &s("hello")));
    let full = FullMatcher::new();
    let profile = full.engine.profile(&s("hello"), &s("hello"));
    assert!(profile.perfect);
    // The case-insensitive dimension grants 0.95 even on equal strings,
    // so the weighted mean lands just below one unit.
    assert_eq!(profile.score, 985_714);
}

#[test]
fn profiles_classify_into_resemblance_and_match_type() {
    let engine = edit_engine(0);
    let exact = engine.profile(&s("test"), &s("test"));
    assert_eq!(exact.resemblance(), Resemblance::Perfect);
    assert_eq!(exact.match_type(), MatchType::Exact);
    let close = engine.profile(&s("test"), &s("tent"));
    assert_eq!(close.resemblance(), Resemblance::Partial(750_000));
    assert_eq!(close.resemblance().to_scaled(), 750_000);
    assert_eq!(close.match_type(), MatchType::Similar(s("tent")));
    let missed = engine.profile(&s("ab"), &s("xy"));
    assert_eq!(missed.resemblance(), Resemblance::Disparity);
    assert_eq!(missed.match_type(), MatchType::NotFound);
}

#[test]
fn multiplicative_scheme_edge_behavior() {
    // Every dimension perfect keeps the geometric mean at one unit.
    let all_perfect = Assessor::new()
        .scheme(Scheme::Multiplicative)
        .dimension(Metric::Exact(ExactMatchScorer), WEIGHT_ONE)
        .dimension(Metric::Jaccard(JaccardMetric), 2 * WEIGHT_ONE);
    assert_eq!(all_perfect.profile(&s("same"), &s("same")).score, SCALE);

    // One positively weighted zero vetoes the whole product, as does a
    // zero under the harmonic scheme.
    let vetoed = Assessor::new()
        .scheme(Scheme::Multiplicative)
        .dimension(Metric::Exact(ExactMatchScorer), WEIGHT_ONE)
        .dimension(Metric::Jaccard(JaccardMetric), WEIGHT_ONE);
    assert_eq!(vetoed.profile(&s("test"), &s("tent")).score, 0);
    let harmonic = Assessor::new()
        .scheme(Scheme::Harmonic)
        .dimension(Metric::Exact(ExactMatchScorer), WEIGHT_ONE)
        .dimension(Metric::Jaccard(JaccardMetric), WEIGHT_ONE);
    assert_eq!(harmonic.profile(&s("test"), &s("tent")).score, 0);

    // An engine without dimensions resolves to zero rather than a fault.
    let empty: Assessor<Metric> = Assessor::new().scheme(Scheme::Multiplicative);
    assert_eq!(empty.profile(&s("a"), &s("b")).score, 0);
}

#[test]
fn every_preset_matcher_accepts_an_identical_pair() {
    assert!(MatcherPresets::fuzzy_string_matcher().viable(&s("acme"), &s("acme")));
    assert!(MatcherPresets::name_matcher().viable(&s("Robert"), &s("Robert")));
    assert!(MatcherPresets::address_matcher().viable(&s("1 main st"), &s("1 main st")));
    assert!(MatcherPresets::document_matcher().viable(&s("some text"), &s("some text")));
    assert!(!MatcherPresets::fuzzy_string_matcher().viable(&s("acme"), &s("zzzz")));
}

#[test]
fn dominant_dimension_has_the_greatest_contribution() {
    let engine = Assessor::new()
        .dimension(Metric::Jaccard(JaccardMetric), WEIGHT_ONE)
        .dimension(Metric::Edit(EditDistanceScorer), 2 * WEIGHT_ONE);
    // Contributions 0.5 * 1.0 against 0.75 * 2.0: the second dominates.
    let profile = engine.profile(&s("test"), &s("tent"));
    assert_eq!(profile.dominant(), Some(1));
    // Equal contributions resolve to the later dimension.
    let tied = Assessor::new()
        .dimension(Metric::Jaccard(JaccardMetric), WEIGHT_ONE)
        .dimension(Metric::Jaccard(JaccardMetric), WEIGHT_ONE);
    assert_eq!(tied.profile(&s("test"), &s("tent")).dominant(), Some(1));
    let empty: Assessor<Metric> = Assessor::new();
    assert_eq!(empty.profile(&s("a"), &s("b")).dominant(), None);
}

#[test]
fn shortlist_of_a_closure_engine_is_still_ranked_and_gated() {
    // A caller-supplied scoring function: closeness of lengths. The
    // engine cannot pin such scores at the spec level, but the returned
    // shortlist is still sorted, duplicate-free and floor-gated.
    fn by_length(q: &String, c: &String) -> Result<u64, MetricFailure> {
        let gap = (q.chars().count() as i64 - c.chars().count() as i64).unsigned_abs();
        Ok(SCALE.saturating_sub(gap.saturating_mul(250_000)))
    }
    let engine = Assessor::new()
        .floor(400_000)
        .dimension(
            Custom::new(by_length as fn(&String, &String) -> Result<u64, MetricFailure>),
            WEIGHT_ONE,
        );
    let candidates = vec![s("aaaaaa"), s("aa"), s("aaa"), s("a")];
    let entries = engine.shortlist(&s("aaa"), &candidates);
    assert_eq!(entries.len(), 3);
    assert_eq!(entries[0].candidate, "aaa");
    assert_eq!(entries[0].score, SCALE);
    for window in entries.windows(2) {
        assert!(window[0].score >= window[1].score);
    }
    for entry in &entries {
        assert!(entry.perfect || entry.score >= 400_000);
    }
}
