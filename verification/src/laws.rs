//! The engine's laws: properties that relate the ranking operations and
//! the blending schemes, proved once and for all configurations.

use vstd::prelude::*;
use crate::assessor::{Assessor, Profile};
use crate::capability::Capability;
use crate::ranking::Outcome;
use crate::scheme::{Scheme, spec_blend, lemma_minimum_le_each, lemma_maximum_ge_each,
    lemma_additive_single_identity, all_clear_gate};
use crate::score::THRESHOLD_GATE;

verus! {

/// Under the minimum scheme, the aggregate never exceeds any single
/// dimension's score.
pub proof fn lemma_minimum_bounds_each_dimension<M: Capability>(
    a: &Assessor<M>,
    q: Seq<char>,
    c: Seq<char>,
    i: int,
)
    requires
        a.scheme == Scheme::Minimum,
        0 <= i < a.dimensions@.len(),
    ensures
        a.spec_aggregate(q, c) <= a.dimensions@[i].metric.spec_score(q, c),
{
    lemma_minimum_le_each(a.spec_scores(q, c), i);
}

/// Under the maximum scheme, the aggregate is at least every single
/// dimension's score.
pub proof fn lemma_maximum_bounds_each_dimension<M: Capability>(
    a: &Assessor<M>,
    q: Seq<char>,
    c: Seq<char>,
    i: int,
)
    requires
        a.scheme == Scheme::Maximum,
        0 <= i < a.dimensions@.len(),
    ensures
        a.spec_aggregate(q, c) >= a.dimensions@[i].metric.spec_score(q, c),
{
    lemma_maximum_ge_each(a.spec_scores(q, c), i);
}

/// A single dimension with a positive weight under the additive scheme
/// reproduces that dimension's raw score exactly.
pub proof fn lemma_single_dimension_additive_identity<M: Capability>(
    a: &Assessor<M>,
    q: Seq<char>,
    c: Seq<char>,
)
    requires
        a.scheme == Scheme::Additive,
        a.dimensions@.len() == 1,
        a.dimensions@[0].weight > 0,
    ensures
        a.spec_aggregate(q, c) == a.dimensions@[0].metric.spec_score(q, c),
{
    let r = a.dimensions@[0].metric.spec_score(q, c);
    let w = a.dimensions@[0].weight;
    assert(a.spec_scores(q, c) =~= seq![r]);
    assert(a.spec_weights() =~= seq![w]);
    lemma_additive_single_identity(r, w);
}

/// Under the threshold scheme, one dimension below the fixed gate vetoes
/// the whole aggregate, whatever the weights.
pub proof fn lemma_threshold_veto<M: Capability>(
    a: &Assessor<M>,
    q: Seq<char>,
    c: Seq<char>,
    i: int,
)
    requires
        a.scheme == Scheme::Threshold,
        0 <= i < a.dimensions@.len(),
        a.dimensions@[i].metric.spec_score(q, c) < THRESHOLD_GATE,
    ensures
        a.spec_aggregate(q, c) == 0,
{
    assert(a.spec_scores(q, c)[i] < THRESHOLD_GATE);
    assert(!all_clear_gate(a.spec_scores(q, c)));
}

/// For one configuration of dimensions, the harmonic aggregate never
/// exceeds the additive aggregate.
pub proof fn lemma_harmonic_scheme_below_additive<M: Capability>(
    a: &Assessor<M>,
    q: Seq<char>,
    c: Seq<char>,
)
    requires
        forall|i: int|
            0 <= i < a.dimensions@.len() ==> crate::score::valid_weight(
                (#[trigger] a.dimensions@[i]).weight,
            ),
        forall|i: int|
            0 <= i < a.dimensions@.len() ==> crate::score::valid_score(
                (#[trigger] a.dimensions@[i]).metric.spec_score(q, c),
            ),
    ensures
        spec_blend(Scheme::Harmonic, a.spec_scores(q, c), a.spec_weights()) <= spec_blend(
            Scheme::Additive,
            a.spec_scores(q, c),
            a.spec_weights(),
        ),
{
    crate::scheme::lemma_harmonic_le_additive(a.spec_scores(q, c), a.spec_weights());
}

/// Profiling is idempotent: for a total assessor, any two profiles of
/// the same configuration and inputs agree on every observable field.
pub proof fn lemma_profile_idempotent<M: Capability>(
    a: &Assessor<M>,
    q: Seq<char>,
    c: Seq<char>,
    first: &Profile,
    second: &Profile,
)
    requires
        a.total(),
        a.profile_post(q, c, first),
        a.profile_post(q, c, second),
    ensures
        first.score == second.score,
        first.perfect == second.perfect,
        first.details@ == second.details@,
        first.failures@.len() == 0,
        second.failures@.len() == 0,
        first.query@ == second.query@,
        first.candidate@ == second.candidate@,
{
    assert(first.details@ =~= second.details@);
}

/// No viable candidate among the first `n` means a viable count of zero.
pub proof fn lemma_count_viable_zero<M: Capability>(
    a: &Assessor<M>,
    q: Seq<char>,
    cs: Seq<String>,
    n: int,
)
    requires
        forall|k: int| 0 <= k < n ==> !a.cand_viable(q, cs, k),
    ensures
        a.count_viable(q, cs, n) == 0,
    decreases n,
{
    if n > 0 {
        lemma_count_viable_zero(a, q, cs, n - 1);
    }
}

/// The champion, when present, is exactly the head of the shortlist.
pub proof fn lemma_champion_heads_shortlist<M: Capability>(
    a: &Assessor<M>,
    q: Seq<char>,
    cs: Seq<String>,
    best: Option<Outcome>,
    entries: Seq<Outcome>,
)
    requires
        a.total(),
        a.champion_post(q, cs, best),
        a.shortlist_post(q, cs, entries),
    ensures
        best is None ==> entries.len() == 0,
        best is Some ==> entries.len() > 0 && entries[0].index == best->Some_0.index
            && entries[0].score == best->Some_0.score && entries[0].perfect
            == best->Some_0.perfect && entries[0].candidate@ == best->Some_0.candidate@,
{
    let n = cs.len() as int;
    a.lemma_champion_is_first_max(q, cs, n);
    match best {
        Option::None => {
            lemma_count_viable_zero(a, q, cs, n);
        },
        Option::Some(o) => {
            let pick = a.spec_champion_upto(q, cs, n);
            let p = pick->Some_0;
            assert(a.cand_viable(q, cs, p.index));
            let i = choose|i: int|
                0 <= i < entries.len() && (#[trigger] entries[i]).index as int == p.index;
            assert(entries.len() > 0);
            let e0 = entries[0];
            assert(a.entry_ok(q, cs, e0));
            assert(a.cand_viable(q, cs, e0.index as int));
            assert(e0.score as int <= p.score);
            if i != 0 {
                assert(crate::ranking::ranks_ge(entries[0], entries[i]));
            }
            assert(entries[i].score as int == a.cand_score(q, cs, p.index));
            assert(entries[i].score as int == p.score);
            assert(e0.score as int == p.score);
            assert(e0.index as int >= p.index);
            assert(e0.index as int <= p.index);
            assert(e0.index as int == p.index);
        },
    }
}

/// An empty candidate list yields no champion and an empty shortlist.
pub proof fn lemma_empty_candidates<M: Capability>(
    a: &Assessor<M>,
    q: Seq<char>,
    cs: Seq<String>,
    best: Option<Outcome>,
    entries: Seq<Outcome>,
)
    requires
        a.total(),
        cs.len() == 0,
        a.champion_post(q, cs, best),
        a.shortlist_post(q, cs, entries),
    ensures
        best is None,
        entries.len() == 0,
{
}

} // verus!
