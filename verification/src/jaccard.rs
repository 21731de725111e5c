//! Character-set Jaccard overlap: intersection over union of the two
//! strings' character sets.

use vstd::prelude::*;
use crate::capability::Capability;
use crate::chars::chars_vec;
use crate::collections::{CharSet, char_set_contents};
use crate::score::{Measurement, MetricFailure, SCALE, PERFECT_GATE};

verus! {

broadcast use vstd::set::group_set_axioms, vstd::seq_lib::seq_to_set_is_finite;

/// The size of a union of two disjoint finite sets is the sum of their
/// sizes.
pub proof fn lemma_len_disjoint_union<A>(s1: Set<A>, s2: Set<A>)
    requires
        s1.finite(),
        s2.finite(),
        s1.intersect(s2) =~= Set::<A>::empty(),
    ensures
        s1.union(s2).len() == s1.len() + s2.len(),
    decreases s1.len(),
{
    if s1.is_empty() {
        assert(s1.union(s2) =~= s2);
        assert(s1.len() == 0) by {
            s1.lemma_len0_is_empty();
        }
    } else {
        let a = s1.choose();
        assert(s1.contains(a));
        assert(!s1.intersect(s2).contains(a));
        assert(!s2.contains(a));
        assert(s1.remove(a).intersect(s2) =~= Set::<A>::empty());
        assert(s1.union(s2).remove(a) =~= s1.remove(a).union(s2));
        lemma_len_disjoint_union::<A>(s1.remove(a), s2);
        assert(s1.union(s2).contains(a));
    }
}

/// The character-set Jaccard overlap of two strings in fixed point:
/// the size of the intersection of their character sets over the size of
/// the union; two empty strings overlap fully.
pub open spec fn spec_jaccard(q: Seq<char>, c: Seq<char>) -> int {
    let qs = q.to_set();
    let cs = c.to_set();
    if qs.union(cs).len() == 0 {
        SCALE as int
    } else {
        SCALE * qs.intersect(cs).len() / (qs.union(cs).len() as int)
    }
}

/// Counts the distinct characters of `chars`, splitting them into those
/// present in `other` and those not, while `seen` collects them.
fn split_distinct(chars: &Vec<char>, other: &CharSet) -> (r: (usize, usize))
    requires
        chars@.len() <= usize::MAX,
    ensures
        r.0 as int == chars@.to_set().intersect(char_set_contents(*other)).len(),
        r.1 as int == chars@.to_set().difference(char_set_contents(*other)).len(),
{
    let ghost target = char_set_contents(*other);
    let mut seen = CharSet::new();
    let mut inside: usize = 0;
    let mut outside: usize = 0;
    let mut i: usize = 0;
    proof {
        assert(chars@.take(0).to_set() =~= Set::<char>::empty());
        assert(chars@.take(0).to_set().intersect(target) =~= Set::<char>::empty());
        assert(chars@.take(0).to_set().difference(target) =~= Set::<char>::empty());
    }
    while i < chars.len()
        invariant
            i <= chars@.len(),
            target == char_set_contents(*other),
            char_set_contents(seen) == chars@.take(i as int).to_set(),
            inside as int == chars@.take(i as int).to_set().intersect(target).len(),
            outside as int == chars@.take(i as int).to_set().difference(target).len(),
            inside + outside <= i,
        decreases chars@.len() - i,
    {
        let ghost before = chars@.take(i as int).to_set();
        proof {
            assert(chars@.take(i + 1) =~= chars@.take(i as int) + seq![chars@[i as int]]);
            Seq::<char>::lemma_to_set_insert_commutes(chars@.take(i as int), chars@[i as int]);
            assert(chars@.take(i + 1).to_set() =~= before.insert(chars@[i as int]));
        }
        let c = chars[i];
        if !seen.contains(c) {
            seen.insert(c);
            let is_shared = other.contains(c);
            proof {
                assert(before.finite());
                assert(before.intersect(target).finite());
                assert(before.difference(target).finite());
                if target.contains(chars@[i as int]) {
                    assert(before.insert(chars@[i as int]).intersect(target) =~= before.intersect(
                        target,
                    ).insert(chars@[i as int]));
                    assert(before.insert(chars@[i as int]).difference(target) =~= before.difference(
                        target,
                    ));
                    assert(!before.intersect(target).contains(chars@[i as int]));
                } else {
                    assert(before.insert(chars@[i as int]).intersect(target) =~= before.intersect(
                        target,
                    ));
                    assert(before.insert(chars@[i as int]).difference(target) =~= before.difference(
                        target,
                    ).insert(chars@[i as int]));
                    assert(!before.difference(target).contains(chars@[i as int]));
                }
            }
            if is_shared {
                inside = inside + 1;
            } else {
                outside = outside + 1;
            }
        } else {
            proof {
                assert(before.contains(chars@[i as int]));
                assert(before.insert(chars@[i as int]) =~= before);
            }
        }
        i = i + 1;
    }
    proof {
        assert(chars@.take(chars@.len() as int) =~= chars@);
    }
    (inside, outside)
}

/// Collects the characters of `chars` into a hash set, counting the
/// distinct ones.
fn collect_chars(chars: &Vec<char>) -> (r: (CharSet, usize))
    ensures
        char_set_contents(r.0) == chars@.to_set(),
        r.1 as int == chars@.to_set().len(),
{
    let mut set = CharSet::new();
    let mut distinct: usize = 0;
    let mut i: usize = 0;
    proof {
        assert(chars@.take(0).to_set() =~= Set::<char>::empty());
    }
    while i < chars.len()
        invariant
            i <= chars@.len(),
            char_set_contents(set) == chars@.take(i as int).to_set(),
            distinct as int == chars@.take(i as int).to_set().len(),
            distinct <= i,
        decreases chars@.len() - i,
    {
        let ghost before = chars@.take(i as int).to_set();
        proof {
            assert(chars@.take(i + 1) =~= chars@.take(i as int) + seq![chars@[i as int]]);
            Seq::<char>::lemma_to_set_insert_commutes(chars@.take(i as int), chars@[i as int]);
            assert(chars@.take(i + 1).to_set() =~= before.insert(chars@[i as int]));
            assert(before.finite());
        }
        let c = chars[i];
        if !set.contains(c) {
            set.insert(c);
            distinct = distinct + 1;
        } else {
            proof {
                assert(before.contains(chars@[i as int]));
                assert(before.insert(chars@[i as int]) =~= before);
            }
        }
        i = i + 1;
    }
    proof {
        assert(chars@.take(chars@.len() as int) =~= chars@);
    }
    (set, distinct)
}

/// Character-set Jaccard overlap of two strings.
#[derive(Clone, Copy, Debug, PartialEq, Eq, Structural)]
pub struct JaccardMetric;

impl Capability for JaccardMetric {
    open spec fn wf(&self) -> bool {
        true
    }

    open spec fn total(&self) -> bool {
        true
    }

    open spec fn spec_score(&self, q: Seq<char>, c: Seq<char>) -> u64 {
        spec_jaccard(q, c) as u64
    }

    open spec fn spec_perfect(&self, q: Seq<char>, c: Seq<char>) -> bool {
        spec_jaccard(q, c) >= PERFECT_GATE
    }

    fn measure(&self, query: &String, candidate: &String) -> (r: Result<
        Measurement,
        MetricFailure,
    >) {
        let q_chars = chars_vec(query);
        let c_chars = chars_vec(candidate);
        let ghost qset = query@.to_set();
        let ghost cset = candidate@.to_set();
        let collected = collect_chars(&c_chars);
        let c_set = collected.0;
        let c_distinct = collected.1;
        let split = split_distinct(&q_chars, &c_set);
        let inter = split.0;
        let only_q = split.1;
        proof {
            assert(qset.finite());
            assert(cset.finite());
            assert(qset.difference(cset).finite());
            assert(qset.difference(cset).intersect(cset) =~= Set::<char>::empty());
            lemma_len_disjoint_union(qset.difference(cset), cset);
            assert(qset.difference(cset).union(cset) =~= qset.union(cset));
            assert(qset.intersect(cset).len() <= qset.union(cset).len()) by {
                assert(qset.union(cset).len() == qset.difference(cset).len() + cset.len());
                assert(qset.intersect(cset).subset_of(cset));
                vstd::set_lib::lemma_len_subset(qset.intersect(cset), cset);
                assert(qset.intersect(cset).finite());
            }
        }
        proof {
            query@.lemma_cardinality_of_set();
            candidate@.lemma_cardinality_of_set();
            vstd::set_lib::lemma_len_subset(qset.difference(cset), qset);
        }
        let union_size = only_q + c_distinct;
        if union_size == 0 {
            proof {
                assert(qset.union(cset).len() == 0);
            }
            return Ok(Measurement { score: SCALE, perfect: true });
        }
        proof {
            assert((SCALE as int) * (inter as int) / (union_size as int) <= SCALE as int)
                by (nonlinear_arith)
                requires
                    union_size as int > 0,
                    0 <= inter as int <= union_size as int,
                    SCALE as int > 0;
            assert((SCALE as int) * (inter as int) >= 0) by (nonlinear_arith)
                requires inter as int >= 0;
        }
        let wide: u128 = (SCALE as u128) * (inter as u128);
        let score = (wide / (union_size as u128)) as u64;
        Ok(Measurement { score, perfect: score >= PERFECT_GATE })
    }
}

pub proof fn lemma_jaccard_bounds(q: Seq<char>, c: Seq<char>)
    ensures
        0 <= spec_jaccard(q, c) <= SCALE,
{
    let qs = q.to_set();
    let cs = c.to_set();
    if qs.union(cs).len() != 0 {
        assert(qs.finite());
        assert(cs.finite());
        assert(qs.intersect(cs).subset_of(qs.union(cs)));
        assert(qs.intersect(cs).finite());
        vstd::set_lib::lemma_len_subset(qs.intersect(cs), qs.union(cs));
        assert(0 <= SCALE * qs.intersect(cs).len() / (qs.union(cs).len() as int) <= SCALE as int)
            by (nonlinear_arith)
            requires
                qs.union(cs).len() > 0,
                0 <= qs.intersect(cs).len() <= qs.union(cs).len(),
                SCALE as int > 0;
    }
}

} // verus!
