//! Cosine similarity over character n-gram counts.
//!
//! The n-gram counters live in a hash map; the dot product and the two
//! norms are sums of occurrence counts, and the final quotient divides by
//! the exact integer square roots of the norms.

use vstd::prelude::*;
use crate::capability::Capability;
use crate::chars::chars_vec;
use crate::collections::{CountMap, count_map_entries};
use crate::fixed::{spec_isqrt, isqrt, is_isqrt, lemma_isqrt};
use crate::ngram::{spec_ngrams, ngrams, occ, lemma_occ_bounds, views};
use crate::score::{Measurement, MetricFailure, SCALE, valid_score};

verus! {

/// Largest accepted number of grams per side: a machine limit that keeps
/// every sum of squared counters within 64 bits.
pub const GRAM_MAX: usize = 1_000_000_000;

/// The dot product of gram-count vectors: the sum, over the entries of
/// `qs` with multiplicity, of how often each occurs in `cs`.
pub open spec fn spec_dot(qs: Seq<Seq<char>>, cs: Seq<Seq<char>>) -> int
    decreases qs.len(),
{
    if qs.len() == 0 {
        0
    } else {
        spec_dot(qs.drop_last(), cs) + occ(qs.last(), cs)
    }
}

pub proof fn lemma_dot_bounds(qs: Seq<Seq<char>>, cs: Seq<Seq<char>>)
    ensures
        0 <= spec_dot(qs, cs) <= qs.len() * cs.len(),
    decreases qs.len(),
{
    if qs.len() > 0 {
        lemma_dot_bounds(qs.drop_last(), cs);
        lemma_occ_bounds(qs.last(), cs);
        assert((qs.len() - 1) * cs.len() + cs.len() == qs.len() * cs.len()) by (nonlinear_arith);
    }
}

/// The cosine resemblance of two gram lists in fixed point: the dot
/// product over the product of the norms' integer square roots, clamped
/// to one unit.
pub open spec fn spec_cosine_lists(qs: Seq<Seq<char>>, cs: Seq<Seq<char>>) -> int {
    let dq = spec_isqrt(spec_dot(qs, qs));
    let dc = spec_isqrt(spec_dot(cs, cs));
    if dq <= 0 || dc <= 0 {
        0
    } else {
        let raw = spec_dot(qs, cs) * SCALE / (dq * dc);
        if raw > SCALE {
            SCALE as int
        } else {
            raw
        }
    }
}

/// Whether the map's entries are exactly the occurrence counts of `gs`.
pub open spec fn counts_match(m: CountMap, gs: Seq<Seq<char>>) -> bool {
    forall|g: Seq<char>|
        (#[trigger] count_map_entries(m).contains_key(g) <==> occ(g, gs) > 0) && (count_map_entries(
            m,
        ).contains_key(g) ==> count_map_entries(m)[g] == occ(g, gs))
}

/// Builds the occurrence-count map of a gram list.
fn count_grams(gs: &Vec<String>) -> (m: CountMap)
    requires
        gs@.len() <= GRAM_MAX,
    ensures
        counts_match(m, views(gs@)),
{
    let mut m = CountMap::new();
    let mut i: usize = 0;
    while i < gs.len()
        invariant
            i <= gs@.len(),
            gs@.len() <= GRAM_MAX,
            counts_match(m, views(gs@).take(i as int)),
        decreases gs@.len() - i,
    {
        proof {
            lemma_occ_bounds(gs@[i as int]@, views(gs@).take(i as int));
        }
        let current: u32 = match m.get(&gs[i]) {
            Option::Some(v) => v,
            Option::None => 0,
        };
        proof {
            assert(current as int == occ(gs@[i as int]@, views(gs@).take(i as int)));
        }
        let ghost old_m = m;
        let key = crate::assessor::clone_string(&gs[i]);
        m.insert(key, current + 1);
        proof {
            assert(views(gs@).take(i + 1).drop_last() =~= views(gs@).take(i as int));
            assert(views(gs@).take(i + 1).last() == gs@[i as int]@);
            assert forall|g: Seq<char>|
                (#[trigger] count_map_entries(m).contains_key(g) <==> occ(
                    g,
                    views(gs@).take(i + 1),
                ) > 0) && (count_map_entries(m).contains_key(g) ==> count_map_entries(m)[g] == occ(
                g,
                views(gs@).take(i + 1),
            )) by {
                lemma_occ_bounds(g, views(gs@).take(i as int));
                if g == gs@[i as int]@ {
                    assert(count_map_entries(m).contains_key(g));
                    assert(count_map_entries(m)[g] == current + 1);
                } else {
                    assert(occ(g, views(gs@).take(i + 1)) == occ(g, views(gs@).take(i as int)));
                    assert(count_map_entries(m).contains_key(g) <==> count_map_entries(
                        old_m,
                    ).contains_key(g));
                }
            }
        }
        i = i + 1;
    }
    proof {
        assert(views(gs@).take(gs@.len() as int) =~= views(gs@));
    }
    m
}

/// Sums, over the entries of `qs` with multiplicity, the occurrence
/// counts that `m` records for `cs`.
fn dot_with(qs: &Vec<String>, m: &CountMap, Ghost(cs): Ghost<Seq<Seq<char>>>) -> (r: u64)
    requires
        counts_match(*m, cs),
        qs@.len() <= GRAM_MAX,
        cs.len() <= GRAM_MAX,
    ensures
        r as int == spec_dot(views(qs@), cs),
{
    let mut acc: u64 = 0;
    let mut i: usize = 0;
    while i < qs.len()
        invariant
            i <= qs@.len(),
            qs@.len() <= GRAM_MAX,
            cs.len() <= GRAM_MAX,
            counts_match(*m, cs),
            acc as int == spec_dot(views(qs@).take(i as int), cs),
            acc <= (i as int) * (GRAM_MAX as int),
        decreases qs@.len() - i,
    {
        proof {
            lemma_occ_bounds(qs@[i as int]@, cs);
            assert(views(qs@).take(i + 1).drop_last() =~= views(qs@).take(i as int));
            assert(views(qs@).take(i + 1).last() == qs@[i as int]@);
            assert((i as int) * (GRAM_MAX as int) + (GRAM_MAX as int) == ((i + 1) as int) * (
            GRAM_MAX as int)) by (nonlinear_arith);
            assert(((i + 1) as int) * (GRAM_MAX as int) <= (GRAM_MAX as int) * (GRAM_MAX as int))
                by (nonlinear_arith)
                requires 0 <= (i + 1) as int <= GRAM_MAX as int;
        }
        let count: u32 = match m.get(&qs[i]) {
            Option::Some(v) => v,
            Option::None => 0,
        };
        proof {
            assert(count as int == occ(qs@[i as int]@, cs));
        }
        acc = acc + (count as u64);
        i = i + 1;
    }
    proof {
        assert(views(qs@).take(qs@.len() as int) =~= views(qs@));
    }
    acc
}

/// Cosine similarity over character n-gram counts.
#[derive(Clone, Copy, Debug, PartialEq, Eq, Structural)]
pub struct CosineScorer {
    /// Gram window size; at least one.
    pub n_gram_size: usize,
}

impl Default for CosineScorer {
    /// Bigrams by default.
    fn default() -> (r: CosineScorer)
        ensures
            r.n_gram_size == 2,
    {
        CosineScorer { n_gram_size: 2 }
    }
}

impl CosineScorer {
    /// A scorer over windows of `n_gram_size` characters; a size of zero
    /// is raised to one.
    pub fn new(n_gram_size: usize) -> (r: CosineScorer)
        ensures
            r.n_gram_size == (if n_gram_size >= 1 {
                n_gram_size as int
            } else {
                1int
            }),
            r.wf(),
    {
        CosineScorer { n_gram_size: if n_gram_size >= 1 { n_gram_size } else { 1 } }
    }
}

impl Capability for CosineScorer {
    open spec fn wf(&self) -> bool {
        self.n_gram_size >= 1
    }

    open spec fn total(&self) -> bool {
        true
    }

    open spec fn spec_score(&self, q: Seq<char>, c: Seq<char>) -> u64 {
        if q.len() == 0 && c.len() == 0 {
            SCALE
        } else if q.len() == 0 || c.len() == 0 {
            0
        } else {
            let qs = spec_ngrams(q, self.n_gram_size as int);
            let cs = spec_ngrams(c, self.n_gram_size as int);
            if qs.len() > GRAM_MAX || cs.len() > GRAM_MAX {
                0
            } else {
                spec_cosine_lists(qs, cs) as u64
            }
        }
    }

    open spec fn spec_perfect(&self, q: Seq<char>, c: Seq<char>) -> bool {
        q == c
    }

    fn measure(&self, query: &String, candidate: &String) -> (r: Result<
        Measurement,
        MetricFailure,
    >) {
        let perfect = query.eq(candidate);
        let q_chars = chars_vec(query);
        let c_chars = chars_vec(candidate);
        if q_chars.len() == 0 && c_chars.len() == 0 {
            return Ok(Measurement { score: SCALE, perfect });
        }
        if q_chars.len() == 0 || c_chars.len() == 0 {
            return Ok(Measurement { score: 0, perfect });
        }
        let qs = ngrams(&q_chars, self.n_gram_size);
        let cs = ngrams(&c_chars, self.n_gram_size);
        proof {
            assert(views(qs@) =~= spec_ngrams(query@, self.n_gram_size as int));
            assert(views(cs@) =~= spec_ngrams(candidate@, self.n_gram_size as int));
        }
        if qs.len() > GRAM_MAX || cs.len() > GRAM_MAX {
            return Ok(Measurement { score: 0, perfect });
        }
        let q_counts = count_grams(&qs);
        let c_counts = count_grams(&cs);
        let dot = dot_with(&qs, &c_counts, Ghost(views(cs@)));
        let qn = dot_with(&qs, &q_counts, Ghost(views(qs@)));
        let cn = dot_with(&cs, &c_counts, Ghost(views(cs@)));
        let dq = isqrt(qn as u128);
        let dc = isqrt(cn as u128);
        proof {
            lemma_isqrt(qn as int);
            lemma_isqrt(cn as int);
            lemma_dot_bounds(views(qs@), views(qs@));
            lemma_dot_bounds(views(cs@), views(cs@));
            assert((views(qs@).len()) * (views(qs@).len()) <= (GRAM_MAX as int) * (
            GRAM_MAX as int)) by (nonlinear_arith)
                requires 0 <= views(qs@).len() <= GRAM_MAX as int;
            assert((views(cs@).len()) * (views(cs@).len()) <= (GRAM_MAX as int) * (
            GRAM_MAX as int)) by (nonlinear_arith)
                requires 0 <= views(cs@).len() <= GRAM_MAX as int;
            assert(dq as int <= GRAM_MAX as int) by (nonlinear_arith)
                requires
                    (dq as int) * (dq as int) <= qn as int,
                    qn as int <= (GRAM_MAX as int) * (GRAM_MAX as int),
                    dq as int >= 0;
            assert(dc as int <= GRAM_MAX as int) by (nonlinear_arith)
                requires
                    (dc as int) * (dc as int) <= cn as int,
                    cn as int <= (GRAM_MAX as int) * (GRAM_MAX as int),
                    dc as int >= 0;
            lemma_dot_bounds(views(qs@), views(cs@));
        }
        if dq == 0 || dc == 0 {
            return Ok(Measurement { score: 0, perfect });
        }
        proof {
            assert((dq as int) * (dc as int) <= (GRAM_MAX as int) * (GRAM_MAX as int))
                by (nonlinear_arith)
                requires
                    0 <= dq as int <= GRAM_MAX as int,
                    0 <= dc as int <= GRAM_MAX as int;
            assert((dq as int) * (dc as int) >= 1) by (nonlinear_arith)
                requires dq as int >= 1 && dc as int >= 1;
        }
        let denom: u128 = (dq as u128) * (dc as u128);
        let num: u128 = (dot as u128) * (SCALE as u128);
        let raw = num / denom;
        let score: u64 = if raw > (SCALE as u128) {
            SCALE
        } else {
            raw as u64
        };
        Ok(Measurement { score, perfect })
    }
}

pub proof fn lemma_cosine_bounds(qs: Seq<Seq<char>>, cs: Seq<Seq<char>>)
    ensures
        0 <= spec_cosine_lists(qs, cs) <= SCALE,
{
    let dq = spec_isqrt(spec_dot(qs, qs));
    let dc = spec_isqrt(spec_dot(cs, cs));
    if dq > 0 && dc > 0 {
        lemma_dot_bounds(qs, cs);
        assert(dq * dc >= 1) by (nonlinear_arith)
            requires dq >= 1 && dc >= 1;
        assert(0 <= spec_dot(qs, cs) * SCALE / (dq * dc)) by (nonlinear_arith)
            requires 0 <= spec_dot(qs, cs) && dq * dc >= 1 && SCALE as int > 0;
    }
}

} // verus!
