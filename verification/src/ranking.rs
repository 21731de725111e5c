//! Ranking operations over candidate lists: the single best viable
//! candidate, the sorted shortlist, and its capped version.
//!
//! Ordering is total and documented: entries are ranked by score
//! descending, ties resolved toward the earlier candidate in input
//! order. The champion is therefore the first-encountered maximum.

use vstd::prelude::*;
use crate::assessor::{Assessor, clone_string};
use crate::capability::Capability;
use crate::score::STRING_MAX;

verus! {

/// One ranked result: which candidate, its aggregate score, and whether
/// some dimension judged it perfect.
pub struct Outcome {
    /// Position of the candidate in the input list.
    pub index: usize,
    /// The candidate itself.
    pub candidate: String,
    /// The blended aggregate score.
    pub score: u64,
    /// Whether any dimension judged the pair perfect.
    pub perfect: bool,
}

/// The spec-level pick of a champion scan.
pub struct ChampionPick {
    /// Position of the winning candidate.
    pub index: int,
    /// Its aggregate score.
    pub score: int,
    /// Whether it was perfect on some dimension.
    pub perfect: bool,
}

/// `a` ranks at or before `b`: higher score first, earlier input
/// position on ties.
pub open spec fn ranks_ge(a: Outcome, b: Outcome) -> bool {
    a.score > b.score || (a.score == b.score && a.index <= b.index)
}

/// `e` ranks at or before a candidate at position `idx` scoring `s`.
pub open spec fn ranks_ge_pair(e: Outcome, s: int, idx: int) -> bool {
    e.score > s || (e.score == s && e.index <= idx)
}

/// Every pair of entries is in ranking order.
pub open spec fn sorted_ranking(es: Seq<Outcome>) -> bool {
    forall|i: int, j: int| 0 <= i < j < es.len() ==> ranks_ge(#[trigger] es[i], #[trigger] es[j])
}

/// No candidate position appears twice.
pub open spec fn indices_unique(es: Seq<Outcome>) -> bool {
    forall|i: int, j: int|
        0 <= i < j < es.len() ==> (#[trigger] es[i]).index != (#[trigger] es[j]).index
}

impl<M: Capability> Assessor<M> {
    /// The aggregate score of candidate `k`.
    pub open spec fn cand_score(&self, q: Seq<char>, cs: Seq<String>, k: int) -> int {
        self.spec_aggregate(q, cs[k]@)
    }

    /// Whether candidate `k` is perfect on some dimension.
    pub open spec fn cand_perfect(&self, q: Seq<char>, cs: Seq<String>, k: int) -> bool {
        self.spec_any_perfect(q, cs[k]@)
    }

    /// Whether candidate `k` is viable.
    pub open spec fn cand_viable(&self, q: Seq<char>, cs: Seq<String>, k: int) -> bool {
        self.spec_viable(q, cs[k]@)
    }

    /// How many of the first `n` candidates are viable.
    pub open spec fn count_viable(&self, q: Seq<char>, cs: Seq<String>, n: int) -> int
        decreases n,
    {
        if n <= 0 {
            0
        } else {
            self.count_viable(q, cs, n - 1) + (if self.cand_viable(q, cs, n - 1) {
                1int
            } else {
                0int
            })
        }
    }

    /// The champion scan over the first `n` candidates: keeps the first
    /// viable candidate whose score strictly exceeds the best so far.
    pub open spec fn spec_champion_upto(&self, q: Seq<char>, cs: Seq<String>, n: int) -> Option<
        ChampionPick,
    >
        decreases n,
    {
        if n <= 0 {
            Option::None
        } else {
            let prev = self.spec_champion_upto(q, cs, n - 1);
            let k = n - 1;
            let replaces = self.cand_viable(q, cs, k) && (match prev {
                Option::None => true,
                Option::Some(p) => self.cand_score(q, cs, k) > p.score,
            });
            if replaces {
                Option::Some(
                    ChampionPick {
                        index: k,
                        score: self.cand_score(q, cs, k),
                        perfect: self.cand_perfect(q, cs, k),
                    },
                )
            } else {
                prev
            }
        }
    }

    /// What the champion scan picks: a viable candidate carrying the
    /// greatest score, and the earliest such candidate in input order.
    pub proof fn lemma_champion_is_first_max(&self, q: Seq<char>, cs: Seq<String>, n: int)
        requires
            0 <= n <= cs.len(),
        ensures
            (match self.spec_champion_upto(q, cs, n) {
                Option::None => forall|k: int| 0 <= k < n ==> !self.cand_viable(q, cs, k),
                Option::Some(p) => {
                    &&& 0 <= p.index < n
                    &&& self.cand_viable(q, cs, p.index)
                    &&& p.score == self.cand_score(q, cs, p.index)
                    &&& p.perfect == self.cand_perfect(q, cs, p.index)
                    &&& forall|k: int|
                        0 <= k < n && #[trigger] self.cand_viable(q, cs, k) ==> self.cand_score(
                            q,
                            cs,
                            k,
                        ) <= p.score
                    &&& forall|k: int|
                        0 <= k < n && #[trigger] self.cand_viable(q, cs, k) && self.cand_score(
                            q,
                            cs,
                            k,
                        ) == p.score ==> k >= p.index
                },
            }),
        decreases n,
    {
        if n > 0 {
            self.lemma_champion_is_first_max(q, cs, n - 1);
        }
    }

    /// Everything `champion` promises of its result, for a total
    /// assessor: it is exactly what the champion scan picks.
    pub open spec fn champion_post(&self, q: Seq<char>, cs: Seq<String>, r: Option<Outcome>) -> bool {
        match r {
            Option::None => self.spec_champion_upto(q, cs, cs.len() as int) is None,
            Option::Some(o) => {
                let best = self.spec_champion_upto(q, cs, cs.len() as int);
                &&& best is Some
                &&& o.index as int == best->Some_0.index
                &&& o.score as int == best->Some_0.score
                &&& o.perfect == best->Some_0.perfect
                &&& o.candidate@ == cs[o.index as int]@
            },
        }
    }

    /// Profiles every candidate and returns the best viable one, or
    /// nothing when no candidate is viable. Ties resolve to the
    /// first-encountered maximum in input order.
    pub fn champion(&self, query: &String, candidates: &Vec<String>) -> (r: Option<Outcome>)
        requires
            self.wf(),
            query@.len() <= STRING_MAX,
            forall|k: int|
                0 <= k < candidates@.len() ==> (#[trigger] candidates@[k])@.len() <= STRING_MAX,
        ensures
            self.total() ==> self.champion_post(query@, candidates@, r),
            candidates@.len() == 0 ==> r is None,
            (match r {
                Option::None => true,
                Option::Some(o) => o.index < candidates@.len() && o.candidate@ == candidates@[
                    o.index as int
                ]@,
            }),
    {
        let n = candidates.len();
        let mut have_best = false;
        let mut best_index: usize = 0;
        let mut best_score: u64 = 0;
        let mut best_perfect = false;
        let mut i: usize = 0;
        while i < n
            invariant
                i <= n,
                n == candidates@.len(),
                self.wf(),
                query@.len() <= STRING_MAX,
                forall|k: int|
                    0 <= k < candidates@.len() ==> (#[trigger] candidates@[k])@.len()
                        <= STRING_MAX,
                have_best ==> best_index < i,
                self.total() ==> (match self.spec_champion_upto(query@, candidates@, i as int) {
                    Option::None => !have_best,
                    Option::Some(p) => have_best && best_index as int == p.index
                        && best_score as int == p.score && best_perfect == p.perfect,
                }),
            decreases n - i,
        {
            let p = self.profile(query, &candidates[i]);
            let viable = p.perfect || p.score >= self.floor;
            if viable && (!have_best || p.score > best_score) {
                have_best = true;
                best_index = i;
                best_score = p.score;
                best_perfect = p.perfect;
            }
            i = i + 1;
        }
        if have_best {
            let chosen = clone_string(&candidates[best_index]);
            Some(
                Outcome {
                    index: best_index,
                    candidate: chosen,
                    score: best_score,
                    perfect: best_perfect,
                },
            )
        } else {
            None
        }
    }

    /// What holds of every entry of a shortlist: it points at a viable
    /// candidate and carries its exact score and perfect flag.
    pub open spec fn entry_ok(&self, q: Seq<char>, cs: Seq<String>, e: Outcome) -> bool {
        &&& (e.index as int) < cs.len()
        &&& e.candidate@ == cs[e.index as int]@
        &&& e.score as int == self.cand_score(q, cs, e.index as int)
        &&& e.perfect == self.cand_perfect(q, cs, e.index as int)
        &&& self.cand_viable(q, cs, e.index as int)
    }

    /// Every viable candidate among the first `n` appears in the list.
    pub open spec fn covers(&self, q: Seq<char>, cs: Seq<String>, es: Seq<Outcome>, n: int) -> bool {
        forall|k: int|
            0 <= k < n && #[trigger] self.cand_viable(q, cs, k) ==> exists|i: int|
                0 <= i < es.len() && (#[trigger] es[i]).index as int == k
    }

    /// What `shortlist` promises for any assessor, deterministic or
    /// not: each entry names a real candidate whose recorded flags clear
    /// the floor, the entries are ranked with unique positions, and
    /// there are no more entries than candidates.
    pub open spec fn shortlist_shape(&self, cs: Seq<String>, es: Seq<Outcome>) -> bool {
        &&& forall|i: int|
            0 <= i < es.len() ==> (#[trigger] es[i]).index < cs.len() && es[i].candidate@ == cs[
                es[i].index as int
            ]@ && (es[i].perfect || es[i].score >= self.floor)
        &&& sorted_ranking(es)
        &&& indices_unique(es)
        &&& es.len() <= cs.len()
    }

    /// Everything `shortlist` promises of its result, for a total
    /// assessor: exactly the viable candidates, each with its exact
    /// score, sorted by score descending with ties in input order.
    pub open spec fn shortlist_post(&self, q: Seq<char>, cs: Seq<String>, es: Seq<Outcome>) -> bool {
        &&& forall|i: int| 0 <= i < es.len() ==> self.entry_ok(q, cs, #[trigger] es[i])
        &&& sorted_ranking(es)
        &&& indices_unique(es)
        &&& self.covers(q, cs, es, cs.len() as int)
        &&& es.len() == self.count_viable(q, cs, cs.len() as int)
    }

    /// Profiles every candidate and returns all viable ones, sorted by
    /// score descending; candidates with equal scores keep their input
    /// order.
    pub fn shortlist(&self, query: &String, candidates: &Vec<String>) -> (r: Vec<Outcome>)
        requires
            self.wf(),
            query@.len() <= STRING_MAX,
            forall|k: int|
                0 <= k < candidates@.len() ==> (#[trigger] candidates@[k])@.len() <= STRING_MAX,
        ensures
            self.shortlist_shape(candidates@, r@),
            self.total() ==> self.shortlist_post(query@, candidates@, r@),
    {
        let ghost q = query@;
        let ghost cs = candidates@;
        let n = candidates.len();
        let mut pool: Vec<Outcome> = Vec::new();
        let mut i: usize = 0;
        while i < n
            invariant
                i <= n,
                n == candidates@.len(),
                self.wf(),
                q == query@,
                cs == candidates@,
                query@.len() <= STRING_MAX,
                forall|k: int|
                    0 <= k < candidates@.len() ==> (#[trigger] candidates@[k])@.len()
                        <= STRING_MAX,
                forall|t: int|
                    0 <= t < pool@.len() ==> (#[trigger] pool@[t]).index < candidates@.len()
                        && pool@[t].candidate@ == candidates@[pool@[t].index as int]@ && (pool@[
                    t].perfect || pool@[t].score >= self.floor),
                forall|t: int, u: int|
                    0 <= t < u < pool@.len() ==> (#[trigger] pool@[t]).index < (
                    #[trigger] pool@[u]).index,
                forall|t: int| 0 <= t < pool@.len() ==> (#[trigger] pool@[t]).index < i,
                pool@.len() <= i,
                self.total() ==> forall|t: int|
                    0 <= t < pool@.len() ==> self.entry_ok(q, cs, #[trigger] pool@[t]),
                self.total() ==> self.covers(q, cs, pool@, i as int),
                self.total() ==> pool@.len() == self.count_viable(q, cs, i as int),
            decreases n - i,
        {
            let ghost prev_pool = pool@;
            let p = self.profile(query, &candidates[i]);
            let viable = p.perfect || p.score >= self.floor;
            if viable {
                let chosen = clone_string(&candidates[i]);
                pool.push(
                    Outcome { index: i, candidate: chosen, score: p.score, perfect: p.perfect },
                );
            }
            proof {
                if self.total() {
                    assert forall|k: int|
                        0 <= k < i + 1 && #[trigger] self.cand_viable(q, cs, k) implies exists|
                        t: int,
                    |
                        0 <= t < pool@.len() && (#[trigger] pool@[t]).index as int == k by {
                        if k < i {
                            let t = choose|t: int|
                                0 <= t < prev_pool.len() && (#[trigger] prev_pool[t]).index as int
                                    == k;
                            assert(pool@[t].index as int == k);
                        } else {
                            assert(viable);
                            assert(pool@[pool@.len() - 1].index as int == k);
                        }
                    }
                }
            }
            i = i + 1;
        }
        // Selection sort: repeatedly move the top-ranked remaining entry.
        let mut out: Vec<Outcome> = Vec::new();
        let ghost total_len = pool@.len();
        while pool.len() > 0
            invariant
                self.wf(),
                out@.len() + pool@.len() == total_len,
                total_len <= candidates@.len(),
                forall|t: int|
                    0 <= t < pool@.len() ==> (#[trigger] pool@[t]).index < candidates@.len()
                        && pool@[t].candidate@ == candidates@[pool@[t].index as int]@ && (pool@[
                    t].perfect || pool@[t].score >= self.floor),
                forall|t: int|
                    0 <= t < out@.len() ==> (#[trigger] out@[t]).index < candidates@.len()
                        && out@[t].candidate@ == candidates@[out@[t].index as int]@ && (out@[
                    t].perfect || out@[t].score >= self.floor),
                sorted_ranking(out@),
                indices_unique(out@),
                indices_unique(pool@),
                forall|t: int, u: int|
                    0 <= t < out@.len() && 0 <= u < pool@.len() ==> (#[trigger] out@[t]).index != (
                    #[trigger] pool@[u]).index,
                forall|t: int, u: int|
                    0 <= t < out@.len() && 0 <= u < pool@.len() ==> ranks_ge(
                        #[trigger] out@[t],
                        #[trigger] pool@[u],
                    ),
                self.total() ==> forall|t: int|
                    0 <= t < pool@.len() ==> self.entry_ok(q, cs, #[trigger] pool@[t]),
                self.total() ==> forall|t: int|
                    0 <= t < out@.len() ==> self.entry_ok(q, cs, #[trigger] out@[t]),
                self.total() ==> (forall|k: int|
                    0 <= k < cs.len() && #[trigger] self.cand_viable(q, cs, k) ==> (exists|t: int|
                        0 <= t < out@.len() && (#[trigger] out@[t]).index as int == k) || (exists|
                        u: int,
                    |
                        0 <= u < pool@.len() && (#[trigger] pool@[u]).index as int == k)),
                self.total() ==> total_len == self.count_viable(q, cs, cs.len() as int),
            decreases pool@.len(),
        {
            // Find the top-ranked remaining entry.
            let mut bi: usize = 0;
            let mut j: usize = 1;
            while j < pool.len()
                invariant
                    bi < j <= pool@.len(),
                    pool@.len() > 0,
                    forall|t: int| 0 <= t < j ==> ranks_ge(pool@[bi as int], #[trigger] pool@[t]),
                decreases pool@.len() - j,
            {
                let better = pool[j].score > pool[bi].score || (pool[j].score == pool[bi].score
                    && pool[j].index <= pool[bi].index);
                if better {
                    bi = j;
                }
                j = j + 1;
            }
            let ghost prev_pool = pool@;
            let ghost prev_out = out@;
            let e = pool.remove(bi);
            out.push(e);
            proof {
                assert(prev_pool[bi as int] == e);
                assert(forall|t: int| 0 <= t < bi ==> pool@[t] == prev_pool[t]);
                assert(forall|t: int|
                    bi <= t < pool@.len() ==> pool@[t] == prev_pool[t + 1]);
                if self.total() {
                    assert forall|k: int|
                        0 <= k < cs.len() && #[trigger] self.cand_viable(q, cs, k) implies (exists|
                        t: int,
                    |
                        0 <= t < out@.len() && (#[trigger] out@[t]).index as int == k) || (exists|
                        u: int,
                    |
                        0 <= u < pool@.len() && (#[trigger] pool@[u]).index as int == k) by {
                        if exists|t: int|
                            0 <= t < prev_out.len() && (#[trigger] prev_out[t]).index as int == k {
                            let t = choose|t: int|
                                0 <= t < prev_out.len() && (#[trigger] prev_out[t]).index as int
                                    == k;
                            assert(out@[t].index as int == k);
                        } else {
                            let u = choose|u: int|
                                0 <= u < prev_pool.len() && (#[trigger] prev_pool[u]).index as int
                                    == k;
                            if u == bi {
                                assert(out@[out@.len() - 1].index as int == k);
                            } else if u < bi {
                                assert(pool@[u].index as int == k);
                            } else {
                                assert(pool@[u - 1].index as int == k);
                            }
                        }
                    }
                }
            }
        }
        proof {
            if self.total() {
                assert(self.covers(q, cs, out@, cs.len() as int));
            }
        }
        out
    }

    /// The shortlist truncated to its first `cap` entries; a cap of zero
    /// yields an empty list.
    pub fn constrain(&self, query: &String, candidates: &Vec<String>, cap: usize) -> (r: Vec<
        Outcome,
    >)
        requires
            self.wf(),
            query@.len() <= STRING_MAX,
            forall|k: int|
                0 <= k < candidates@.len() ==> (#[trigger] candidates@[k])@.len() <= STRING_MAX,
        ensures
            r@.len() <= cap,
            self.shortlist_shape(candidates@, r@),
            self.total() ==> self.constrain_post(query@, candidates@, r@, cap as int),
    {
        let mut shortlisted = self.shortlist(query, candidates);
        let ghost full = shortlisted@;
        if shortlisted.len() > cap {
            shortlisted.truncate(cap);
        }
        proof {
            assert(shortlisted@ =~= (if full.len() > cap {
                full.subrange(0, cap as int)
            } else {
                full
            }));
            assert(forall|t: int|
                0 <= t < shortlisted@.len() ==> #[trigger] shortlisted@[t] == full[t]);
            if self.total() {
                if full.len() > cap {
                    assert forall|k: int|
                        0 <= k < candidates@.len() && #[trigger] self.cand_viable(
                            query@,
                            candidates@,
                            k,
                        ) && (forall|t: int|
                            0 <= t < shortlisted@.len() ==> (#[trigger] shortlisted@[t]).index
                                as int != k) implies (forall|t: int|
                        0 <= t < shortlisted@.len() ==> ranks_ge_pair(
                            #[trigger] shortlisted@[t],
                            self.cand_score(query@, candidates@, k),
                            k,
                        )) by {
                        let i = choose|i: int|
                            0 <= i < full.len() && (#[trigger] full[i]).index as int == k;
                        if i < cap {
                            assert(shortlisted@[i] == full[i]);
                            assert(shortlisted@[i].index as int != k);
                            assert(false);
                        }
                        assert(i >= cap);
                        assert forall|t: int|
                            0 <= t < shortlisted@.len() implies ranks_ge_pair(
                            #[trigger] shortlisted@[t],
                            self.cand_score(query@, candidates@, k),
                            k,
                        ) by {
                            assert(shortlisted@[t] == full[t]);
                            assert(ranks_ge(full[t], full[i]));
                        }
                    }
                }
            }
        }
        shortlisted
    }

    /// Everything `constrain` promises for a total assessor: the kept
    /// entries are exact, ranked, and no dropped viable candidate ranks
    /// before a kept one.
    pub open spec fn constrain_post(
        &self,
        q: Seq<char>,
        cs: Seq<String>,
        es: Seq<Outcome>,
        cap: int,
    ) -> bool {
        &&& forall|i: int| 0 <= i < es.len() ==> self.entry_ok(q, cs, #[trigger] es[i])
        &&& sorted_ranking(es)
        &&& indices_unique(es)
        &&& es.len() == (if self.count_viable(q, cs, cs.len() as int) < cap {
            self.count_viable(q, cs, cs.len() as int)
        } else {
            cap
        })
        &&& forall|k: int|
            0 <= k < cs.len() && #[trigger] self.cand_viable(q, cs, k) && (forall|t: int|
                0 <= t < es.len() ==> (#[trigger] es[t]).index as int != k) ==> (forall|t: int|
                0 <= t < es.len() ==> ranks_ge_pair(
                    #[trigger] es[t],
                    self.cand_score(q, cs, k),
                    k,
                ))
    }
}

} // verus!
