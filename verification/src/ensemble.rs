//! The union of several independently configured assessors, presented as
//! one ranking surface.
//!
//! `find_best` keeps the strongest champion across the sub-assessors,
//! preferring perfect matches outright; `find_all` merges every
//! shortlist, ranks the union, and keeps one entry per candidate.

use vstd::prelude::*;
use crate::assessor::{Assessor, clone_string};
use crate::capability::Capability;
use crate::ranking::{Outcome, ChampionPick};
use crate::score::{DEFAULT_FLOOR, STRING_MAX, valid_score};

verus! {

/// One ranked result of a union: which sub-assessor produced it, which
/// candidate it names, and how it scored there.
pub struct UnionEntry {
    /// Position of the producing assessor in the union.
    pub source: usize,
    /// Position of the candidate in the input list.
    pub index: usize,
    /// The candidate itself.
    pub candidate: String,
    /// The aggregate score under the producing assessor.
    pub score: u64,
    /// Whether that assessor judged the pair perfect.
    pub perfect: bool,
}

/// The spec-level pick of a union best-scan.
pub struct UnionPick {
    /// Which assessor produced the pick.
    pub source: int,
    /// Which candidate it names.
    pub index: int,
    /// Its score there.
    pub score: int,
    /// Whether it was perfect.
    pub perfect: bool,
}

/// `x` beats `p` in the union's preference order: a perfect match beats
/// any imperfect one, then higher scores win.
pub open spec fn beats(x_perfect: bool, x_score: int, p_perfect: bool, p_score: int) -> bool {
    (x_perfect && !p_perfect) || (x_perfect == p_perfect && x_score > p_score)
}

/// `a` ranks at or before `b` in the merged union order: higher score
/// first, then the earlier assessor, then the earlier candidate.
pub open spec fn union_ranks_ge(a: UnionEntry, b: UnionEntry) -> bool {
    a.score > b.score || (a.score == b.score && (a.source < b.source || (a.source == b.source
        && a.index <= b.index)))
}

/// `e` ranks at or before the (score, source, index) triple.
pub open spec fn union_ranks_ge_triple(e: UnionEntry, s: int, src: int, idx: int) -> bool {
    e.score > s || (e.score as int == s && ((e.source as int) < src || (e.source as int == src
        && e.index as int <= idx)))
}

/// Every pair of entries is in merged ranking order.
pub open spec fn union_sorted(es: Seq<UnionEntry>) -> bool {
    forall|i: int, j: int|
        0 <= i < j < es.len() ==> union_ranks_ge(#[trigger] es[i], #[trigger] es[j])
}

/// No two entries name candidates with the same characters.
pub open spec fn views_unique(es: Seq<UnionEntry>) -> bool {
    forall|i: int, j: int|
        0 <= i < j < es.len() ==> (#[trigger] es[i]).candidate@ != (#[trigger] es[j]).candidate@
}

/// Several fully configured assessors behind one ranking surface, with
/// an overall floor of its own.
pub struct Union<M> {
    /// The sub-assessors, each with its own dimensions, scheme and floor.
    pub assessors: Vec<Assessor<M>>,
    /// The union's own floor; a perfect champion overrides it.
    pub floor: u64,
}

impl<M: Capability> Union<M> {
    /// Configuration well-formedness.
    pub open spec fn wf(&self) -> bool {
        &&& valid_score(self.floor)
        &&& forall|i: int| 0 <= i < self.assessors@.len() ==> (#[trigger] self.assessors@[i]).wf()
    }

    /// Whether every sub-assessor is total.
    pub open spec fn total(&self) -> bool {
        forall|i: int|
            0 <= i < self.assessors@.len() ==> (#[trigger] self.assessors@[i]).total()
    }

    /// An empty union with the default floor.
    pub fn new() -> (r: Union<M>)
        ensures
            r.wf(),
            r.assessors@.len() == 0,
            r.floor == DEFAULT_FLOOR,
    {
        Union { assessors: Vec::new(), floor: DEFAULT_FLOOR }
    }

    /// Sets the union's own floor.
    pub fn floor(self, floor: u64) -> (r: Union<M>)
        requires
            valid_score(floor),
        ensures
            r.assessors == self.assessors,
            r.floor == floor,
    {
        Union { floor, ..self }
    }

    /// Appends one fully configured assessor.
    pub fn add(self, assessor: Assessor<M>) -> (r: Union<M>)
        requires
            assessor.wf(),
        ensures
            r.assessors@ == self.assessors@.push(assessor),
            r.floor == self.floor,
    {
        let mut assessors = self.assessors;
        assessors.push(assessor);
        Union { assessors, floor: self.floor }
    }

    /// Whether sub-assessor `j` yields a champion that clears the
    /// union's floor, together with that champion's fields.
    pub open spec fn sub_champion(&self, q: Seq<char>, cs: Seq<String>, j: int) -> Option<
        ChampionPick,
    > {
        self.assessors@[j].spec_champion_upto(q, cs, cs.len() as int)
    }

    /// The best-scan over the first `n` sub-assessors: keeps the first
    /// floor-clearing champion that beats the best so far, preferring
    /// perfect matches outright.
    pub open spec fn spec_find_best_upto(&self, q: Seq<char>, cs: Seq<String>, n: int) -> Option<
        UnionPick,
    >
        decreases n,
    {
        if n <= 0 {
            Option::None
        } else {
            let prev = self.spec_find_best_upto(q, cs, n - 1);
            let j = n - 1;
            match self.sub_champion(q, cs, j) {
                Option::None => prev,
                Option::Some(c) => {
                    if !(c.perfect || c.score >= self.floor) {
                        prev
                    } else {
                        let replaces = match prev {
                            Option::None => true,
                            Option::Some(p) => beats(c.perfect, c.score, p.perfect, p.score),
                        };
                        if replaces {
                            Option::Some(
                                UnionPick {
                                    source: j,
                                    index: c.index,
                                    score: c.score,
                                    perfect: c.perfect,
                                },
                            )
                        } else {
                            prev
                        }
                    }
                },
            }
        }
    }

    /// What the best-scan picks: a floor-clearing champion that no other
    /// floor-clearing champion beats.
    pub proof fn lemma_find_best_props(&self, q: Seq<char>, cs: Seq<String>, n: int)
        requires
            0 <= n <= self.assessors@.len(),
        ensures
            (match self.spec_find_best_upto(q, cs, n) {
                Option::None => forall|j: int|
                    0 <= j < n ==> (match #[trigger] self.sub_champion(q, cs, j) {
                        Option::None => true,
                        Option::Some(c) => !(c.perfect || c.score >= self.floor),
                    }),
                Option::Some(p) => {
                    &&& 0 <= p.source < n
                    &&& (match self.sub_champion(q, cs, p.source) {
                        Option::None => false,
                        Option::Some(c) => c.index == p.index && c.score == p.score && c.perfect
                            == p.perfect,
                    })
                    &&& (p.perfect || p.score >= self.floor)
                    &&& forall|j: int|
                        0 <= j < n ==> (match #[trigger] self.sub_champion(q, cs, j) {
                            Option::None => true,
                            Option::Some(c) => !(c.perfect || c.score >= self.floor) || !beats(
                                c.perfect,
                                c.score,
                                p.perfect,
                                p.score,
                            ),
                        })
                },
            }),
        decreases n,
    {
        if n > 0 {
            self.lemma_find_best_props(q, cs, n - 1);
        }
    }

    /// Everything `find_best` promises of its result, for a total union.
    pub open spec fn find_best_post(&self, q: Seq<char>, cs: Seq<String>, r: Option<UnionEntry>) -> bool {
        match r {
            Option::None => self.spec_find_best_upto(q, cs, self.assessors@.len() as int) is None,
            Option::Some(e) => {
                let best = self.spec_find_best_upto(q, cs, self.assessors@.len() as int);
                &&& best is Some
                &&& e.source as int == best->Some_0.source
                &&& e.index as int == best->Some_0.index
                &&& e.score as int == best->Some_0.score
                &&& e.perfect == best->Some_0.perfect
                &&& e.candidate@ == cs[e.index as int]@
            },
        }
    }

    /// Runs the champion search of every sub-assessor and keeps the
    /// strongest result that clears the union's floor; a perfect match
    /// beats any imperfect one outright.
    pub fn find_best(&self, query: &String, candidates: &Vec<String>) -> (r: Option<UnionEntry>)
        requires
            self.wf(),
            query@.len() <= STRING_MAX,
            forall|k: int|
                0 <= k < candidates@.len() ==> (#[trigger] candidates@[k])@.len() <= STRING_MAX,
        ensures
            self.total() ==> self.find_best_post(query@, candidates@, r),
            (match r {
                Option::None => true,
                Option::Some(e) => e.index < candidates@.len() && e.candidate@ == candidates@[
                    e.index as int
                ]@,
            }),
    {
        let n = self.assessors.len();
        let mut have_best = false;
        let mut best_source: usize = 0;
        let mut best_index: usize = 0;
        let mut best_score: u64 = 0;
        let mut best_perfect = false;
        let mut j: usize = 0;
        while j < n
            invariant
                j <= n,
                n == self.assessors@.len(),
                self.wf(),
                query@.len() <= STRING_MAX,
                forall|k: int|
                    0 <= k < candidates@.len() ==> (#[trigger] candidates@[k])@.len()
                        <= STRING_MAX,
                have_best ==> best_index < candidates@.len(),
                self.total() ==> (match self.spec_find_best_upto(query@, candidates@, j as int) {
                    Option::None => !have_best,
                    Option::Some(p) => have_best && best_source as int == p.source
                        && best_index as int == p.index && best_score as int == p.score
                        && best_perfect == p.perfect,
                }),
            decreases n - j,
        {
            let sub = &self.assessors[j];
            match sub.champion(query, candidates) {
                Option::Some(c) => {
                    let clears = c.perfect || c.score >= self.floor;
                    let replaces = clears && (!have_best || (c.perfect && !best_perfect) || (
                    c.perfect == best_perfect && c.score > best_score));
                    if replaces {
                        have_best = true;
                        best_source = j;
                        best_index = c.index;
                        best_score = c.score;
                        best_perfect = c.perfect;
                    }
                },
                Option::None => {},
            }
            j = j + 1;
        }
        if have_best {
            let chosen = clone_string(&candidates[best_index]);
            Some(
                UnionEntry {
                    source: best_source,
                    index: best_index,
                    candidate: chosen,
                    score: best_score,
                    perfect: best_perfect,
                },
            )
        } else {
            None
        }
    }
}

impl<M: Capability> Union<M> {
    /// What holds of every entry `find_all` returns: it names a real
    /// candidate, viable under its producing assessor, with that
    /// assessor's exact score and perfect flag.
    pub open spec fn union_entry_ok(&self, q: Seq<char>, cs: Seq<String>, e: UnionEntry) -> bool {
        &&& (e.source as int) < self.assessors@.len()
        &&& (e.index as int) < cs.len()
        &&& e.candidate@ == cs[e.index as int]@
        &&& e.score as int == self.assessors@[e.source as int].cand_score(q, cs, e.index as int)
        &&& e.perfect == self.assessors@[e.source as int].cand_perfect(q, cs, e.index as int)
        &&& self.assessors@[e.source as int].cand_viable(q, cs, e.index as int)
    }

    /// The recorded shape of one union entry: it names a real
    /// sub-assessor and a real candidate, and its recorded flags clear
    /// that assessor's floor.
    pub open spec fn union_entry_shape(&self, cs: Seq<String>, e: UnionEntry) -> bool {
        &&& (e.source as int) < self.assessors@.len()
        &&& (e.index as int) < cs.len()
        &&& e.candidate@ == cs[e.index as int]@
        &&& e.perfect || e.score >= self.assessors@[e.source as int].floor
    }

    /// What `find_all` promises for any union, deterministic or not:
    /// well-shaped entries, ranked, one per candidate.
    pub open spec fn find_all_shape(&self, cs: Seq<String>, es: Seq<UnionEntry>) -> bool {
        &&& forall|i: int| 0 <= i < es.len() ==> self.union_entry_shape(cs, #[trigger] es[i])
        &&& union_sorted(es)
        &&& views_unique(es)
    }

    /// Everything `find_all` promises of its result, for a total union:
    /// sound ranked entries, one per candidate, each dominating every
    /// other viable occurrence of its candidate; and when no limit cuts
    /// the list, every viable candidate is represented.
    pub open spec fn find_all_post(
        &self,
        q: Seq<char>,
        cs: Seq<String>,
        es: Seq<UnionEntry>,
        limit: int,
    ) -> bool {
        &&& forall|i: int| 0 <= i < es.len() ==> self.union_entry_ok(q, cs, #[trigger] es[i])
        &&& union_sorted(es)
        &&& views_unique(es)
        &&& (limit > 0 ==> es.len() <= limit)
        &&& (limit == 0 ==> forall|j: int, k: int|
            0 <= j < self.assessors@.len() && 0 <= k < cs.len()
                && #[trigger] self.assessors@[j].cand_viable(q, cs, k) ==> exists|i: int|
                0 <= i < es.len() && (#[trigger] es[i]).candidate@ == cs[k]@)
        &&& forall|i: int, j: int, k: int|
            0 <= i < es.len() && 0 <= j < self.assessors@.len() && 0 <= k < cs.len()
                && #[trigger] self.assessors@[j].cand_viable(q, cs, k) && cs[k]@ == (
            #[trigger] es[i]).candidate@ ==> union_ranks_ge_triple(
                es[i],
                self.assessors@[j].cand_score(q, cs, k),
                j,
                k,
            )
    }

    /// Concatenates every sub-assessor's shortlist, ranks the union by
    /// score (ties toward the earlier assessor, then the earlier
    /// candidate), keeps the first occurrence of each candidate, and
    /// truncates to `limit` entries (a limit of zero means unlimited).
    pub fn find_all(&self, query: &String, candidates: &Vec<String>, limit: usize) -> (r: Vec<
        UnionEntry,
    >)
        requires
            self.wf(),
            query@.len() <= STRING_MAX,
            forall|k: int|
                0 <= k < candidates@.len() ==> (#[trigger] candidates@[k])@.len() <= STRING_MAX,
        ensures
            self.find_all_shape(candidates@, r@),
            limit > 0 ==> r@.len() <= limit,
            self.total() ==> self.find_all_post(query@, candidates@, r@, limit as int),
    {
        let ghost q = query@;
        let ghost cs = candidates@;
        let na = self.assessors.len();
        let mut pool: Vec<UnionEntry> = Vec::new();
        let mut j: usize = 0;
        while j < na
            invariant
                j <= na,
                na == self.assessors@.len(),
                self.wf(),
                q == query@,
                cs == candidates@,
                query@.len() <= STRING_MAX,
                forall|k: int|
                    0 <= k < candidates@.len() ==> (#[trigger] candidates@[k])@.len()
                        <= STRING_MAX,
                forall|t: int|
                    0 <= t < pool@.len() ==> self.union_entry_shape(cs, #[trigger] pool@[t]),
                self.total() ==> forall|t: int|
                    0 <= t < pool@.len() ==> self.union_entry_ok(q, cs, #[trigger] pool@[t]),
                self.total() ==> forall|j2: int, k: int|
                    0 <= j2 < j && 0 <= k < cs.len() && #[trigger] self.assessors@[j2].cand_viable(q, cs, k) ==> exists|t: int|
                        0 <= t < pool@.len() && (#[trigger] pool@[t]).source as int == j2
                            && pool@[t].index as int == k,
            decreases na - j,
        {
            let sub = &self.assessors[j];
            let entries = sub.shortlist(query, candidates);
            let ghost sub_entries = entries@;
            let m = entries.len();
            let mut t: usize = 0;
            let ghost pool_before = pool@;
            while t < m
                invariant
                    t <= m,
                    j < na,
                    na == self.assessors@.len(),
                    m == sub_entries.len(),
                    sub_entries == entries@,
                    self.wf(),
                    q == query@,
                    cs == candidates@,
                    sub == self.assessors@[j as int],
                    self.assessors@[j as int].shortlist_shape(cs, sub_entries),
                    self.total() ==> self.assessors@[j as int].shortlist_post(q, cs, sub_entries),
                    pool@.len() == pool_before.len() + t,
                    forall|x: int| 0 <= x < pool_before.len() ==> pool@[x] == pool_before[x],
                    forall|x: int|
                        0 <= x < t ==> (#[trigger] pool@[pool_before.len() + x]).source == j
                            && pool@[pool_before.len() + x].index == sub_entries[x].index && pool@[
                        pool_before.len() + x].candidate@ == sub_entries[x].candidate@ && pool@[
                        pool_before.len() + x].score == sub_entries[x].score && pool@[
                        pool_before.len() + x].perfect == sub_entries[x].perfect,
                    forall|x: int|
                        0 <= x < pool@.len() ==> self.union_entry_shape(cs, #[trigger] pool@[x]),
                    self.total() ==> forall|x: int|
                        0 <= x < pool@.len() ==> self.union_entry_ok(q, cs, #[trigger] pool@[x]),
                decreases m - t,
            {
                let e = &entries[t];
                let copied = UnionEntry {
                    source: j,
                    index: e.index,
                    candidate: clone_string(&e.candidate),
                    score: e.score,
                    perfect: e.perfect,
                };
                proof {
                    if self.total() {
                        assert(self.assessors@[j as int].entry_ok(q, cs, sub_entries[t as int]));
                    }
                }
                pool.push(copied);
                t = t + 1;
            }
            proof {
                if self.total() {
                    assert forall|j2: int, k: int|
                        0 <= j2 < j + 1 && 0 <= k < cs.len() && #[trigger] self.assessors@[j2].cand_viable(q, cs, k) implies exists|
                        x: int,
                    |
                        0 <= x < pool@.len() && (#[trigger] pool@[x]).source as int == j2
                            && pool@[x].index as int == k by {
                        if j2 < j {
                            let x = choose|x: int|
                                0 <= x < pool_before.len() && (#[trigger] pool_before[x]).source
                                    as int == j2 && pool_before[x].index as int == k;
                            assert(pool@[x].source as int == j2 && pool@[x].index as int == k);
                        } else {
                            let x = choose|x: int|
                                0 <= x < sub_entries.len() && (#[trigger] sub_entries[x]).index
                                    as int == k;
                            assert(pool@[pool_before.len() + x].source as int == j2
                                && pool@[pool_before.len() + x].index as int == k);
                        }
                    }
                }
            }
            j = j + 1;
        }
        // Rank the merged pool: score descending, then assessor order,
        // then candidate order.
        let mut out: Vec<UnionEntry> = Vec::new();
        let ghost merged = pool@;
        while pool.len() > 0
            invariant
                self.wf(),
                q == query@,
                cs == candidates@,
                forall|t: int|
                    0 <= t < pool@.len() ==> self.union_entry_shape(cs, #[trigger] pool@[t]),
                forall|t: int|
                    0 <= t < out@.len() ==> self.union_entry_shape(cs, #[trigger] out@[t]),
                union_sorted(out@),
                forall|t: int, u: int|
                    0 <= t < out@.len() && 0 <= u < pool@.len() ==> union_ranks_ge(
                        #[trigger] out@[t],
                        #[trigger] pool@[u],
                    ),
                self.total() ==> forall|t: int|
                    0 <= t < pool@.len() ==> self.union_entry_ok(q, cs, #[trigger] pool@[t]),
                self.total() ==> forall|t: int|
                    0 <= t < out@.len() ==> self.union_entry_ok(q, cs, #[trigger] out@[t]),
                self.total() ==> forall|j2: int, k: int|
                    0 <= j2 < self.assessors@.len() && 0 <= k < cs.len() && #[trigger] self.assessors@[j2].cand_viable(q, cs, k) ==> (exists|t: int|
                        0 <= t < out@.len() && (#[trigger] out@[t]).source as int == j2 && out@[
                        t].index as int == k) || (exists|u: int|
                        0 <= u < pool@.len() && (#[trigger] pool@[u]).source as int == j2 && pool@[
                        u].index as int == k),
            decreases pool@.len(),
        {
            let mut bi: usize = 0;
            let mut v: usize = 1;
            while v < pool.len()
                invariant
                    bi < v <= pool@.len(),
                    pool@.len() > 0,
                    forall|t: int|
                        0 <= t < v ==> union_ranks_ge(pool@[bi as int], #[trigger] pool@[t]),
                decreases pool@.len() - v,
            {
                let pv = &pool[v];
                let pb = &pool[bi];
                let better = pv.score > pb.score || (pv.score == pb.score && (pv.source
                    < pb.source || (pv.source == pb.source && pv.index <= pb.index)));
                if better {
                    bi = v;
                }
                v = v + 1;
            }
            let ghost prev_pool = pool@;
            let ghost prev_out = out@;
            let e = pool.remove(bi);
            out.push(e);
            proof {
                assert(prev_pool[bi as int] == e);
                assert(forall|t: int| 0 <= t < bi ==> pool@[t] == prev_pool[t]);
                assert(forall|t: int| bi <= t < pool@.len() ==> pool@[t] == prev_pool[t + 1]);
                if self.total() {
                    assert forall|j2: int, k: int|
                        0 <= j2 < self.assessors@.len() && 0 <= k < cs.len() && #[trigger] self.assessors@[j2].cand_viable(q, cs, k) implies (exists|
                        t: int,
                    |
                        0 <= t < out@.len() && (#[trigger] out@[t]).source as int == j2 && out@[
                        t].index as int == k) || (exists|u: int|
                        0 <= u < pool@.len() && (#[trigger] pool@[u]).source as int == j2 && pool@[
                        u].index as int == k) by {
                        if exists|t: int|
                            0 <= t < prev_out.len() && (#[trigger] prev_out[t]).source as int == j2
                                && prev_out[t].index as int == k {
                            let t = choose|t: int|
                                0 <= t < prev_out.len() && (#[trigger] prev_out[t]).source as int
                                    == j2 && prev_out[t].index as int == k;
                            assert(out@[t].source as int == j2 && out@[t].index as int == k);
                        } else {
                            let u = choose|u: int|
                                0 <= u < prev_pool.len() && (#[trigger] prev_pool[u]).source as int
                                    == j2 && prev_pool[u].index as int == k;
                            if u == bi {
                                assert(out@[out@.len() - 1].source as int == j2 && out@[out@.len()
                                    - 1].index as int == k);
                            } else if u < bi {
                                assert(pool@[u].source as int == j2 && pool@[u].index as int == k);
                            } else {
                                assert(pool@[u - 1].source as int == j2 && pool@[u - 1].index
                                    as int == k);
                            }
                        }
                    }
                }
            }
        }
        // Keep the first occurrence of each candidate.
        let ghost ranked = out@;
        let mut kept: Vec<UnionEntry> = Vec::new();
        let total = out.len();
        let mut i: usize = 0;
        while i < total
            invariant
                i <= total,
                total == ranked.len(),
                ranked == out@,
                self.wf(),
                q == query@,
                cs == candidates@,
                union_sorted(ranked),
                forall|t: int|
                    0 <= t < ranked.len() ==> self.union_entry_shape(cs, #[trigger] ranked[t]),
                forall|t: int|
                    0 <= t < kept@.len() ==> self.union_entry_shape(cs, #[trigger] kept@[t]),
                union_sorted(kept@),
                views_unique(kept@),
                forall|t: int, u: int|
                    0 <= t < kept@.len() && i <= u < ranked.len() ==> union_ranks_ge(
                        #[trigger] kept@[t],
                        #[trigger] ranked[u],
                    ),
                forall|u: int|
                    0 <= u < i ==> exists|t: int|
                        0 <= t < kept@.len() && (#[trigger] kept@[t]).candidate@ == (
                        #[trigger] ranked[u]).candidate@,
                forall|t: int, u: int|
                    0 <= t < kept@.len() && 0 <= u < ranked.len() && (
                    #[trigger] ranked[u]).candidate@ == (#[trigger] kept@[t]).candidate@
                        ==> union_ranks_ge(kept@[t], ranked[u]),
                self.total() ==> forall|t: int|
                    0 <= t < ranked.len() ==> self.union_entry_ok(q, cs, #[trigger] ranked[t]),
                self.total() ==> forall|t: int|
                    0 <= t < kept@.len() ==> self.union_entry_ok(q, cs, #[trigger] kept@[t]),
            decreases total - i,
        {
            let e = &out[i];
            let mut seen = false;
            let kn = kept.len();
            let mut t: usize = 0;
            while t < kn && !seen
                invariant
                    t <= kn,
                    kn == kept@.len(),
                    i < ranked.len(),
                    ranked == out@,
                    e == ranked[i as int],
                    !seen ==> forall|x: int|
                        0 <= x < t ==> (#[trigger] kept@[x]).candidate@ != ranked[i as int
                        ].candidate@,
                    seen ==> exists|x: int|
                        0 <= x < kept@.len() && (#[trigger] kept@[x]).candidate@ == ranked[i as int
                        ].candidate@,
                decreases kn - t, (if seen { 0int } else { 1int }),
            {
                if kept[t].candidate.eq(&e.candidate) {
                    seen = true;
                } else {
                    t = t + 1;
                }
            }
            let ghost kept_before = kept@;
            if !seen {
                let copied = UnionEntry {
                    source: e.source,
                    index: e.index,
                    candidate: clone_string(&e.candidate),
                    score: e.score,
                    perfect: e.perfect,
                };
                kept.push(copied);
            }
            proof {
                assert forall|u: int| 0 <= u < i + 1 implies exists|t2: int|
                    0 <= t2 < kept@.len() && (#[trigger] kept@[t2]).candidate@ == (
                    #[trigger] ranked[u]).candidate@ by {
                    if u < i {
                        let t2 = choose|t2: int|
                            0 <= t2 < kept_before.len() && (#[trigger] kept_before[t2]).candidate@
                                == ranked[u].candidate@;
                        assert(kept@[t2].candidate@ == ranked[u].candidate@);
                    } else {
                        if seen {
                            let t2 = choose|t2: int|
                                0 <= t2 < kept_before.len() && (
                                #[trigger] kept_before[t2]).candidate@ == ranked[i as int
                                ].candidate@;
                            assert(kept@[t2].candidate@ == ranked[u].candidate@);
                        } else {
                            assert(kept@[kept@.len() - 1].candidate@ == ranked[u].candidate@);
                        }
                    }
                }
            }
            i = i + 1;
        }
        if limit > 0 && kept.len() > limit {
            let ghost full = kept@;
            kept.truncate(limit);
            proof {
                assert(kept@ =~= full.subrange(0, limit as int));
                assert(forall|t: int|
                    0 <= t < kept@.len() ==> #[trigger] kept@[t] == full[t]);
            }
        }
        kept
    }
}

/// When exactly one sub-assessor's champion is perfect, `find_best`
/// returns that champion, whatever the other assessors' schemes and
/// floors produced.
pub proof fn lemma_perfect_champion_wins<M: Capability>(
    u: &Union<M>,
    q: Seq<char>,
    cs: Seq<String>,
    i: int,
    r: Option<UnionEntry>,
)
    requires
        u.total(),
        u.find_best_post(q, cs, r),
        0 <= i < u.assessors@.len(),
        (match u.sub_champion(q, cs, i) {
            Option::None => false,
            Option::Some(c) => c.perfect,
        }),
        forall|j: int|
            0 <= j < u.assessors@.len() && j != i ==> (match #[trigger] u.sub_champion(q, cs, j) {
                Option::None => true,
                Option::Some(c) => !c.perfect,
            }),
    ensures
        r is Some,
        r->Some_0.perfect,
        r->Some_0.source as int == i,
        (match u.sub_champion(q, cs, i) {
            Option::None => false,
            Option::Some(c) => r->Some_0.index as int == c.index && r->Some_0.score as int
                == c.score,
        }),
{
    let n = u.assessors@.len() as int;
    u.lemma_find_best_props(q, cs, n);
    let ci = u.sub_champion(q, cs, i)->Some_0;
    match r {
        Option::None => {
            assert(!(ci.perfect || ci.score >= u.floor));
            assert(false);
        },
        Option::Some(e) => {
            let p = u.spec_find_best_upto(q, cs, n)->Some_0;
            if !p.perfect {
                assert(!beats(ci.perfect, ci.score, p.perfect, p.score));
                assert(false);
            }
            assert(p.source != i ==> !(u.sub_champion(q, cs, p.source)->Some_0).perfect);
            assert(p.source == i);
        },
    }
}

} // verus!
