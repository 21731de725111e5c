//! Character n-gram extraction and overlap capabilities.

use vstd::prelude::*;
use crate::capability::Capability;
use crate::chars::{lower_of, lowercase, chars_vec, string_from_chars};
use crate::score::{Measurement, MetricFailure, SCALE, valid_score};

verus! {

/// The n-grams of a character sequence: every window of `n` consecutive
/// characters, or the whole sequence alone when it is shorter than `n`.
pub open spec fn spec_ngrams(s: Seq<char>, n: int) -> Seq<Seq<char>> {
    if s.len() < n {
        seq![s]
    } else {
        Seq::new((s.len() - n + 1) as nat, |i: int| s.subrange(i, i + n))
    }
}

/// How many entries of `gs` equal `g`.
pub open spec fn occ(g: Seq<char>, gs: Seq<Seq<char>>) -> int
    decreases gs.len(),
{
    if gs.len() == 0 {
        0
    } else {
        occ(g, gs.drop_last()) + (if gs.last() == g {
            1int
        } else {
            0int
        })
    }
}

pub proof fn lemma_occ_bounds(g: Seq<char>, gs: Seq<Seq<char>>)
    ensures
        0 <= occ(g, gs) <= gs.len(),
    decreases gs.len(),
{
    if gs.len() > 0 {
        lemma_occ_bounds(g, gs.drop_last());
    }
}

/// Whether some entry of `gs` equals `g`.
pub open spec fn gram_present(g: Seq<char>, gs: Seq<Seq<char>>) -> bool {
    exists|j: int| 0 <= j < gs.len() && gs[j] == g
}

/// How many entries of `qs` are present anywhere in `cs`, counted with
/// multiplicity on the `qs` side.
pub open spec fn count_present(qs: Seq<Seq<char>>, cs: Seq<Seq<char>>) -> int
    decreases qs.len(),
{
    if qs.len() == 0 {
        0
    } else {
        count_present(qs.drop_last(), cs) + (if gram_present(qs.last(), cs) {
            1int
        } else {
            0int
        })
    }
}

pub proof fn lemma_count_present_bounds(qs: Seq<Seq<char>>, cs: Seq<Seq<char>>)
    ensures
        0 <= count_present(qs, cs) <= qs.len(),
    decreases qs.len(),
{
    if qs.len() > 0 {
        lemma_count_present_bounds(qs.drop_last(), cs);
    }
}

/// The n-grams of a character vector, as strings.
pub fn ngrams(chars: &Vec<char>, n: usize) -> (r: Vec<String>)
    requires
        n >= 1,
    ensures
        r@.len() == spec_ngrams(chars@, n as int).len(),
        forall|i: int|
            0 <= i < r@.len() ==> (#[trigger] r@[i])@ == spec_ngrams(chars@, n as int)[i],
        r@.len() >= 1,
{
    if chars.len() < n {
        let whole = string_from_chars(chars);
        let mut out: Vec<String> = Vec::new();
        out.push(whole);
        proof {
            assert(spec_ngrams(chars@, n as int) =~= seq![chars@]);
        }
        return out;
    }
    let len = chars.len();
    let count = len - n + 1;
    let mut out: Vec<String> = Vec::new();
    let mut i: usize = 0;
    while i < count
        invariant
            i <= count,
            n >= 1,
            len == chars@.len(),
            count == len - n + 1,
            n <= len,
            out@.len() == i,
            forall|t: int|
                0 <= t < i ==> (#[trigger] out@[t])@ == chars@.subrange(t, t + n),
        decreases count - i,
    {
        let mut gram: Vec<char> = Vec::new();
        let mut j: usize = 0;
        while j < n
            invariant
                j <= n,
                len == chars@.len(),
                i + n <= len,
                gram@ == chars@.subrange(i as int, i + j),
            decreases n - j,
        {
            gram.push(chars[i + j]);
            proof {
                assert(gram@ =~= chars@.subrange(i as int, i + j + 1));
            }
            j = j + 1;
        }
        let text = string_from_chars(&gram);
        out.push(text);
        i = i + 1;
    }
    proof {
        assert(spec_ngrams(chars@, n as int).len() == count);
        assert(forall|t: int|
            0 <= t < count ==> spec_ngrams(chars@, n as int)[t] == chars@.subrange(t, t + n));
    }
    out
}

/// How many grams of `qs` occur in `cs`, by exact string comparison.
fn count_present_exec(qs: &Vec<String>, cs: &Vec<String>) -> (r: usize)
    ensures
        r as int == count_present(views(qs@), views(cs@)),
        r <= qs@.len(),
{
    let mut total: usize = 0;
    let mut i: usize = 0;
    while i < qs.len()
        invariant
            i <= qs@.len(),
            total as int == count_present(views(qs@).take(i as int), views(cs@)),
            total <= i,
        decreases qs@.len() - i,
    {
        let mut found = false;
        let mut j: usize = 0;
        while j < cs.len() && !found
            invariant
                j <= cs@.len(),
                i < qs@.len(),
                !found ==> forall|t: int| 0 <= t < j ==> (#[trigger] cs@[t])@ != qs@[i as int]@,
                found ==> gram_present(qs@[i as int]@, views(cs@)),
            decreases cs@.len() - j, (if found { 0int } else { 1int }),
        {
            if qs[i].eq(&cs[j]) {
                proof {
                    assert(views(cs@)[j as int] == qs@[i as int]@);
                }
                found = true;
            } else {
                j = j + 1;
            }
        }
        proof {
            if !found {
                assert(!gram_present(qs@[i as int]@, views(cs@))) by {
                    if gram_present(qs@[i as int]@, views(cs@)) {
                        let t = choose|t: int|
                            0 <= t < views(cs@).len() && views(cs@)[t] == qs@[i as int]@;
                        assert(cs@[t]@ == qs@[i as int]@);
                    }
                }
            }
            assert(views(qs@).take(i + 1).drop_last() =~= views(qs@).take(i as int));
            assert(views(qs@).take(i + 1).last() == qs@[i as int]@);
        }
        if found {
            total = total + 1;
        }
        i = i + 1;
    }
    proof {
        assert(views(qs@).take(qs@.len() as int) =~= views(qs@));
    }
    total
}

/// The views of a list of strings.
pub open spec fn views(ss: Seq<String>) -> Seq<Seq<char>> {
    Seq::new(ss.len(), |i: int| ss[i]@)
}

/// The Dice overlap of two gram lists in fixed point: twice the number
/// of shared grams over the total number of grams, clamped to one unit.
pub open spec fn spec_dice(qs: Seq<Seq<char>>, cs: Seq<Seq<char>>) -> int {
    if qs.len() + cs.len() == 0 {
        0
    } else {
        let raw = 2 * count_present(qs, cs) * SCALE / ((qs.len() + cs.len()) as int);
        if raw > SCALE {
            SCALE as int
        } else {
            raw
        }
    }
}

/// The Dice overlap of two gram lists, exactly as `spec_dice` says.
fn dice(qs: &Vec<String>, cs: &Vec<String>) -> (r: u64)
    requires
        qs@.len() + cs@.len() > 0,
    ensures
        r as int == spec_dice(views(qs@), views(cs@)),
        valid_score(r),
{
    let m = count_present_exec(qs, cs);
    proof {
        lemma_count_present_bounds(views(qs@), views(cs@));
        assert(views(qs@).len() == qs@.len());
        assert(views(cs@).len() == cs@.len());
    }
    let num: u128 = 2u128 * (m as u128) * (SCALE as u128);
    let den: u128 = (qs.len() as u128) + (cs.len() as u128);
    let raw = num / den;
    if raw > (SCALE as u128) {
        SCALE
    } else {
        raw as u64
    }
}

/// N-gram overlap similarity: the Dice coefficient of the lowercased
/// strings' n-gram lists.
#[derive(Clone, Copy, Debug, PartialEq, Eq, Structural)]
pub struct NGramScorer {
    /// Window size; at least one.
    pub n: usize,
}

impl Default for NGramScorer {
    /// Bigrams by default.
    fn default() -> (r: NGramScorer)
        ensures
            r.n == 2,
    {
        NGramScorer { n: 2 }
    }
}

impl NGramScorer {
    /// A scorer over windows of `n` characters; a size of zero is raised
    /// to one.
    pub fn new(n: usize) -> (r: NGramScorer)
        ensures
            r.n == (if n >= 1 {
                n as int
            } else {
                1int
            }),
            r.wf(),
    {
        NGramScorer { n: if n >= 1 { n } else { 1 } }
    }
}

impl Capability for NGramScorer {
    open spec fn wf(&self) -> bool {
        self.n >= 1
    }

    open spec fn total(&self) -> bool {
        true
    }

    open spec fn spec_score(&self, q: Seq<char>, c: Seq<char>) -> u64 {
        if q.len() == 0 && c.len() == 0 {
            SCALE
        } else if q.len() == 0 || c.len() == 0 {
            0
        } else {
            spec_dice(
                spec_ngrams(lower_of(q), self.n as int),
                spec_ngrams(lower_of(c), self.n as int),
            ) as u64
        }
    }

    open spec fn spec_perfect(&self, q: Seq<char>, c: Seq<char>) -> bool {
        q == c
    }

    fn measure(&self, query: &String, candidate: &String) -> (r: Result<
        Measurement,
        MetricFailure,
    >) {
        let perfect = query.eq(candidate);
        let q_chars = chars_vec(query);
        let c_chars = chars_vec(candidate);
        if q_chars.len() == 0 && c_chars.len() == 0 {
            return Ok(Measurement { score: SCALE, perfect });
        }
        if q_chars.len() == 0 || c_chars.len() == 0 {
            return Ok(Measurement { score: 0, perfect });
        }
        let q_low = chars_vec(&lowercase(query));
        let c_low = chars_vec(&lowercase(candidate));
        let qs = ngrams(&q_low, self.n);
        let cs = ngrams(&c_low, self.n);
        proof {
            assert(views(qs@) =~= spec_ngrams(lower_of(query@), self.n as int));
            assert(views(cs@) =~= spec_ngrams(lower_of(candidate@), self.n as int));
        }
        let score = dice(&qs, &cs);
        Ok(Measurement { score, perfect })
    }
}

/// N-gram overlap with a perfect short-circuit on equality; full overlap
/// also counts as perfect.
#[derive(Clone, Copy, Debug, PartialEq, Eq, Structural)]
pub struct Sequential {
    /// Window size; at least one.
    pub size: usize,
}

impl Default for Sequential {
    /// Bigrams by default.
    fn default() -> (r: Sequential)
        ensures
            r.size == 2,
    {
        Sequential { size: 2 }
    }
}

impl Sequential {
    /// A scorer over windows of `size` characters; a size of zero is
    /// raised to one.
    pub fn new(size: usize) -> (r: Sequential)
        ensures
            r.size == (if size >= 1 {
                size as int
            } else {
                1int
            }),
            r.wf(),
    {
        Sequential { size: if size >= 1 { size } else { 1 } }
    }
}

impl Capability for Sequential {
    open spec fn wf(&self) -> bool {
        self.size >= 1
    }

    open spec fn total(&self) -> bool {
        true
    }

    open spec fn spec_score(&self, q: Seq<char>, c: Seq<char>) -> u64 {
        if q == c {
            SCALE
        } else if q.len() == 0 || c.len() == 0 {
            0
        } else {
            spec_dice(
                spec_ngrams(lower_of(q), self.size as int),
                spec_ngrams(lower_of(c), self.size as int),
            ) as u64
        }
    }

    open spec fn spec_perfect(&self, q: Seq<char>, c: Seq<char>) -> bool {
        self.spec_score(q, c) == SCALE
    }

    fn measure(&self, query: &String, candidate: &String) -> (r: Result<
        Measurement,
        MetricFailure,
    >) {
        if query.eq(candidate) {
            return Ok(Measurement { score: SCALE, perfect: true });
        }
        let q_chars = chars_vec(query);
        let c_chars = chars_vec(candidate);
        if q_chars.len() == 0 || c_chars.len() == 0 {
            return Ok(Measurement { score: 0, perfect: false });
        }
        let q_low = chars_vec(&lowercase(query));
        let c_low = chars_vec(&lowercase(candidate));
        let qs = ngrams(&q_low, self.size);
        let cs = ngrams(&c_low, self.size);
        proof {
            assert(views(qs@) =~= spec_ngrams(lower_of(query@), self.size as int));
            assert(views(cs@) =~= spec_ngrams(lower_of(candidate@), self.size as int));
        }
        let score = dice(&qs, &cs);
        Ok(Measurement { score, perfect: score == SCALE })
    }
}

pub proof fn lemma_dice_bounds(qs: Seq<Seq<char>>, cs: Seq<Seq<char>>)
    ensures
        0 <= spec_dice(qs, cs) <= SCALE,
{
    if qs.len() + cs.len() > 0 {
        lemma_count_present_bounds(qs, cs);
        assert(0 <= 2 * count_present(qs, cs) * SCALE / ((qs.len() + cs.len()) as int))
            by (nonlinear_arith)
            requires 0 <= count_present(qs, cs) && qs.len() + cs.len() > 0 && SCALE as int > 0;
    }
}

} // verus!
