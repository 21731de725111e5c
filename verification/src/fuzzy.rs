//! Edit-distance capabilities.
//!
//! The distance is the restricted Damerau-Levenshtein distance (optimal
//! string alignment): insertions, deletions, substitutions and adjacent
//! transpositions, where no substring is edited twice.

use vstd::prelude::*;
use vstd::string::StrSliceExecFns;
use crate::capability::Capability;
use crate::chars::chars_vec;
use crate::score::{Measurement, MetricFailure, SCALE, PERFECT_GATE, STRING_MAX, valid_score};

verus! {

/// Smaller of two integers.
pub open spec fn imin(x: int, y: int) -> int {
    if x < y {
        x
    } else {
        y
    }
}

/// Larger of two integers.
pub open spec fn imax(x: int, y: int) -> int {
    if x < y {
        y
    } else {
        x
    }
}

/// The restricted Damerau-Levenshtein distance between the first `i`
/// characters of `a` and the first `j` characters of `b`.
pub open spec fn spec_osa(a: Seq<char>, b: Seq<char>, i: int, j: int) -> int
    decreases i + j,
{
    if i <= 0 {
        if j <= 0 {
            0
        } else {
            j
        }
    } else if j <= 0 {
        i
    } else {
        let cost: int = if a[i - 1] == b[j - 1] {
            0
        } else {
            1
        };
        let base = imin(
            imin(spec_osa(a, b, i - 1, j) + 1, spec_osa(a, b, i, j - 1) + 1),
            spec_osa(a, b, i - 1, j - 1) + cost,
        );
        if i > 1 && j > 1 && a[i - 1] == b[j - 2] && a[i - 2] == b[j - 1] {
            imin(base, spec_osa(a, b, i - 2, j - 2) + cost)
        } else {
            base
        }
    }
}

/// The distance between two whole character sequences.
pub open spec fn spec_damerau(a: Seq<char>, b: Seq<char>) -> int {
    spec_osa(a, b, a.len() as int, b.len() as int)
}

/// The distance is nonnegative and never exceeds the longer prefix.
pub proof fn lemma_osa_bounds(a: Seq<char>, b: Seq<char>, i: int, j: int)
    requires
        0 <= i <= a.len(),
        0 <= j <= b.len(),
    ensures
        0 <= spec_osa(a, b, i, j) <= imax(i, j),
    decreases i + j,
{
    if i > 0 && j > 0 {
        lemma_osa_bounds(a, b, i - 1, j);
        lemma_osa_bounds(a, b, i, j - 1);
        lemma_osa_bounds(a, b, i - 1, j - 1);
        if i > 1 && j > 1 {
            lemma_osa_bounds(a, b, i - 2, j - 2);
        }
    }
}

/// The distance between two equal sequences is zero.
pub proof fn lemma_osa_refl(a: Seq<char>, i: int)
    requires
        0 <= i <= a.len(),
    ensures
        spec_osa(a, a, i, i) == 0,
    decreases i,
{
    if i > 0 {
        lemma_osa_refl(a, i - 1);
        lemma_osa_bounds(a, a, i - 1, i);
        lemma_osa_bounds(a, a, i, i - 1);
        if i > 1 {
            lemma_osa_bounds(a, a, i - 2, i - 2);
        }
    }
}

/// The restricted Damerau-Levenshtein distance over character vectors.
pub fn osa_distance(a: &Vec<char>, b: &Vec<char>) -> (d: usize)
    requires
        a@.len() + b@.len() < usize::MAX,
    ensures
        d as int == spec_damerau(a@, b@),
{
    let m = a.len();
    let n = b.len();
    proof {
        lemma_osa_bounds(a@, b@, m as int, n as int);
    }
    if m == 0 {
        return n;
    }
    if n == 0 {
        return m;
    }

    // Row 0 of the distance table.
    let mut prev: Vec<usize> = Vec::new();
    let mut j0: usize = 0;
    while j0 <= n
        invariant
            j0 <= n + 1,
            n < usize::MAX,
            n == b@.len(),
            prev@.len() == j0,
            forall|k: int| 0 <= k < j0 ==> prev@[k] == spec_osa(a@, b@, 0, k),
        decreases n + 1 - j0,
    {
        prev.push(j0);
        j0 = j0 + 1;
    }

    // `prev_prev` stands two rows back; it is only read when i >= 2.
    let mut prev_prev: Vec<usize> = Vec::new();
    let mut i: usize = 1;
    while i <= m
        invariant
            1 <= i <= m + 1,
            m < usize::MAX,
            m == a@.len(),
            n == b@.len(),
            a@.len() + b@.len() < usize::MAX,
            prev@.len() == n + 1,
            forall|k: int| 0 <= k <= n ==> prev@[k] == spec_osa(a@, b@, i - 1, k),
            i >= 2 ==> prev_prev@.len() == n + 1,
            i >= 2 ==> forall|k: int| 0 <= k <= n ==> prev_prev@[k] == spec_osa(a@, b@, i - 2, k),
        decreases m + 1 - i,
    {
        let mut cur: Vec<usize> = Vec::new();
        cur.push(i);
        proof {
            assert(cur@[0] == spec_osa(a@, b@, i as int, 0));
        }
        let mut j: usize = 1;
        while j <= n
            invariant
                1 <= j <= n + 1,
                1 <= i <= m,
                m == a@.len(),
                n == b@.len(),
                a@.len() + b@.len() < usize::MAX,
                prev@.len() == n + 1,
                forall|k: int| 0 <= k <= n ==> prev@[k] == spec_osa(a@, b@, i - 1, k),
                i >= 2 ==> prev_prev@.len() == n + 1,
                i >= 2 ==> forall|k: int|
                    0 <= k <= n ==> prev_prev@[k] == spec_osa(a@, b@, i - 2, k),
                cur@.len() == j,
                forall|k: int| 0 <= k < j ==> cur@[k] == spec_osa(a@, b@, i as int, k),
            decreases n + 1 - j,
        {
            proof {
                lemma_osa_bounds(a@, b@, i - 1, j as int);
                lemma_osa_bounds(a@, b@, i as int, j - 1);
                lemma_osa_bounds(a@, b@, i - 1, j - 1);
                if i >= 2 && j >= 2 {
                    lemma_osa_bounds(a@, b@, i - 2, j - 2);
                }
            }
            let cost: usize = if a[i - 1] == b[j - 1] {
                0
            } else {
                1
            };
            let deletion = prev[j] + 1;
            let insertion = cur[j - 1] + 1;
            let substitution = prev[j - 1] + cost;
            let mut d = deletion;
            if insertion < d {
                d = insertion;
            }
            if substitution < d {
                d = substitution;
            }
            if i > 1 && j > 1 && a[i - 1] == b[j - 2] && a[i - 2] == b[j - 1] {
                let transposition = prev_prev[j - 2] + cost;
                if transposition < d {
                    d = transposition;
                }
            }
            proof {
                assert(d == spec_osa(a@, b@, i as int, j as int));
            }
            cur.push(d);
            j = j + 1;
        }
        prev_prev = prev;
        prev = cur;
        i = i + 1;
    }
    prev[n]
}

/// The restricted Damerau-Levenshtein distance between two strings,
/// counted over characters. The combined length must leave room for the
/// distance table.
pub fn damerau_levenshtein_distance(s1: &str, s2: &str) -> (d: usize)
    requires
        s1@.len() + s2@.len() < usize::MAX,
    ensures
        d as int == spec_damerau(s1@, s2@),
{
    let mut a: Vec<char> = Vec::new();
    let n1 = s1.unicode_len();
    let mut i: usize = 0;
    while i < n1
        invariant
            i <= n1,
            n1 == s1@.len(),
            a@ == s1@.take(i as int),
        decreases n1 - i,
    {
        let c = s1.get_char(i);
        a.push(c);
        proof {
            assert(a@ =~= s1@.take(i + 1));
        }
        i = i + 1;
    }
    proof {
        assert(s1@.take(n1 as int) =~= s1@);
    }
    let mut b: Vec<char> = Vec::new();
    let n2 = s2.unicode_len();
    let mut k: usize = 0;
    while k < n2
        invariant
            k <= n2,
            n2 == s2@.len(),
            s1@.len() + s2@.len() < usize::MAX,
            a@ == s1@,
            b@ == s2@.take(k as int),
        decreases n2 - k,
    {
        let c = s2.get_char(k);
        b.push(c);
        proof {
            assert(b@ =~= s2@.take(k + 1));
        }
        k = k + 1;
    }
    proof {
        assert(s2@.take(n2 as int) =~= s2@);
    }
    osa_distance(&a, &b)
}

/// The normalized edit-distance score: one minus the distance over the
/// longer length, in fixed point (floored).
pub open spec fn spec_edit_score(q: Seq<char>, c: Seq<char>) -> int {
    let longest = imax(q.len() as int, c.len() as int);
    if longest == 0 {
        SCALE as int
    } else {
        SCALE * (longest - spec_damerau(q, c)) / longest
    }
}

/// Shared scoring body of the edit-distance capabilities.
fn edit_score(query: &String, candidate: &String) -> (r: u64)
    requires
        query@.len() <= STRING_MAX,
        candidate@.len() <= STRING_MAX,
    ensures
        r as int == spec_edit_score(query@, candidate@),
        valid_score(r),
{
    let a = chars_vec(query);
    let b = chars_vec(candidate);
    let m = a.len();
    let n = b.len();
    if m == 0 && n == 0 {
        return SCALE;
    }
    let d = osa_distance(&a, &b);
    let longest: usize = if m < n {
        n
    } else {
        m
    };
    proof {
        lemma_osa_bounds(a@, b@, m as int, n as int);
        assert((SCALE as int) * ((longest as int) - (d as int)) / (longest as int)
            <= SCALE as int) by (nonlinear_arith)
            requires
                longest as int > 0,
                0 <= (longest as int) - (d as int) <= longest as int,
                SCALE as int > 0;
        assert((SCALE as int) * ((longest as int) - (d as int)) >= 0) by (nonlinear_arith)
            requires 0 <= (longest as int) - (d as int);
        assert((SCALE as int) * ((longest as int) - (d as int)) <= (SCALE as int)
            * (longest as int)) by (nonlinear_arith)
            requires 0 <= (longest as int) - (d as int) <= longest as int;
    }
    let remaining: u128 = (longest - d) as u128;
    let wide: u128 = (SCALE as u128) * remaining;
    (wide / (longest as u128)) as u64
}

/// Normalized edit-distance similarity over whole strings.
#[derive(Clone, Copy, Debug, PartialEq, Eq, Structural)]
pub struct EditDistanceScorer;

impl Capability for EditDistanceScorer {
    open spec fn wf(&self) -> bool {
        true
    }

    open spec fn total(&self) -> bool {
        true
    }

    open spec fn spec_score(&self, q: Seq<char>, c: Seq<char>) -> u64 {
        spec_edit_score(q, c) as u64
    }

    open spec fn spec_perfect(&self, q: Seq<char>, c: Seq<char>) -> bool {
        q == c
    }

    fn measure(&self, query: &String, candidate: &String) -> (r: Result<
        Measurement,
        MetricFailure,
    >) {
        let perfect = query.eq(candidate);
        let score = edit_score(query, candidate);
        Ok(Measurement { score, perfect })
    }
}

/// Edit-distance resemblance with a perfect short-circuit on equality.
#[derive(Clone, Copy, Debug, PartialEq, Eq, Structural)]
pub struct Levenshtein;

impl Capability for Levenshtein {
    open spec fn wf(&self) -> bool {
        true
    }

    open spec fn total(&self) -> bool {
        true
    }

    open spec fn spec_score(&self, q: Seq<char>, c: Seq<char>) -> u64 {
        if q == c {
            SCALE
        } else {
            spec_edit_score(q, c) as u64
        }
    }

    open spec fn spec_perfect(&self, q: Seq<char>, c: Seq<char>) -> bool {
        q == c
    }

    fn measure(&self, query: &String, candidate: &String) -> (r: Result<
        Measurement,
        MetricFailure,
    >) {
        if query.eq(candidate) {
            return Ok(Measurement { score: SCALE, perfect: true });
        }
        let score = edit_score(query, candidate);
        Ok(Measurement { score, perfect: false })
    }
}

/// A coarse length-difference similarity: one minus the length gap over
/// the longer length.
#[derive(Clone, Copy, Debug, PartialEq, Eq, Structural)]
pub struct SimpleLevenshteinMetric;

impl Capability for SimpleLevenshteinMetric {
    open spec fn wf(&self) -> bool {
        true
    }

    open spec fn total(&self) -> bool {
        true
    }

    open spec fn spec_score(&self, q: Seq<char>, c: Seq<char>) -> u64 {
        let longest = imax(q.len() as int, c.len() as int);
        let shortest = imin(q.len() as int, c.len() as int);
        if longest == 0 {
            SCALE
        } else {
            (SCALE * shortest / longest) as u64
        }
    }

    open spec fn spec_perfect(&self, q: Seq<char>, c: Seq<char>) -> bool {
        self.spec_score(q, c) >= PERFECT_GATE
    }

    fn measure(&self, query: &String, candidate: &String) -> (r: Result<
        Measurement,
        MetricFailure,
    >) {
        let a = chars_vec(query);
        let b = chars_vec(candidate);
        let m = a.len();
        let n = b.len();
        let longest: usize = if m < n {
            n
        } else {
            m
        };
        let shortest: usize = if m < n {
            m
        } else {
            n
        };
        if longest == 0 {
            return Ok(Measurement { score: SCALE, perfect: true });
        }
        proof {
            assert((SCALE as int) * (shortest as int) / (longest as int) <= SCALE as int)
                by (nonlinear_arith)
                requires
                    longest as int > 0,
                    0 <= shortest as int <= longest as int,
                    SCALE as int > 0;
            assert((SCALE as int) * (shortest as int) >= 0) by (nonlinear_arith)
                requires 0 <= shortest as int;
        }
        let wide: u128 = (SCALE as u128) * (shortest as u128);
        let score = (wide / (longest as u128)) as u64;
        Ok(Measurement { score, perfect: score >= PERFECT_GATE })
    }
}

pub proof fn lemma_edit_score_bounds(q: Seq<char>, c: Seq<char>)
    ensures
        0 <= spec_edit_score(q, c) <= SCALE,
{
    let longest = imax(q.len() as int, c.len() as int);
    if longest > 0 {
        lemma_osa_bounds(q, c, q.len() as int, c.len() as int);
        assert(0 <= SCALE * (longest - spec_damerau(q, c)) / longest <= SCALE as int)
            by (nonlinear_arith)
            requires
                longest > 0,
                0 <= longest - spec_damerau(q, c) <= longest,
                SCALE as int > 0;
    }
}

pub proof fn lemma_length_gap_bounds(q: Seq<char>, c: Seq<char>)
    ensures
        0 <= SCALE * imin(q.len() as int, c.len() as int) / imax(q.len() as int, c.len() as int)
            <= SCALE || imax(q.len() as int, c.len() as int) == 0,
{
    let longest = imax(q.len() as int, c.len() as int);
    let shortest = imin(q.len() as int, c.len() as int);
    if longest > 0 {
        assert(0 <= SCALE * shortest / longest <= SCALE as int) by (nonlinear_arith)
            requires longest > 0 && 0 <= shortest <= longest && SCALE as int > 0;
    }
}

} // verus!
