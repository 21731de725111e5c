//! Positional capabilities: prefix, suffix and substring containment.
//!
//! Each one tests the lowercased query against the lowercased candidate
//! and scales a fixed factor by the length ratio of query to candidate,
//! capped at the factor itself.

use vstd::prelude::*;
use crate::capability::Capability;
use crate::chars::{lower_of, lowercase, chars_vec, is_prefix, is_suffix, contains_seq,
    spec_is_prefix, spec_is_suffix, spec_contains};
use crate::score::{Measurement, MetricFailure, SCALE, valid_score};

verus! {

/// Factor granted by a prefix match (0.9).
pub const PREFIX_FACTOR: u64 = 900_000;

/// Factor granted by a suffix match (0.85).
pub const SUFFIX_FACTOR: u64 = 850_000;

/// Factor granted by a substring match (0.8).
pub const SUBSTRING_FACTOR: u64 = 800_000;

/// `factor * min(1, a / b)`: the factor scaled by how much of the
/// candidate the query covers.
pub open spec fn spec_capped_ratio(factor: u64, a: int, b: int) -> int {
    if a >= b {
        factor as int
    } else {
        factor * a / b
    }
}

/// The factor scaled by `min(1, a / b)` in exact fixed point.
pub fn capped_ratio(factor: u64, a: usize, b: usize) -> (r: u64)
    requires
        valid_score(factor),
    ensures
        r as int == spec_capped_ratio(factor, a as int, b as int),
        r <= factor,
{
    if a >= b {
        factor
    } else {
        proof {
            assert((factor as int) * (a as int) / (b as int) <= factor as int)
                by (nonlinear_arith)
                requires 0 <= factor as int && 0 <= a as int <= b as int && b as int > 0;
            assert((factor as int) * (a as int) >= 0) by (nonlinear_arith)
                requires 0 <= factor as int && 0 <= a as int;
            assert((factor as int) * (a as int) <= (SCALE as int) * (a as int))
                by (nonlinear_arith)
                requires 0 <= a as int && factor as int <= SCALE as int;
        }
        let wide: u128 = (factor as u128) * (a as u128);
        (wide / (b as u128)) as u64
    }
}

/// Prefix containment: rewards candidates that begin with the query.
#[derive(Clone, Copy, Debug, PartialEq, Eq, Structural)]
pub struct PrefixScorer;

impl Capability for PrefixScorer {
    open spec fn wf(&self) -> bool {
        true
    }

    open spec fn total(&self) -> bool {
        true
    }

    open spec fn spec_score(&self, q: Seq<char>, c: Seq<char>) -> u64 {
        if spec_is_prefix(lower_of(q), lower_of(c)) {
            spec_capped_ratio(PREFIX_FACTOR, q.len() as int, c.len() as int) as u64
        } else {
            0
        }
    }

    open spec fn spec_perfect(&self, q: Seq<char>, c: Seq<char>) -> bool {
        q == c
    }

    fn measure(&self, query: &String, candidate: &String) -> (r: Result<
        Measurement,
        MetricFailure,
    >) {
        let q_low = chars_vec(&lowercase(query));
        let c_low = chars_vec(&lowercase(candidate));
        let perfect = query.eq(candidate);
        if is_prefix(&q_low, &c_low) {
            let q_len = chars_vec(query).len();
            let c_len = chars_vec(candidate).len();
            let score = capped_ratio(PREFIX_FACTOR, q_len, c_len);
            Ok(Measurement { score, perfect })
        } else {
            Ok(Measurement { score: 0, perfect })
        }
    }
}

/// Suffix containment: rewards candidates that end with the query.
#[derive(Clone, Copy, Debug, PartialEq, Eq, Structural)]
pub struct SuffixScorer;

impl Capability for SuffixScorer {
    open spec fn wf(&self) -> bool {
        true
    }

    open spec fn total(&self) -> bool {
        true
    }

    open spec fn spec_score(&self, q: Seq<char>, c: Seq<char>) -> u64 {
        if spec_is_suffix(lower_of(q), lower_of(c)) {
            spec_capped_ratio(SUFFIX_FACTOR, q.len() as int, c.len() as int) as u64
        } else {
            0
        }
    }

    open spec fn spec_perfect(&self, q: Seq<char>, c: Seq<char>) -> bool {
        q == c
    }

    fn measure(&self, query: &String, candidate: &String) -> (r: Result<
        Measurement,
        MetricFailure,
    >) {
        let q_low = chars_vec(&lowercase(query));
        let c_low = chars_vec(&lowercase(candidate));
        let perfect = query.eq(candidate);
        if is_suffix(&q_low, &c_low) {
            let q_len = chars_vec(query).len();
            let c_len = chars_vec(candidate).len();
            let score = capped_ratio(SUFFIX_FACTOR, q_len, c_len);
            Ok(Measurement { score, perfect })
        } else {
            Ok(Measurement { score: 0, perfect })
        }
    }
}

/// Substring containment: rewards candidates that contain the query
/// anywhere.
#[derive(Clone, Copy, Debug, PartialEq, Eq, Structural)]
pub struct SubstringScorer;

impl Capability for SubstringScorer {
    open spec fn wf(&self) -> bool {
        true
    }

    open spec fn total(&self) -> bool {
        true
    }

    open spec fn spec_score(&self, q: Seq<char>, c: Seq<char>) -> u64 {
        if spec_contains(lower_of(q), lower_of(c)) {
            spec_capped_ratio(SUBSTRING_FACTOR, q.len() as int, c.len() as int) as u64
        } else {
            0
        }
    }

    open spec fn spec_perfect(&self, q: Seq<char>, c: Seq<char>) -> bool {
        q == c
    }

    fn measure(&self, query: &String, candidate: &String) -> (r: Result<
        Measurement,
        MetricFailure,
    >) {
        let q_low = chars_vec(&lowercase(query));
        let c_low = chars_vec(&lowercase(candidate));
        let perfect = query.eq(candidate);
        if contains_seq(&q_low, &c_low) {
            let q_len = chars_vec(query).len();
            let c_len = chars_vec(candidate).len();
            let score = capped_ratio(SUBSTRING_FACTOR, q_len, c_len);
            Ok(Measurement { score, perfect })
        } else {
            Ok(Measurement { score: 0, perfect })
        }
    }
}

/// Substring containment with a perfect short-circuit: identical strings
/// resolve to full resemblance before any containment test.
#[derive(Clone, Copy, Debug, PartialEq, Eq, Structural)]
pub struct Contains;

impl Capability for Contains {
    open spec fn wf(&self) -> bool {
        true
    }

    open spec fn total(&self) -> bool {
        true
    }

    open spec fn spec_score(&self, q: Seq<char>, c: Seq<char>) -> u64 {
        if q == c {
            SCALE
        } else if spec_contains(lower_of(q), lower_of(c)) {
            spec_capped_ratio(SUBSTRING_FACTOR, q.len() as int, c.len() as int) as u64
        } else {
            0
        }
    }

    open spec fn spec_perfect(&self, q: Seq<char>, c: Seq<char>) -> bool {
        q == c
    }

    fn measure(&self, query: &String, candidate: &String) -> (r: Result<
        Measurement,
        MetricFailure,
    >) {
        if query.eq(candidate) {
            return Ok(Measurement { score: SCALE, perfect: true });
        }
        let q_low = chars_vec(&lowercase(query));
        let c_low = chars_vec(&lowercase(candidate));
        if contains_seq(&q_low, &c_low) {
            let q_len = chars_vec(query).len();
            let c_len = chars_vec(candidate).len();
            let score = capped_ratio(SUBSTRING_FACTOR, q_len, c_len);
            Ok(Measurement { score, perfect: false })
        } else {
            Ok(Measurement { score: 0, perfect: false })
        }
    }
}

pub proof fn lemma_capped_ratio_bounds(factor: u64, a: int, b: int)
    requires
        valid_score(factor),
        a >= 0,
        b >= 0,
    ensures
        0 <= spec_capped_ratio(factor, a, b) <= SCALE,
{
    if a < b {
        assert(0 <= factor * a / b <= factor as int) by (nonlinear_arith)
            requires 0 <= factor as int && 0 <= a < b;
    }
}

} // verus!
