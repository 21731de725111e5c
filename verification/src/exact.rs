//! Equality-based capabilities: exact and case-insensitive matching.

use vstd::prelude::*;
use crate::capability::Capability;
use crate::chars::{lower_of, lowercase};
use crate::score::{Measurement, MetricFailure, SCALE};

verus! {

/// Score granted by a case-insensitive match that is not exact (0.95).
pub const RELAXED_SCORE: u64 = 950_000;

/// Full score for identical strings, nothing otherwise.
#[derive(Clone, Copy, Debug, PartialEq, Eq, Structural)]
pub struct ExactMatchScorer;

impl Capability for ExactMatchScorer {
    open spec fn wf(&self) -> bool {
        true
    }

    open spec fn total(&self) -> bool {
        true
    }

    open spec fn spec_score(&self, q: Seq<char>, c: Seq<char>) -> u64 {
        if q == c {
            SCALE
        } else {
            0
        }
    }

    open spec fn spec_perfect(&self, q: Seq<char>, c: Seq<char>) -> bool {
        q == c
    }

    fn measure(&self, query: &String, candidate: &String) -> (r: Result<
        Measurement,
        MetricFailure,
    >) {
        let same = query.eq(candidate);
        if same {
            Ok(Measurement { score: SCALE, perfect: true })
        } else {
            Ok(Measurement { score: 0, perfect: false })
        }
    }
}

/// Nearly full score (0.95) when the strings agree after Unicode
/// lowercasing; case-insensitive equality also counts as perfect.
#[derive(Clone, Copy, Debug, PartialEq, Eq, Structural)]
pub struct CaseInsensitiveScorer;

impl Capability for CaseInsensitiveScorer {
    open spec fn wf(&self) -> bool {
        true
    }

    open spec fn total(&self) -> bool {
        true
    }

    open spec fn spec_score(&self, q: Seq<char>, c: Seq<char>) -> u64 {
        if lower_of(q) == lower_of(c) {
            RELAXED_SCORE
        } else {
            0
        }
    }

    open spec fn spec_perfect(&self, q: Seq<char>, c: Seq<char>) -> bool {
        lower_of(q) == lower_of(c)
    }

    fn measure(&self, query: &String, candidate: &String) -> (r: Result<
        Measurement,
        MetricFailure,
    >) {
        let q_low = lowercase(query);
        let c_low = lowercase(candidate);
        let same = q_low.eq(&c_low);
        if same {
            Ok(Measurement { score: RELAXED_SCORE, perfect: true })
        } else {
            Ok(Measurement { score: 0, perfect: false })
        }
    }
}

/// Perfect resemblance for identical strings, disparity otherwise.
#[derive(Clone, Copy, Debug, PartialEq, Eq, Structural)]
pub struct Exact;

impl Capability for Exact {
    open spec fn wf(&self) -> bool {
        true
    }

    open spec fn total(&self) -> bool {
        true
    }

    open spec fn spec_score(&self, q: Seq<char>, c: Seq<char>) -> u64 {
        if q == c {
            SCALE
        } else {
            0
        }
    }

    open spec fn spec_perfect(&self, q: Seq<char>, c: Seq<char>) -> bool {
        q == c
    }

    fn measure(&self, query: &String, candidate: &String) -> (r: Result<
        Measurement,
        MetricFailure,
    >) {
        let same = query.eq(candidate);
        if same {
            Ok(Measurement { score: SCALE, perfect: true })
        } else {
            Ok(Measurement { score: 0, perfect: false })
        }
    }
}

/// A partial 0.95 resemblance for case-insensitive equality; never
/// reports a perfect match.
#[derive(Clone, Copy, Debug, PartialEq, Eq, Structural)]
pub struct Relaxed;

impl Capability for Relaxed {
    open spec fn wf(&self) -> bool {
        true
    }

    open spec fn total(&self) -> bool {
        true
    }

    open spec fn spec_score(&self, q: Seq<char>, c: Seq<char>) -> u64 {
        if lower_of(q) == lower_of(c) {
            RELAXED_SCORE
        } else {
            0
        }
    }

    open spec fn spec_perfect(&self, q: Seq<char>, c: Seq<char>) -> bool {
        false
    }

    fn measure(&self, query: &String, candidate: &String) -> (r: Result<
        Measurement,
        MetricFailure,
    >) {
        let q_low = lowercase(query);
        let c_low = lowercase(candidate);
        let same = q_low.eq(&c_low);
        if same {
            Ok(Measurement { score: RELAXED_SCORE, perfect: false })
        } else {
            Ok(Measurement { score: 0, perfect: false })
        }
    }
}

} // verus!
