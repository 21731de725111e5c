//! Numeric proximity scorers over integer values.

use vstd::prelude::*;
use crate::score::{SCALE, valid_score};

verus! {

/// Normalization range of the plain numeric similarity.
pub const NUMERIC_RANGE: u64 = 100;

/// Ratio proximity: the smaller value over the larger one.
#[derive(Clone, Copy, Debug, PartialEq, Eq, Structural)]
pub struct PercentageProximityScorer;

impl PercentageProximityScorer {
    /// The proximity of two values as their ratio: equal values score
    /// one unit, a zero against anything else scores nothing, and
    /// otherwise the smaller value is divided by the larger.
    pub fn score(&self, query: u64, candidate: u64) -> (r: u64)
        ensures
            query == candidate ==> r == SCALE,
            query != candidate && (query == 0 || candidate == 0) ==> r == 0,
            query != candidate && query != 0 && candidate != 0 ==> r as int == SCALE * (if query
                < candidate {
                query as int
            } else {
                candidate as int
            }) / (if query < candidate {
                candidate as int
            } else {
                query as int
            }),
            valid_score(r),
    {
        if query == candidate {
            return SCALE;
        }
        if query == 0 || candidate == 0 {
            return 0;
        }
        let smaller: u64 = if query < candidate {
            query
        } else {
            candidate
        };
        let larger: u64 = if query < candidate {
            candidate
        } else {
            query
        };
        proof {
            assert((SCALE as int) * (smaller as int) / (larger as int) <= SCALE as int)
                by (nonlinear_arith)
                requires
                    larger as int > 0,
                    0 <= smaller as int <= larger as int,
                    SCALE as int > 0;
            assert((SCALE as int) * (smaller as int) >= 0) by (nonlinear_arith)
                requires smaller as int >= 0;
        }
        let wide: u128 = (SCALE as u128) * (smaller as u128);
        (wide / (larger as u128)) as u64
    }

    /// Whether two values match exactly.
    pub fn exact(&self, query: u64, candidate: u64) -> (r: bool)
        ensures
            r == (query == candidate),
    {
        query == candidate
    }
}

/// Difference proximity within a fixed normalization range.
#[derive(Clone, Copy, Debug, PartialEq, Eq, Structural)]
pub struct NumericSimilarity;

impl NumericSimilarity {
    /// One minus the absolute difference over the fixed range; values
    /// further apart than the range score nothing.
    pub fn score(&self, query: u64, candidate: u64) -> (r: u64)
        ensures
            (if query < candidate {
                candidate - query
            } else {
                query - candidate
            }) > NUMERIC_RANGE ==> r == 0,
            (if query < candidate {
                candidate - query
            } else {
                query - candidate
            }) <= NUMERIC_RANGE ==> r as int == SCALE * (NUMERIC_RANGE - (if query < candidate {
                candidate - query
            } else {
                query - candidate
            })) / (NUMERIC_RANGE as int),
            valid_score(r),
    {
        let diff: u64 = if query < candidate {
            candidate - query
        } else {
            query - candidate
        };
        if diff > NUMERIC_RANGE {
            return 0;
        }
        let remaining: u64 = NUMERIC_RANGE - diff;
        proof {
            assert((SCALE as int) * (remaining as int) / (NUMERIC_RANGE as int) <= SCALE as int)
                by (nonlinear_arith)
                requires
                    0 <= remaining as int <= NUMERIC_RANGE as int,
                    NUMERIC_RANGE as int > 0,
                    SCALE as int > 0;
            assert((SCALE as int) * (remaining as int) >= 0) by (nonlinear_arith)
                requires remaining as int >= 0;
        }
        let wide: u128 = (SCALE as u128) * (remaining as u128);
        (wide / (NUMERIC_RANGE as u128)) as u64
    }
}

} // verus!
