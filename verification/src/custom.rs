//! Closure-based custom capabilities.
//!
//! A caller can plug any scoring function into the engine by wrapping it
//! in `Custom`. Nothing is known about what such a function returns, so
//! the engine treats the dimension as non-total: its raw score is clamped
//! into range and its failures are isolated like any other capability
//! failure.

use vstd::prelude::*;
use crate::capability::Capability;
use crate::score::{Measurement, MetricFailure, SCALE, PERFECT_GATE};

verus! {

/// A capability defined by a caller-supplied scoring function. The
/// function returns a raw score in millionths (clamped to `SCALE` by the
/// wrapper) or an explicit failure.
pub struct Custom<F> {
    /// The caller's scoring function.
    pub function: F,
}

impl<F: Fn(&String, &String) -> Result<u64, MetricFailure>> Custom<F> {
    /// Wraps a scoring function as a capability. The function must be
    /// callable on every pair of strings.
    pub fn new(function: F) -> (r: Custom<F>)
        requires
            forall|q: &String, c: &String| #[trigger] call_requires(function, (q, c)),
        ensures
            r.wf(),
            r.function == function,
    {
        Custom { function }
    }
}

/// Post-processing of a raw caller-supplied score: the score is clamped
/// to one unit and the perfect flag is derived from the default perfect
/// gate.
pub fn clamp_measurement(raw: u64) -> (m: Measurement)
    ensures
        m.score == (if raw > SCALE {
            SCALE
        } else {
            raw
        }),
        m.perfect == (m.score >= PERFECT_GATE),
        m.wf(),
{
    let score: u64 = if raw > SCALE {
        SCALE
    } else {
        raw
    };
    Measurement { score, perfect: score >= PERFECT_GATE }
}

impl<F: Fn(&String, &String) -> Result<u64, MetricFailure>> Capability for Custom<F> {
    /// The stored function is callable on every pair of strings.
    open spec fn wf(&self) -> bool {
        forall|q: &String, c: &String| #[trigger] call_requires(self.function, (q, c))
    }

    /// Nothing pins down what a caller-supplied function returns.
    open spec fn total(&self) -> bool {
        false
    }

    open spec fn spec_score(&self, q: Seq<char>, c: Seq<char>) -> u64 {
        0
    }

    open spec fn spec_perfect(&self, q: Seq<char>, c: Seq<char>) -> bool {
        false
    }

    /// Runs the caller's function through `clamp_measurement`. Success
    /// cannot be promised — the function is the caller's — but every
    /// successful outcome is `clamped` of a raw score the function
    /// really returned, so the perfect flag follows `PERFECT_GATE`.
    fn measure(&self, query: &String, candidate: &String) -> (r: Result<
        Measurement,
        MetricFailure,
    >)
        ensures
            (match r {
                Ok(m) => m.perfect == (m.score >= PERFECT_GATE) && (exists|raw: u64|
                    call_ensures(self.function, (query, candidate), Ok(raw)) && m
                        == clamped(raw)),
                Err(e) => call_ensures(self.function, (query, candidate), Err(e)),
            }),
    {
        match (self.function)(query, candidate) {
            Ok(raw) => {
                let m = clamp_measurement(raw);
                proof {
                    assert(m == clamped(raw));
                }
                Ok(m)
            },
            Err(failure) => Err(failure),
        }
    }
}

/// The value `clamp_measurement` returns for a raw score.
pub open spec fn clamped(raw: u64) -> Measurement {
    Measurement {
        score: if raw > SCALE {
            SCALE
        } else {
            raw
        },
        perfect: (if raw > SCALE {
            SCALE
        } else {
            raw
        }) >= PERFECT_GATE,
    }
}

} // verus!
