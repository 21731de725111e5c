//! Fixed-point score model.
//!
//! Every resemblance score is an integer number of millionths: `SCALE`
//! stands for 1.0 (a perfect score) and 0 stands for no resemblance at
//! all. Weights use the same unit, so `WEIGHT_ONE` is a weight of 1.0.

use vstd::prelude::*;

verus! {

/// One full unit of resemblance (1.0) in millionths.
pub const SCALE: u64 = 1_000_000;

/// A weight of 1.0 in millionths.
pub const WEIGHT_ONE: u64 = 1_000_000;

/// Largest accepted weight (1000.0). Keeping weights bounded lets every
/// aggregate be computed exactly in 128-bit arithmetic.
pub const WEIGHT_MAX: u64 = 1_000_000_000;

/// Largest accepted number of dimensions per assessor; together with
/// `WEIGHT_MAX` this keeps weighted sums within 128 bits.
pub const MAX_DIMENSIONS: usize = 1_000_000;

/// Largest accepted string length, in characters: a machine limit that
/// keeps every length computation (such as an edit-distance table) within
/// `usize`.
pub const STRING_MAX: usize = 1_000_000_000;

/// A capability whose score reaches this gate counts as perfect unless it
/// decides perfection on its own terms (0.9999).
pub const PERFECT_GATE: u64 = 999_900;

/// The fixed gate of the Threshold blending scheme (0.5).
pub const THRESHOLD_GATE: u64 = 500_000;

/// Default viability floor of a freshly built assessor (0.4).
pub const DEFAULT_FLOOR: u64 = 400_000;

/// True of any value that can stand as a score: at most one full unit.
pub open spec fn valid_score(s: u64) -> bool {
    s <= SCALE
}

/// True of any value that can stand as a weight.
pub open spec fn valid_weight(w: u64) -> bool {
    w <= WEIGHT_MAX
}

/// A normalized resemblance with its distinguished extremes. `Perfect`
/// stands apart from a partial score of one unit: it can override the
/// viability floor unconditionally.
#[derive(Clone, Copy, Debug, PartialEq, Eq, Structural)]
pub enum Resemblance {
    /// Full resemblance (projects to `SCALE`).
    Perfect,
    /// Strictly between no resemblance and full resemblance.
    Partial(u64),
    /// No resemblance (projects to 0).
    Disparity,
}

impl Resemblance {
    /// A `Partial` payload stays strictly inside the open unit interval.
    pub open spec fn wf(self) -> bool {
        match self {
            Resemblance::Partial(v) => 0 < v < SCALE,
            _ => true,
        }
    }

    /// The numeric projection of a resemblance onto `0 ..= SCALE`.
    pub open spec fn spec_scaled(self) -> u64 {
        match self {
            Resemblance::Perfect => SCALE,
            Resemblance::Partial(v) => v,
            Resemblance::Disparity => 0,
        }
    }

    /// Numeric projection: `Perfect` is one unit, `Disparity` is zero.
    pub fn to_scaled(&self) -> (r: u64)
        ensures
            r == self.spec_scaled(),
    {
        match self {
            Resemblance::Perfect => SCALE,
            Resemblance::Partial(v) => *v,
            Resemblance::Disparity => 0,
        }
    }

    /// Classifies a raw scaled value: zero is `Disparity`, one full unit
    /// is `Perfect`, anything in between is `Partial`.
    pub fn from_scaled(value: u64) -> (r: Resemblance)
        requires
            valid_score(value),
        ensures
            r.wf(),
            r.spec_scaled() == value,
            r is Perfect <==> value == SCALE,
            r is Disparity <==> value == 0,
    {
        if value == 0 {
            Resemblance::Disparity
        } else if value >= SCALE {
            Resemblance::Perfect
        } else {
            Resemblance::Partial(value)
        }
    }
}

/// What one capability reports for one (query, candidate) pair: a
/// normalized score and whether the capability judged the pair perfect.
#[derive(Clone, Copy, Debug, PartialEq, Eq, Structural)]
pub struct Measurement {
    /// Normalized score in `0 ..= SCALE`.
    pub score: u64,
    /// Whether the capability judged the pair a perfect match.
    pub perfect: bool,
}

impl Measurement {
    /// The score stays within one unit.
    pub open spec fn wf(self) -> bool {
        valid_score(self.score)
    }
}

/// Why a capability could not produce a score for a given input. Failures
/// are ordinary values: they are recorded and never abort an assessment.
#[derive(Clone, Debug)]
pub struct MetricFailure {
    /// A human-readable account of what went wrong.
    pub detail: String,
}

/// The kind of match a measurement amounts to.
#[derive(Clone, Debug, PartialEq)]
pub enum MatchType {
    /// The pair was judged perfect.
    Exact,
    /// A partial resemblance, tagged with the reporting capability.
    Similar(String),
    /// No resemblance worth reporting.
    NotFound,
}

} // verus!
