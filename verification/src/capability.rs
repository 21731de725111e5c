//! The capability contract that every scoring dimension satisfies.
//!
//! A capability measures one (query, candidate) pair and reports a
//! normalized score together with a perfect flag, or an explicit failure.
//! The engine depends only on this contract, never on how a particular
//! similarity is computed.

use vstd::prelude::*;
use crate::score::{Measurement, MetricFailure, STRING_MAX};

verus! {

/// One scoring capability: anything that can judge the resemblance of a
/// candidate to a query.
pub trait Capability: Sized {
    /// Structural well-formedness of the capability's configuration.
    spec fn wf(&self) -> bool;

    /// Whether this capability is total: it never fails, and its result
    /// is a deterministic function of the inputs, pinned by `spec_score`
    /// and `spec_perfect`.
    spec fn total(&self) -> bool;

    /// The score this capability assigns, when total.
    spec fn spec_score(&self, q: Seq<char>, c: Seq<char>) -> u64;

    /// The perfect flag this capability reports, when total.
    spec fn spec_perfect(&self, q: Seq<char>, c: Seq<char>) -> bool;

    /// Measures one pair. A failure is an ordinary value, never a panic.
    /// Both strings stay below `STRING_MAX` characters, a machine limit
    /// that keeps every internal length computation within `usize`.
    fn measure(&self, query: &String, candidate: &String) -> (r: Result<
        Measurement,
        MetricFailure,
    >)
        requires
            self.wf(),
            query@.len() <= STRING_MAX,
            candidate@.len() <= STRING_MAX,
        ensures
            (match r {
                Ok(meas) => meas.wf() && (self.total() ==> meas.score == self.spec_score(
                    query@,
                    candidate@,
                ) && meas.perfect == self.spec_perfect(query@, candidate@)),
                Err(_) => !self.total(),
            }),
    ;
}

} // verus!
