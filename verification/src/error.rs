//! The ways in which a query can be ill-formed.

use vstd::prelude::*;

verus! {

/// Why a query was abandoned. An abandoned query has no answer: it is neither
/// satisfied nor refuted.
#[derive(Debug, Clone, Copy, PartialEq, Eq, Structural)]
pub enum QueryError {
    /// The goal is a literal, a variable, a list or a rule, or a rule occurs
    /// inside a goal whose variables are collected.
    UnsupportedGoalShape,
    /// A variable was read that is not bound.
    UnboundVariableReference,
    /// A side of a comparison is not an integer, nor a variable bound to one.
    TypeMismatchInComparison,
    /// The left side of an equality is not a variable.
    InvalidEqualityShape,
    /// Rule bodies were nested deeper than the knowledge base allows.
    DepthLimitExceeded,
}

} // verus!
