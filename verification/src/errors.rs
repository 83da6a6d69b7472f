//! Errors returned by the mutation operations of the filter engine.

use vstd::prelude::*;

verus! {

/// Why a mutation of a filter or of the registry was rejected.
#[derive(Clone, Copy, Debug, PartialEq, Eq, Structural)]
pub enum FilterError {
    /// A remove was attempted on a subscription or handle list that was
    /// never initialized for the rule.
    NotFound,
    /// No rule in the registry carries the requested name.
    NoSuchFilter,
}

} // verus!
