//! The error reported when a deterministic runtime invariant is violated.
use vstd::prelude::*;

verus! {

/// A violated deterministic invariant: which invariant, in which subsystem.
#[derive(Debug, Clone, Copy)]
pub struct DeterministicInvariantViolation {
    pub invariant_name: &'static str,
    pub subsystem: &'static str,
}

/// The violation with the given invariant and subsystem names.
pub open spec fn violation(invariant_name: &'static str, subsystem: &'static str) -> DeterministicInvariantViolation {
    DeterministicInvariantViolation { invariant_name, subsystem }
}

} // verus!
