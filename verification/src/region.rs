//! Region identity and the per-region runtime state machine.
use vstd::prelude::*;
use crate::invariants::{DeterministicInvariantViolation, violation};

verus! {

#[derive(Clone, Copy, Debug, Eq, PartialEq, Ord, PartialOrd, Hash, Structural)]
pub struct StructuralRegionId(pub u64);

impl StructuralRegionId {
    pub fn new(id: u64) -> (r: Self)
        ensures
            r.0 == id,
    {
        Self(id)
    }
}

#[derive(Clone, Copy, Debug, Eq, PartialEq, Ord, PartialOrd, Hash, Structural)]
pub struct StructuralRegionGeneration(pub u64);

impl StructuralRegionGeneration {
    pub fn new(generation: u64) -> (g: Self)
        ensures
            g.0 == generation,
    {
        Self(generation)
    }
}

#[derive(Clone, Copy, Debug, Eq, PartialEq, Ord, PartialOrd, Hash, Structural)]
pub struct RegionRuntimeIdentity {
    pub region_id: StructuralRegionId,
    pub generation: StructuralRegionGeneration,
    pub originating_tick: u64,
    pub continuity_epoch: u64,
    pub replay_sequence: u64,
}

impl RegionRuntimeIdentity {
    pub fn new(
        region_id: StructuralRegionId,
        generation: StructuralRegionGeneration,
        originating_tick: u64,
        continuity_epoch: u64,
        replay_sequence: u64,
    ) -> (r: Self)
        ensures
            r == (RegionRuntimeIdentity {
                region_id,
                generation,
                originating_tick,
                continuity_epoch,
                replay_sequence,
            }),
    {
        Self { region_id, generation, originating_tick, continuity_epoch, replay_sequence }
    }
}

#[derive(Clone, Copy, Debug, Eq, PartialEq, Ord, PartialOrd, Hash, Structural)]
pub enum RegionActivationState {
    Inactive,
    Activating,
    Active,
    Deactivating,
}

#[derive(Clone, Copy, Debug, Eq, PartialEq, Ord, PartialOrd, Hash, Structural)]
pub enum RegionResidencyState {
    Evicted,
    Loading,
    Resident,
    Stabilizing,
}

#[derive(Clone, Copy, Debug, Eq, PartialEq, Ord, PartialOrd, Hash, Structural)]
pub enum RegionStreamingState {
    Idle,
    Streaming,
    Completed,
    Failed,
}

/// Position of an activation state in its declaration order.
pub open spec fn activation_rank(s: RegionActivationState) -> int {
    match s {
        RegionActivationState::Inactive => 0,
        RegionActivationState::Activating => 1,
        RegionActivationState::Active => 2,
        RegionActivationState::Deactivating => 3,
    }
}

/// Position of a residency state in its declaration order.
pub open spec fn residency_rank(s: RegionResidencyState) -> int {
    match s {
        RegionResidencyState::Evicted => 0,
        RegionResidencyState::Loading => 1,
        RegionResidencyState::Resident => 2,
        RegionResidencyState::Stabilizing => 3,
    }
}

/// Residency state's declaration-order number.
pub fn residency_ordinal(s: RegionResidencyState) -> (r: u8)
    ensures
        r == residency_rank(s),
{
    match s {
        RegionResidencyState::Evicted => 0,
        RegionResidencyState::Loading => 1,
        RegionResidencyState::Resident => 2,
        RegionResidencyState::Stabilizing => 3,
    }
}

/// Activation state's declaration-order number.
pub fn activation_ordinal(s: RegionActivationState) -> (r: u8)
    ensures
        r == activation_rank(s),
{
    match s {
        RegionActivationState::Inactive => 0,
        RegionActivationState::Activating => 1,
        RegionActivationState::Active => 2,
        RegionActivationState::Deactivating => 3,
    }
}

/// One activation step: Inactive → Activating → Active, or the violation.
pub open spec fn activate_step(s: RegionActivationState) -> Result<RegionActivationState, DeterministicInvariantViolation> {
    match s {
        RegionActivationState::Inactive => Ok(RegionActivationState::Activating),
        RegionActivationState::Activating => Ok(RegionActivationState::Active),
        RegionActivationState::Active => Err(violation("duplicate_activation_transition", "region_runtime")),
        RegionActivationState::Deactivating => Err(violation("activation_state_regression", "region_runtime")),
    }
}

/// One deactivation step: Active → Deactivating → Inactive, or the violation.
pub open spec fn deactivate_step(s: RegionActivationState) -> Result<RegionActivationState, DeterministicInvariantViolation> {
    match s {
        RegionActivationState::Active => Ok(RegionActivationState::Deactivating),
        RegionActivationState::Deactivating => Ok(RegionActivationState::Inactive),
        RegionActivationState::Inactive => Err(violation("duplicate_deactivation_transition", "region_runtime")),
        RegionActivationState::Activating => Err(violation("deactivation_state_regression", "region_runtime")),
    }
}

/// One stabilization step: Loading → Resident → Stabilizing, or the violation.
pub open spec fn stabilize_step(s: RegionResidencyState) -> Result<RegionResidencyState, DeterministicInvariantViolation> {
    match s {
        RegionResidencyState::Loading => Ok(RegionResidencyState::Resident),
        RegionResidencyState::Resident => Ok(RegionResidencyState::Stabilizing),
        RegionResidencyState::Stabilizing => Err(violation("duplicate_stabilization", "region_runtime")),
        RegionResidencyState::Evicted => Err(violation("stabilize_on_evicted_region", "region_runtime")),
    }
}

#[derive(Clone, Copy, Debug, Eq, PartialEq, Ord, PartialOrd, Structural)]
pub struct StructuralRegionRuntime {
    pub identity: RegionRuntimeIdentity,
    pub activation: RegionActivationState,
    pub residency: RegionResidencyState,
    pub streaming: RegionStreamingState,
}

/// The runtime after an activation step, or the violation it reports.
pub open spec fn activate_runtime(r: StructuralRegionRuntime) -> Result<StructuralRegionRuntime, DeterministicInvariantViolation> {
    match activate_step(r.activation) {
        Ok(a) => Ok(StructuralRegionRuntime { activation: a, ..r }),
        Err(e) => Err(e),
    }
}

/// The runtime after a stabilization step, or the violation it reports.
pub open spec fn stabilize_runtime(r: StructuralRegionRuntime) -> Result<StructuralRegionRuntime, DeterministicInvariantViolation> {
    match stabilize_step(r.residency) {
        Ok(s) => Ok(StructuralRegionRuntime { residency: s, ..r }),
        Err(e) => Err(e),
    }
}

impl StructuralRegionRuntime {
    /// A fresh runtime: Inactive, Evicted, Idle.
    pub fn new(identity: RegionRuntimeIdentity) -> (r: Self)
        ensures
            r == (StructuralRegionRuntime {
                identity,
                activation: RegionActivationState::Inactive,
                residency: RegionResidencyState::Evicted,
                streaming: RegionStreamingState::Idle,
            }),
    {
        Self {
            identity,
            activation: RegionActivationState::Inactive,
            residency: RegionResidencyState::Evicted,
            streaming: RegionStreamingState::Idle,
        }
    }

    /// Transition activation state monotonically towards Active.
    pub fn activate_region(&mut self) -> (res: Result<(), DeterministicInvariantViolation>)
        ensures
            match activate_runtime(*old(self)) {
                Ok(r) => res is Ok && *final(self) == r,
                Err(e) => res == Err::<(), DeterministicInvariantViolation>(e) && *final(self) == *old(self),
            },
    {
        match self.activation {
            RegionActivationState::Inactive => {
                self.activation = RegionActivationState::Activating;
                Ok(())
            },
            RegionActivationState::Activating => {
                self.activation = RegionActivationState::Active;
                Ok(())
            },
            RegionActivationState::Active => Err(
                DeterministicInvariantViolation {
                    invariant_name: "duplicate_activation_transition",
                    subsystem: "region_runtime",
                },
            ),
            RegionActivationState::Deactivating => Err(
                DeterministicInvariantViolation {
                    invariant_name: "activation_state_regression",
                    subsystem: "region_runtime",
                },
            ),
        }
    }

    /// Transition activation state monotonically towards Inactive.
    pub fn deactivate_region(&mut self) -> (res: Result<(), DeterministicInvariantViolation>)
        ensures
            match deactivate_step(old(self).activation) {
                Ok(a) => res is Ok && *final(self) == (StructuralRegionRuntime { activation: a, ..*old(self) }),
                Err(e) => res == Err::<(), DeterministicInvariantViolation>(e) && *final(self) == *old(self),
            },
    {
        match self.activation {
            RegionActivationState::Active => {
                self.activation = RegionActivationState::Deactivating;
                Ok(())
            },
            RegionActivationState::Deactivating => {
                self.activation = RegionActivationState::Inactive;
                Ok(())
            },
            RegionActivationState::Inactive => Err(
                DeterministicInvariantViolation {
                    invariant_name: "duplicate_deactivation_transition",
                    subsystem: "region_runtime",
                },
            ),
            RegionActivationState::Activating => Err(
                DeterministicInvariantViolation {
                    invariant_name: "deactivation_state_regression",
                    subsystem: "region_runtime",
                },
            ),
        }
    }

    /// Transition residency state monotonically towards Stabilizing.
    pub fn stabilize_region(&mut self) -> (res: Result<(), DeterministicInvariantViolation>)
        ensures
            match stabilize_runtime(*old(self)) {
                Ok(r) => res is Ok && *final(self) == r,
                Err(e) => res == Err::<(), DeterministicInvariantViolation>(e) && *final(self) == *old(self),
            },
    {
        match self.residency {
            RegionResidencyState::Loading => {
                self.residency = RegionResidencyState::Resident;
                Ok(())
            },
            RegionResidencyState::Resident => {
                self.residency = RegionResidencyState::Stabilizing;
                Ok(())
            },
            RegionResidencyState::Stabilizing => Err(
                DeterministicInvariantViolation {
                    invariant_name: "duplicate_stabilization",
                    subsystem: "region_runtime",
                },
            ),
            RegionResidencyState::Evicted => Err(
                DeterministicInvariantViolation {
                    invariant_name: "stabilize_on_evicted_region",
                    subsystem: "region_runtime",
                },
            ),
        }
    }

    /// A copy of the current runtime state.
    pub fn canonical_runtime_state(&self) -> (r: Self)
        ensures
            r == *self,
    {
        *self
    }
}

/// A successful activation or stabilization step moves strictly forward in
/// declaration order and touches nothing else; deactivation steps move from
/// Active to Deactivating to Inactive.
pub proof fn lemma_transitions_monotone(r: StructuralRegionRuntime)
    ensures
        activate_runtime(r) is Ok ==> activation_rank(activate_runtime(r)->Ok_0.activation) == activation_rank(
            r.activation,
        ) + 1 && activate_runtime(r)->Ok_0.residency == r.residency && activate_runtime(r)->Ok_0.identity
            == r.identity,
        stabilize_runtime(r) is Ok ==> residency_rank(stabilize_runtime(r)->Ok_0.residency) == residency_rank(
            r.residency,
        ) + 1 && stabilize_runtime(r)->Ok_0.activation == r.activation,
        deactivate_step(r.activation) is Ok ==> (r.activation == RegionActivationState::Active
            && deactivate_step(r.activation)->Ok_0 == RegionActivationState::Deactivating) || (
        r.activation == RegionActivationState::Deactivating && deactivate_step(r.activation)->Ok_0
            == RegionActivationState::Inactive),
{
}

/// Two activations take an inactive region to Active, a third is refused,
/// and two deactivations bring it back to Inactive.
pub proof fn lemma_activation_cycle()
    ensures
        activate_step(RegionActivationState::Inactive) == Ok::<RegionActivationState, DeterministicInvariantViolation>(RegionActivationState::Activating),
        activate_step(RegionActivationState::Activating) == Ok::<RegionActivationState, DeterministicInvariantViolation>(RegionActivationState::Active),
        activate_step(RegionActivationState::Active) is Err,
        deactivate_step(RegionActivationState::Active) == Ok::<RegionActivationState, DeterministicInvariantViolation>(RegionActivationState::Deactivating),
        deactivate_step(RegionActivationState::Deactivating) == Ok::<RegionActivationState, DeterministicInvariantViolation>(RegionActivationState::Inactive),
{
}

} // verus!
