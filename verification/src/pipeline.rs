//! The canonical runtime pipeline and its execution descriptor sequences.
use vstd::prelude::*;
use crate::ordering::{CanonicalKey, lemma_radix_order, stable_sort_by_key, stable_sorted};

verus! {

#[derive(Clone, Debug, PartialEq, Eq, Copy, Structural)]
pub enum RuntimeExecutionPhase {
    TopologyExtraction,
    PropagationRealization,
    ContinuityDecay,
    ReinforcementAccumulation,
    ResonancePropagation,
    ConvergenceEvaluation,
    EmergenceRealization,
    PersistenceStabilization,
    ReplaySnapshotSealing,
}

/// A phase's position in the canonical pipeline.
pub open spec fn phase_rank(p: RuntimeExecutionPhase) -> int {
    match p {
        RuntimeExecutionPhase::TopologyExtraction => 0,
        RuntimeExecutionPhase::PropagationRealization => 1,
        RuntimeExecutionPhase::ContinuityDecay => 2,
        RuntimeExecutionPhase::ReinforcementAccumulation => 3,
        RuntimeExecutionPhase::ResonancePropagation => 4,
        RuntimeExecutionPhase::ConvergenceEvaluation => 5,
        RuntimeExecutionPhase::EmergenceRealization => 6,
        RuntimeExecutionPhase::PersistenceStabilization => 7,
        RuntimeExecutionPhase::ReplaySnapshotSealing => 8,
    }
}

impl RuntimeExecutionPhase {
    pub fn ordinal(&self) -> (r: u8)
        ensures
            r == phase_rank(*self),
    {
        match self {
            Self::TopologyExtraction => 0,
            Self::PropagationRealization => 1,
            Self::ContinuityDecay => 2,
            Self::ReinforcementAccumulation => 3,
            Self::ResonancePropagation => 4,
            Self::ConvergenceEvaluation => 5,
            Self::EmergenceRealization => 6,
            Self::PersistenceStabilization => 7,
            Self::ReplaySnapshotSealing => 8,
        }
    }
}

/// Distinct phases have distinct ordinals.
pub proof fn lemma_phase_rank_injective(a: RuntimeExecutionPhase, b: RuntimeExecutionPhase)
    ensures
        (phase_rank(a) == phase_rank(b)) == (a == b),
        0 <= phase_rank(a) < 9,
{
}

/// The canonical phase order.
pub open spec fn canonical_phases() -> Seq<RuntimeExecutionPhase> {
    seq![
        RuntimeExecutionPhase::TopologyExtraction,
        RuntimeExecutionPhase::PropagationRealization,
        RuntimeExecutionPhase::ContinuityDecay,
        RuntimeExecutionPhase::ReinforcementAccumulation,
        RuntimeExecutionPhase::ResonancePropagation,
        RuntimeExecutionPhase::ConvergenceEvaluation,
        RuntimeExecutionPhase::EmergenceRealization,
        RuntimeExecutionPhase::PersistenceStabilization,
        RuntimeExecutionPhase::ReplaySnapshotSealing,
    ]
}

/// The canonical pipeline visits every phase once, in ordinal order.
pub proof fn lemma_canonical_phases_ordered()
    ensures
        canonical_phases().len() == 9,
        forall|i: int| 0 <= i < 9 ==> phase_rank(#[trigger] canonical_phases()[i]) == i,
{
}

#[derive(Clone, Debug, PartialEq, Eq)]
pub struct CanonicalRuntimePipeline {
    phases: Vec<RuntimeExecutionPhase>,
}

impl CanonicalRuntimePipeline {
    /// The phases of this pipeline.
    pub closed spec fn phase_list(&self) -> Seq<RuntimeExecutionPhase> {
        self.phases@
    }

    /// The pipeline with every phase in canonical order.
    pub fn new() -> (p: Self)
        ensures
            p.phase_list() == canonical_phases(),
    {
        let p = Self {
            phases: vec![
                RuntimeExecutionPhase::TopologyExtraction,
                RuntimeExecutionPhase::PropagationRealization,
                RuntimeExecutionPhase::ContinuityDecay,
                RuntimeExecutionPhase::ReinforcementAccumulation,
                RuntimeExecutionPhase::ResonancePropagation,
                RuntimeExecutionPhase::ConvergenceEvaluation,
                RuntimeExecutionPhase::EmergenceRealization,
                RuntimeExecutionPhase::PersistenceStabilization,
                RuntimeExecutionPhase::ReplaySnapshotSealing,
            ],
        };
        proof {
            assert(p.phases@ =~= canonical_phases());
        }
        p
    }

    pub fn phases(&self) -> (s: &[RuntimeExecutionPhase])
        ensures
            s@ == self.phase_list(),
    {
        self.phases.as_slice()
    }
}

impl Default for CanonicalRuntimePipeline {
    fn default() -> (p: Self)
        ensures
            p.phase_list() == canonical_phases(),
    {
        Self::new()
    }
}

#[derive(Clone, Copy, Debug, PartialEq, Eq, Structural)]
pub struct RuntimePipelineExecutionDescriptor {
    pub phase: RuntimeExecutionPhase,
    pub deterministic_sequence_index: u64,
    pub originating_tick: u64,
    pub runtime_epoch: u64,
}

impl CanonicalKey for RuntimePipelineExecutionDescriptor {
    /// Ordered by sequence index, then phase ordinal.
    open spec fn canonical_key(&self) -> int {
        self.deterministic_sequence_index * 16 + phase_rank(self.phase)
    }

    fn key_less(&self, other: &Self) -> (r: bool) {
        if self.deterministic_sequence_index != other.deterministic_sequence_index {
            self.deterministic_sequence_index < other.deterministic_sequence_index
        } else {
            self.phase.ordinal() < other.phase.ordinal()
        }
    }
}

#[derive(Clone, Debug, PartialEq, Eq)]
pub struct RuntimePipelineExecutionSequence {
    descriptors: Vec<RuntimePipelineExecutionDescriptor>,
}

impl RuntimePipelineExecutionSequence {
    /// The descriptors, in their current order.
    pub closed spec fn items(&self) -> Seq<RuntimePipelineExecutionDescriptor> {
        self.descriptors@
    }

    pub fn new(descriptors: Vec<RuntimePipelineExecutionDescriptor>) -> (s: Self)
        ensures
            s.items() == descriptors@,
    {
        Self { descriptors }
    }

    /// Stable-sort by sequence index, then phase ordinal.
    pub fn stable_sort(&mut self)
        ensures
            stable_sorted(old(self).items(), final(self).items()),
    {
        stable_sort_by_key(&mut self.descriptors);
    }

    pub fn descriptors(&self) -> (s: &[RuntimePipelineExecutionDescriptor])
        ensures
            s@ == self.items(),
    {
        self.descriptors.as_slice()
    }

    pub fn len(&self) -> (n: usize)
        ensures
            n == self.items().len(),
    {
        self.descriptors.len()
    }

    pub fn is_empty(&self) -> (r: bool)
        ensures
            r == (self.items().len() == 0),
    {
        self.descriptors.len() == 0
    }
}

/// A sorted pipeline runs in ascending sequence index, and within one
/// sequence index in phase order.
pub proof fn lemma_pipeline_sorted(a: Seq<RuntimePipelineExecutionDescriptor>, b: Seq<RuntimePipelineExecutionDescriptor>)
    requires
        stable_sorted(a, b),
    ensures
        forall|i: int, j: int| 0 <= i < j < b.len() ==> b[i].deterministic_sequence_index < b[j].deterministic_sequence_index
            || (b[i].deterministic_sequence_index == b[j].deterministic_sequence_index && phase_rank(b[i].phase)
            <= phase_rank(b[j].phase)),
{
    assert forall|i: int, j: int| 0 <= i < j < b.len() implies b[i].deterministic_sequence_index
        < b[j].deterministic_sequence_index || (b[i].deterministic_sequence_index == b[j].deterministic_sequence_index
        && phase_rank(b[i].phase) <= phase_rank(b[j].phase)) by {
        assert(b[i].canonical_key() <= b[j].canonical_key());
        lemma_radix_order(
            b[i].deterministic_sequence_index as int,
            phase_rank(b[i].phase),
            b[j].deterministic_sequence_index as int,
            phase_rank(b[j].phase),
            16,
        );
    }
}

} // verus!
