//! Region transition graph and the structural world runtime.
use vstd::prelude::*;
use std::collections::BTreeMap;
use crate::invariants::{DeterministicInvariantViolation, violation};
use crate::ordering::{CanonicalKey, lemma_radix_order, stable_sort_by_key, stable_sorted};
use crate::region::{StructuralRegionId, StructuralRegionRuntime, stabilize_runtime};
use crate::residency::{StructuralResidencySequence, apply_residency};
use crate::streaming::{StructuralStreamingSequence, apply_streaming};
use crate::world_snapshot::{SpatialContinuityField, StructuralWorldSnapshot, activation_codes, continuity_of, residency_codes};

verus! {

broadcast use vstd::laws_cmp::group_laws_cmp;

#[derive(Clone, Copy, Debug, Eq, PartialEq, Ord, PartialOrd, Hash, Structural)]
pub struct StructuralRegionNode {
    pub region_id: StructuralRegionId,
}

#[derive(Clone, Copy, Debug, Eq, PartialEq, Ord, PartialOrd, Hash, Structural)]
pub struct StructuralRegionEdge {
    pub source: StructuralRegionId,
    pub target: StructuralRegionId,
}

/// A weighted transition between regions.  The weight is held as the bit
/// pattern of its double-precision value, which is how it is compared and
/// ordered.
#[derive(Clone, Copy, Debug, PartialEq, Eq, Structural)]
pub struct RegionTransitionDescriptor {
    pub source_region: StructuralRegionId,
    pub target_region: StructuralRegionId,
    pub sequence_index: u64,
    pub transition_weight_bits: u64,
    pub provenance: u64,
}

impl CanonicalKey for RegionTransitionDescriptor {
    /// Ordered by source, target, sequence index, provenance, then weight bits.
    open spec fn canonical_key(&self) -> int {
        let k = 18446744073709551616int;
        (((self.source_region.0 * k + self.target_region.0) * k + self.sequence_index) * k
            + self.provenance) * k + self.transition_weight_bits
    }

    fn key_less(&self, other: &Self) -> (r: bool) {
        if self.source_region.0 != other.source_region.0 {
            return self.source_region.0 < other.source_region.0;
        }
        if self.target_region.0 != other.target_region.0 {
            return self.target_region.0 < other.target_region.0;
        }
        if self.sequence_index != other.sequence_index {
            return self.sequence_index < other.sequence_index;
        }
        if self.provenance != other.provenance {
            return self.provenance < other.provenance;
        }
        self.transition_weight_bits < other.transition_weight_bits
    }
}

#[derive(Clone, Debug)]
pub struct StructuralRegionGraph {
    pub nodes: BTreeMap<u64, StructuralRegionNode>,
    pub transitions: Vec<RegionTransitionDescriptor>,
}

impl StructuralRegionGraph {
    pub fn new() -> (g: Self)
        ensures
            g.nodes@ == Map::<u64, StructuralRegionNode>::empty(),
            g.transitions@ == Seq::<RegionTransitionDescriptor>::empty(),
    {
        Self { nodes: BTreeMap::new(), transitions: Vec::new() }
    }

    /// Add a region node, keyed by its region id.
    pub fn add_region(&mut self, node: StructuralRegionNode)
        ensures
            final(self).nodes@ == old(self).nodes@.insert(node.region_id.0, node),
            final(self).transitions@ == old(self).transitions@,
    {
        self.nodes.insert(node.region_id.0, node);
    }

    /// Add a transition edge.
    pub fn add_transition(&mut self, transition: RegionTransitionDescriptor)
        ensures
            final(self).transitions@ == old(self).transitions@.push(transition),
            final(self).nodes@ == old(self).nodes@,
    {
        self.transitions.push(transition);
    }

    /// Sort transitions deterministically.
    pub fn stable_sort(&mut self)
        ensures
            stable_sorted(old(self).transitions@, final(self).transitions@),
            final(self).nodes@ == old(self).nodes@,
    {
        stable_sort_by_key(&mut self.transitions);
    }

    /// Canonicalize the graph.
    pub fn canonicalize(&mut self)
        ensures
            stable_sorted(old(self).transitions@, final(self).transitions@),
            final(self).nodes@ == old(self).nodes@,
    {
        self.stable_sort();
    }

    /// Transitions in their current (deterministic) order.
    pub fn deterministic_traversal_iterators(&self) -> (t: &[RegionTransitionDescriptor])
        ensures
            t@ == self.transitions@,
    {
        self.transitions.as_slice()
    }
}

impl Default for StructuralRegionGraph {
    fn default() -> (g: Self)
        ensures
            g.nodes@ == Map::<u64, StructuralRegionNode>::empty(),
            g.transitions@ == Seq::<RegionTransitionDescriptor>::empty(),
    {
        Self::new()
    }
}

/// World tick phases, in execution order.
#[derive(Clone, Copy, Debug, Eq, PartialEq, Ord, PartialOrd, Hash, Structural)]
pub enum WorldRuntimePhase {
    TopologyExtraction,
    RegionGraphConstruction,
    RegionActivation,
    ResidencyPreparation,
    StructuralStreaming,
    ContinuityPropagation,
    EmergencePropagation,
    PersistenceStabilization,
    ReplaySnapshotSealing,
}

/// The world tick phases in execution order.
pub open spec fn canonical_world_phases() -> Seq<WorldRuntimePhase> {
    seq![
        WorldRuntimePhase::TopologyExtraction,
        WorldRuntimePhase::RegionGraphConstruction,
        WorldRuntimePhase::RegionActivation,
        WorldRuntimePhase::ResidencyPreparation,
        WorldRuntimePhase::StructuralStreaming,
        WorldRuntimePhase::ContinuityPropagation,
        WorldRuntimePhase::EmergencePropagation,
        WorldRuntimePhase::PersistenceStabilization,
        WorldRuntimePhase::ReplaySnapshotSealing,
    ]
}

#[derive(Clone, Debug)]
pub struct WorldRuntimeSequence {
    pub phases: Vec<WorldRuntimePhase>,
}

impl Default for WorldRuntimeSequence {
    fn default() -> (s: Self)
        ensures
            s.phases@ == canonical_world_phases(),
    {
        let s = Self {
            phases: vec![
                WorldRuntimePhase::TopologyExtraction,
                WorldRuntimePhase::RegionGraphConstruction,
                WorldRuntimePhase::RegionActivation,
                WorldRuntimePhase::ResidencyPreparation,
                WorldRuntimePhase::StructuralStreaming,
                WorldRuntimePhase::ContinuityPropagation,
                WorldRuntimePhase::EmergencePropagation,
                WorldRuntimePhase::PersistenceStabilization,
                WorldRuntimePhase::ReplaySnapshotSealing,
            ],
        };
        proof {
            assert(s.phases@ =~= canonical_world_phases());
        }
        s
    }
}

/// Identity of a sealed world snapshot.
#[derive(Clone, Copy, Debug, Eq, PartialEq, Ord, PartialOrd, Hash, Structural)]
pub struct WorldSnapshotIdentity {
    pub world_tick: u64,
    pub continuity_epoch: u64,
    pub replay_sequence: u64,
}

/// The structural phases of a world tick before continuity propagation:
/// the topology check, then the streaming transitions.
pub open spec fn structural_phases(
    nodes_empty: bool,
    streaming: Seq<crate::streaming::StructuralStreamingDescriptor>,
    m: Map<u64, StructuralRegionRuntime>,
) -> (Map<u64, StructuralRegionRuntime>, Result<(), DeterministicInvariantViolation>) {
    if nodes_empty && !m.is_empty() {
        (m, Err(violation("empty_topology_during_execution", "world_runtime")))
    } else {
        apply_streaming(streaming, m)
    }
}

pub struct StructuralWorldRuntime {
    pub world_tick: u64,
    pub continuity_epoch: u64,
    pub replay_sequence: u64,
    pub region_graph: StructuralRegionGraph,
    pub region_runtimes: BTreeMap<u64, StructuralRegionRuntime>,
}

impl StructuralWorldRuntime {
    pub fn new() -> (w: Self)
        ensures
            w.world_tick == 0,
            w.continuity_epoch == 0,
            w.replay_sequence == 0,
            w.region_graph.nodes@ == Map::<u64, StructuralRegionNode>::empty(),
            w.region_graph.transitions@ == Seq::<RegionTransitionDescriptor>::empty(),
            w.region_runtimes@ == Map::<u64, StructuralRegionRuntime>::empty(),
    {
        Self {
            world_tick: 0,
            continuity_epoch: 0,
            replay_sequence: 0,
            region_graph: StructuralRegionGraph::new(),
            region_runtimes: BTreeMap::new(),
        }
    }

    /// Phases 1 to 5 of a world tick: refuse a topology without nodes while
    /// regions run, canonicalize the region graph, then apply the streaming
    /// sequence.  Continuity propagation follows, then `finish_world_tick`.
    pub fn begin_world_tick(
        &mut self,
        streaming_seq: &StructuralStreamingSequence,
    ) -> (res: Result<(), DeterministicInvariantViolation>)
        ensures
            (final(self).region_runtimes@, res) == structural_phases(
                old(self).region_graph.nodes@.is_empty(),
                streaming_seq.descriptors@,
                old(self).region_runtimes@,
            ),
            old(self).region_graph.nodes@.is_empty() && !old(self).region_runtimes@.is_empty()
                ==> final(self).region_graph.transitions@ == old(self).region_graph.transitions@,
            !(old(self).region_graph.nodes@.is_empty() && !old(self).region_runtimes@.is_empty())
                ==> stable_sorted(old(self).region_graph.transitions@, final(self).region_graph.transitions@),
            final(self).region_graph.nodes@ == old(self).region_graph.nodes@,
            final(self).world_tick == old(self).world_tick,
            final(self).replay_sequence == old(self).replay_sequence,
            final(self).continuity_epoch == old(self).continuity_epoch,
    {
        if self.region_graph.nodes.is_empty() && !self.region_runtimes.is_empty() {
            return Err(
                DeterministicInvariantViolation {
                    invariant_name: "empty_topology_during_execution",
                    subsystem: "world_runtime",
                },
            );
        }
        self.region_graph.canonicalize();
        streaming_seq.apply_streaming_sequence(&mut self.region_runtimes)
    }

    /// Phases 8 and 9 of a world tick: apply the residency sequence, then
    /// advance the world tick and the replay sequence and seal the
    /// snapshot of the new state with the continuity field.  A residency
    /// violation stops the tick before the counters move.
    pub fn finish_world_tick(
        &mut self,
        residency_seq: &StructuralResidencySequence,
        continuity_field: &SpatialContinuityField,
    ) -> (res: Result<StructuralWorldSnapshot, DeterministicInvariantViolation>)
        requires
            old(self).world_tick < u64::MAX,
            old(self).replay_sequence < u64::MAX,
        ensures
            final(self).region_runtimes@ == apply_residency(residency_seq.descriptors@, old(self).region_runtimes@).0,
            match apply_residency(residency_seq.descriptors@, old(self).region_runtimes@).1 {
                Err(e) => res == Err::<StructuralWorldSnapshot, DeterministicInvariantViolation>(e)
                    && final(self).world_tick == old(self).world_tick
                    && final(self).replay_sequence == old(self).replay_sequence,
                Ok(_) => final(self).world_tick == old(self).world_tick + 1
                    && final(self).replay_sequence == old(self).replay_sequence + 1
                    && (res matches Ok(s) && {
                        &&& s.identity == (WorldSnapshotIdentity {
                            world_tick: final(self).world_tick,
                            continuity_epoch: final(self).continuity_epoch,
                            replay_sequence: final(self).replay_sequence,
                        })
                        &&& s.region_snapshots@ == activation_codes(final(self).region_runtimes@)
                        &&& s.residency_snapshots@ == residency_codes(final(self).region_runtimes@)
                        &&& s.continuity_snapshots@ == continuity_of(final(self).region_runtimes@, continuity_field.values@)
                    }),
            },
            final(self).continuity_epoch == old(self).continuity_epoch,
            final(self).region_graph.nodes@ == old(self).region_graph.nodes@,
            final(self).region_graph.transitions@ == old(self).region_graph.transitions@,
    {
        let r = residency_seq.apply_residency_sequence(&mut self.region_runtimes);
        match r {
            Err(e) => Err(e),
            Ok(()) => {
                self.world_tick = self.world_tick + 1;
                self.replay_sequence = self.replay_sequence + 1;
                self.seal_world_snapshot(continuity_field)
            },
        }
    }

    /// The identity of the snapshot sealed from the current state.
    pub fn snapshot_identity(&self) -> (id: WorldSnapshotIdentity)
        ensures
            id == (WorldSnapshotIdentity {
                world_tick: self.world_tick,
                continuity_epoch: self.continuity_epoch,
                replay_sequence: self.replay_sequence,
            }),
    {
        WorldSnapshotIdentity {
            world_tick: self.world_tick,
            continuity_epoch: self.continuity_epoch,
            replay_sequence: self.replay_sequence,
        }
    }

    /// Stabilize a single region's residency.
    pub fn realize_region_runtime(
        &mut self,
        region_id: StructuralRegionId,
    ) -> (res: Result<(), DeterministicInvariantViolation>)
        ensures
            !old(self).region_runtimes@.contains_key(region_id.0) ==> res == Err::<(), DeterministicInvariantViolation>(
                violation("missing_region_runtime", "world_runtime"),
            ) && final(self).region_runtimes@ == old(self).region_runtimes@,
            old(self).region_runtimes@.contains_key(region_id.0) ==> match stabilize_runtime(
                old(self).region_runtimes@[region_id.0],
            ) {
                Ok(r) => res is Ok && final(self).region_runtimes@ == old(self).region_runtimes@.insert(
                    region_id.0,
                    r,
                ),
                Err(e) => res == Err::<(), DeterministicInvariantViolation>(e)
                    && final(self).region_runtimes@ == old(self).region_runtimes@,
            },
            final(self).world_tick == old(self).world_tick,
            final(self).replay_sequence == old(self).replay_sequence,
    {
        let found = self.region_runtimes.get(&region_id.0);
        match found {
            None => Err(
                DeterministicInvariantViolation {
                    invariant_name: "missing_region_runtime",
                    subsystem: "world_runtime",
                },
            ),
            Some(r) => {
                let mut runtime = *r;
                let res = runtime.stabilize_region();
                if res.is_err() {
                    return res;
                }
                self.region_runtimes.insert(region_id.0, runtime);
                Ok(())
            },
        }
    }
}

impl Default for StructuralWorldRuntime {
    fn default() -> (w: Self)
        ensures
            w.world_tick == 0,
            w.region_runtimes@ == Map::<u64, StructuralRegionRuntime>::empty(),
    {
        Self::new()
    }
}

/// `x` may come before `y` in canonical order: compared by source region,
/// then target region, then sequence index, then provenance, then weight
/// bits, the first field that differs decides.
pub open spec fn transition_in_order(x: RegionTransitionDescriptor, y: RegionTransitionDescriptor) -> bool {
    if x.source_region.0 != y.source_region.0 {
        x.source_region.0 < y.source_region.0
    } else if x.target_region.0 != y.target_region.0 {
        x.target_region.0 < y.target_region.0
    } else if x.sequence_index != y.sequence_index {
        x.sequence_index < y.sequence_index
    } else if x.provenance != y.provenance {
        x.provenance < y.provenance
    } else {
        x.transition_weight_bits <= y.transition_weight_bits
    }
}

/// Sorted region transitions run in ascending source region, then target
/// region, then sequence index, then provenance, then weight bits.
pub proof fn lemma_transitions_sorted(a: Seq<RegionTransitionDescriptor>, b: Seq<RegionTransitionDescriptor>)
    requires
        stable_sorted(a, b),
    ensures
        forall|i: int, j: int| 0 <= i < j < b.len() ==> transition_in_order(#[trigger] b[i], #[trigger] b[j]),
{
    let k = 18446744073709551616int;
    assert forall|i: int, j: int| 0 <= i < j < b.len() implies transition_in_order(#[trigger] b[i], #[trigger] b[j]) by {
        let x = b[i];
        let y = b[j];
        assert(x.canonical_key() <= y.canonical_key());
        let x1 = x.source_region.0 as int * k + x.target_region.0 as int;
        let y1 = y.source_region.0 as int * k + y.target_region.0 as int;
        let x2 = x1 * k + x.sequence_index as int;
        let y2 = y1 * k + y.sequence_index as int;
        let x3 = x2 * k + x.provenance as int;
        let y3 = y2 * k + y.provenance as int;
        lemma_radix_order(x3, x.transition_weight_bits as int, y3, y.transition_weight_bits as int, k);
        lemma_radix_order(x2, x.provenance as int, y2, y.provenance as int, k);
        lemma_radix_order(x1, x.sequence_index as int, y1, y.sequence_index as int, k);
        lemma_radix_order(x.source_region.0 as int, x.target_region.0 as int, y.source_region.0 as int, y.target_region.0 as int, k);
    }
}

} // verus!
