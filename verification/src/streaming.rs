//! Structural streaming activation and transitions.
use vstd::prelude::*;
use std::collections::BTreeMap;
use crate::invariants::{DeterministicInvariantViolation, violation};
use crate::ordering::{CanonicalKey, lemma_radix_order, stable_sort_by_key, stable_sorted};
use crate::region::{
    StructuralRegionId, StructuralRegionRuntime, RegionResidencyState, RegionStreamingState,
    residency_rank, residency_ordinal, activate_runtime, stabilize_runtime,
};

verus! {

broadcast use vstd::laws_cmp::group_laws_cmp;

/// Streaming phases, in the order of their ordinals 1 to 6.
#[derive(Clone, Copy, Debug, Eq, PartialEq, Ord, PartialOrd, Hash, Structural)]
pub enum StreamingPhase {
    RegionActivation,
    ResidencyPreparation,
    StructuralStreaming,
    ContinuityPropagation,
    Stabilization,
    SnapshotSealing,
}

/// A streaming phase's ordinal.
pub open spec fn streaming_phase_rank(p: StreamingPhase) -> int {
    match p {
        StreamingPhase::RegionActivation => 1,
        StreamingPhase::ResidencyPreparation => 2,
        StreamingPhase::StructuralStreaming => 3,
        StreamingPhase::ContinuityPropagation => 4,
        StreamingPhase::Stabilization => 5,
        StreamingPhase::SnapshotSealing => 6,
    }
}

impl StreamingPhase {
    /// The phase's ordinal (1 to 6).
    pub fn ordinal(&self) -> (r: u8)
        ensures
            r == streaming_phase_rank(*self),
    {
        match self {
            StreamingPhase::RegionActivation => 1,
            StreamingPhase::ResidencyPreparation => 2,
            StreamingPhase::StructuralStreaming => 3,
            StreamingPhase::ContinuityPropagation => 4,
            StreamingPhase::Stabilization => 5,
            StreamingPhase::SnapshotSealing => 6,
        }
    }
}

#[derive(Clone, Copy, Debug, PartialEq, Eq, Structural)]
pub struct StructuralStreamingDescriptor {
    pub region_id: StructuralRegionId,
    pub phase: StreamingPhase,
    pub sequence_index: u64,
    pub target_residency: RegionResidencyState,
}

impl CanonicalKey for StructuralStreamingDescriptor {
    /// Ordered by sequence index, region, phase, then target residency.
    open spec fn canonical_key(&self) -> int {
        ((self.sequence_index * 18446744073709551616 + self.region_id.0) * 8 + streaming_phase_rank(
            self.phase,
        )) * 4 + residency_rank(self.target_residency)
    }

    fn key_less(&self, other: &Self) -> (r: bool) {
        if self.sequence_index != other.sequence_index {
            return self.sequence_index < other.sequence_index;
        }
        if self.region_id.0 != other.region_id.0 {
            return self.region_id.0 < other.region_id.0;
        }
        let a = self.phase.ordinal();
        let b = other.phase.ordinal();
        if a != b {
            return a < b;
        }
        residency_ordinal(self.target_residency) < residency_ordinal(other.target_residency)
    }
}

/// The runtime after one streaming descriptor's phase, or the violation.
pub open spec fn streaming_effect(
    d: StructuralStreamingDescriptor,
    r: StructuralRegionRuntime,
) -> Result<StructuralRegionRuntime, DeterministicInvariantViolation> {
    match d.phase {
        StreamingPhase::RegionActivation => activate_runtime(r),
        StreamingPhase::ResidencyPreparation => Ok(
            if r.residency == RegionResidencyState::Evicted {
                StructuralRegionRuntime { residency: RegionResidencyState::Loading, ..r }
            } else {
                r
            },
        ),
        StreamingPhase::StructuralStreaming => Ok(
            StructuralRegionRuntime {
                streaming: RegionStreamingState::Streaming,
                residency: d.target_residency,
                ..r
            },
        ),
        StreamingPhase::ContinuityPropagation => Ok(
            StructuralRegionRuntime { streaming: RegionStreamingState::Completed, ..r },
        ),
        StreamingPhase::Stabilization => stabilize_runtime(r),
        StreamingPhase::SnapshotSealing => Ok(r),
    }
}

/// One streaming transition against the runtime map, or the violation.
pub open spec fn streaming_transition(
    d: StructuralStreamingDescriptor,
    m: Map<u64, StructuralRegionRuntime>,
) -> Result<Map<u64, StructuralRegionRuntime>, DeterministicInvariantViolation> {
    if !m.contains_key(d.region_id.0) {
        Err(violation("missing_streaming_region", "streaming_pipeline"))
    } else {
        match streaming_effect(d, m[d.region_id.0]) {
            Ok(r2) => Ok(m.insert(d.region_id.0, r2)),
            Err(e) => Err(e),
        }
    }
}

/// Apply transitions in order, stopping at the first violation: the map as
/// left at that point, and the outcome.
pub open spec fn apply_streaming(
    ds: Seq<StructuralStreamingDescriptor>,
    m: Map<u64, StructuralRegionRuntime>,
) -> (Map<u64, StructuralRegionRuntime>, Result<(), DeterministicInvariantViolation>)
    decreases ds.len(),
{
    if ds.len() == 0 {
        (m, Ok(()))
    } else {
        match streaming_transition(ds[0], m) {
            Err(e) => (m, Err(e)),
            Ok(m2) => apply_streaming(ds.drop_first(), m2),
        }
    }
}

#[derive(Clone, Debug)]
pub struct StructuralStreamingSequence {
    pub descriptors: Vec<StructuralStreamingDescriptor>,
}

impl StructuralStreamingSequence {
    pub fn new(descriptors: Vec<StructuralStreamingDescriptor>) -> (s: Self)
        ensures
            s.descriptors@ == descriptors@,
    {
        Self { descriptors }
    }

    /// Sort descriptors deterministically.
    pub fn stable_sort(&mut self)
        ensures
            stable_sorted(old(self).descriptors@, final(self).descriptors@),
    {
        stable_sort_by_key(&mut self.descriptors);
    }

    /// Canonicalize the streaming sequence.
    pub fn canonicalize(&mut self)
        ensures
            stable_sorted(old(self).descriptors@, final(self).descriptors@),
    {
        self.stable_sort();
    }

    /// Apply streaming transitions sequentially; a violation stops the
    /// sequence and leaves the earlier transitions applied.
    pub fn apply_streaming_sequence(
        &self,
        runtimes: &mut BTreeMap<u64, StructuralRegionRuntime>,
    ) -> (res: Result<(), DeterministicInvariantViolation>)
        ensures
            (final(runtimes)@, res) == apply_streaming(self.descriptors@, old(runtimes)@),
    {
        let n = self.descriptors.len();
        let mut i: usize = 0;
        proof {
            assert(self.descriptors@.skip(0) =~= self.descriptors@);
        }
        while i < n
            invariant
                n == self.descriptors@.len(),
                i <= n,
                apply_streaming(self.descriptors@.skip(i as int), runtimes@) == apply_streaming(
                    self.descriptors@,
                    old(runtimes)@,
                ),
            decreases n - i,
        {
            let desc = self.descriptors[i];
            let ghost rest = self.descriptors@.skip(i as int);
            proof {
                assert(rest[0] == desc);
                assert(rest.drop_first() =~= self.descriptors@.skip(i + 1));
            }
            let key = desc.region_id.0;
            let found = runtimes.get(&key);
            match found {
                None => {
                    return Err(
                        DeterministicInvariantViolation {
                            invariant_name: "missing_streaming_region",
                            subsystem: "streaming_pipeline",
                        },
                    );
                },
                Some(r) => {
                    let mut runtime = *r;
                    match desc.phase {
                        StreamingPhase::RegionActivation => {
                            let res = runtime.activate_region();
                            if let Err(e) = res {
                                return Err(e);
                            }
                        },
                        StreamingPhase::ResidencyPreparation => {
                            if runtime.residency == RegionResidencyState::Evicted {
                                runtime.residency = RegionResidencyState::Loading;
                            }
                        },
                        StreamingPhase::StructuralStreaming => {
                            runtime.streaming = RegionStreamingState::Streaming;
                            runtime.residency = desc.target_residency;
                        },
                        StreamingPhase::ContinuityPropagation => {
                            runtime.streaming = RegionStreamingState::Completed;
                        },
                        StreamingPhase::Stabilization => {
                            let res = runtime.stabilize_region();
                            if let Err(e) = res {
                                return Err(e);
                            }
                        },
                        StreamingPhase::SnapshotSealing => {},
                    }
                    runtimes.insert(key, runtime);
                },
            }
            i = i + 1;
        }
        proof {
            assert(self.descriptors@.skip(n as int).len() == 0);
        }
        Ok(())
    }
}

/// Applying a streaming sequence stops at the first refused step.  When the
/// steps before position `k` all succeed and step `k` names a region that is
/// not in the map, or its phase is refused for that region, the sequence
/// ends with that violation, and the map is left as the earlier steps left
/// it.
pub proof fn lemma_streaming_stops_at_violation(
    ds: Seq<StructuralStreamingDescriptor>,
    m: Map<u64, StructuralRegionRuntime>,
    k: int,
)
    requires
        0 <= k < ds.len(),
        apply_streaming(ds.take(k), m).1 == Ok::<(), DeterministicInvariantViolation>(()),
    ensures
        !apply_streaming(ds.take(k), m).0.contains_key(ds[k].region_id.0) ==> apply_streaming(ds, m) == (
            apply_streaming(ds.take(k), m).0,
            Err::<(), DeterministicInvariantViolation>(violation("missing_streaming_region", "streaming_pipeline")),
        ),
        apply_streaming(ds.take(k), m).0.contains_key(ds[k].region_id.0) && streaming_effect(
            ds[k],
            apply_streaming(ds.take(k), m).0[ds[k].region_id.0],
        ) is Err ==> apply_streaming(ds, m) == (
            apply_streaming(ds.take(k), m).0,
            Err::<(), DeterministicInvariantViolation>(
                streaming_effect(ds[k], apply_streaming(ds.take(k), m).0[ds[k].region_id.0])->Err_0,
            ),
        ),
    decreases k,
{
    if k == 0 {
        assert(ds.take(0) =~= Seq::<StructuralStreamingDescriptor>::empty());
    } else {
        let t = ds.take(k);
        assert(t[0] == ds[0]);
        match streaming_transition(ds[0], m) {
            Err(e) => {
                assert(apply_streaming(t, m).1 is Err);
            },
            Ok(m2) => {
                let rest = ds.drop_first();
                assert(t.drop_first() =~= rest.take(k - 1));
                assert(rest[k - 1] == ds[k]);
                lemma_streaming_stops_at_violation(rest, m2, k - 1);
            },
        }
    }
}

/// A successful streaming step touches only the named region and never its
/// identity; structural streaming marks it streaming at the target
/// residency, continuity propagation marks its streaming completed, and
/// snapshot sealing leaves it as it was.
pub proof fn lemma_streaming_step(d: StructuralStreamingDescriptor, m: Map<u64, StructuralRegionRuntime>)
    requires
        streaming_transition(d, m) is Ok,
    ensures
        m.contains_key(d.region_id.0),
        streaming_transition(d, m)->Ok_0.dom() == m.dom(),
        forall|id: u64| #[trigger] m.contains_key(id) && id != d.region_id.0 ==> streaming_transition(d, m)->Ok_0[id]
            == m[id],
        streaming_transition(d, m)->Ok_0[d.region_id.0].identity == m[d.region_id.0].identity,
        d.phase == StreamingPhase::StructuralStreaming ==> streaming_transition(d, m)->Ok_0[d.region_id.0].streaming
            == RegionStreamingState::Streaming && streaming_transition(d, m)->Ok_0[d.region_id.0].residency
            == d.target_residency,
        d.phase == StreamingPhase::ContinuityPropagation ==> streaming_transition(d, m)->Ok_0[d.region_id.0].streaming
            == RegionStreamingState::Completed,
        d.phase == StreamingPhase::SnapshotSealing ==> streaming_transition(d, m)->Ok_0 == m,
{
    let m2 = streaming_transition(d, m)->Ok_0;
    assert(m2.dom() =~= m.dom());
    if d.phase == StreamingPhase::SnapshotSealing {
        assert(m2 =~= m);
    }
}

/// A sorted streaming sequence runs in ascending sequence index, then
/// region, then phase, then target residency (each in its declaration
/// order).
pub proof fn lemma_streaming_sorted(a: Seq<StructuralStreamingDescriptor>, b: Seq<StructuralStreamingDescriptor>)
    requires
        stable_sorted(a, b),
    ensures
        forall|i: int, j: int| 0 <= i < j < b.len() ==> b[i].sequence_index < b[j].sequence_index || (
        b[i].sequence_index == b[j].sequence_index && (b[i].region_id.0 < b[j].region_id.0 || (
        b[i].region_id.0 == b[j].region_id.0 && (streaming_phase_rank(b[i].phase) < streaming_phase_rank(
            b[j].phase,
        ) || (b[i].phase == b[j].phase && residency_rank(b[i].target_residency) <= residency_rank(
            b[j].target_residency,
        )))))),
{
    let k = 18446744073709551616int;
    assert forall|i: int, j: int| 0 <= i < j < b.len() implies b[i].sequence_index < b[j].sequence_index || (
    b[i].sequence_index == b[j].sequence_index && (b[i].region_id.0 < b[j].region_id.0 || (
    b[i].region_id.0 == b[j].region_id.0 && (streaming_phase_rank(b[i].phase) < streaming_phase_rank(
        b[j].phase,
    ) || (b[i].phase == b[j].phase && residency_rank(b[i].target_residency) <= residency_rank(
        b[j].target_residency,
    )))))) by {
        let x = b[i];
        let y = b[j];
        assert(x.canonical_key() <= y.canonical_key());
        let hx = (x.sequence_index as int * k + x.region_id.0 as int) * 8 + streaming_phase_rank(x.phase);
        let hy = (y.sequence_index as int * k + y.region_id.0 as int) * 8 + streaming_phase_rank(y.phase);
        lemma_radix_order(hx, residency_rank(x.target_residency), hy, residency_rank(y.target_residency), 4);
        lemma_radix_order(
            x.sequence_index as int * k + x.region_id.0 as int,
            streaming_phase_rank(x.phase),
            y.sequence_index as int * k + y.region_id.0 as int,
            streaming_phase_rank(y.phase),
            8,
        );
        lemma_radix_order(x.sequence_index as int, x.region_id.0 as int, y.sequence_index as int, y.region_id.0 as int, k);
    }
}

} // verus!
