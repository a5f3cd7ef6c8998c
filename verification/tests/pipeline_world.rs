use std::collections::BTreeMap;
use mirage_kernel::world_snapshot::SpatialContinuityField;
use mirage_kernel::pipeline::{
    CanonicalRuntimePipeline, RuntimeExecutionPhase, RuntimePipelineExecutionDescriptor,
    RuntimePipelineExecutionSequence,
};
use mirage_kernel::region::{
    RegionActivationState, RegionResidencyState, RegionRuntimeIdentity, StructuralRegionGeneration,
    StructuralRegionId, StructuralRegionRuntime, RegionStreamingState,
};
use mirage_kernel::residency::{ResidencyStabilizationState, StructuralResidencyDescriptor, StructuralResidencySequence};
use mirage_kernel::streaming::{StreamingPhase, StructuralStreamingDescriptor, StructuralStreamingSequence};
use mirage_kernel::world::{
    RegionTransitionDescriptor, StructuralRegionGraph, StructuralRegionNode, StructuralWorldRuntime,
    WorldRuntimePhase, WorldRuntimeSequence,
};

#[test]
fn canonical_phase_ordering() {
    let pipeline = CanonicalRuntimePipeline::new();
    let expected = [
        RuntimeExecutionPhase::TopologyExtraction,
        RuntimeExecutionPhase::PropagationRealization,
        RuntimeExecutionPhase::ContinuityDecay,
        RuntimeExecutionPhase::ReinforcementAccumulation,
        RuntimeExecutionPhase::ResonancePropagation,
        RuntimeExecutionPhase::ConvergenceEvaluation,
        RuntimeExecutionPhase::EmergenceRealization,
        RuntimeExecutionPhase::PersistenceStabilization,
        RuntimeExecutionPhase::ReplaySnapshotSealing,
    ];
    assert_eq!(pipeline.phases(), &expected[..]);
}

#[test]
fn phase_sort_stability() {
    let mut seq = RuntimePipelineExecutionSequence::new(vec![
        RuntimePipelineExecutionDescriptor {
            phase: RuntimeExecutionPhase::ResonancePropagation,
            deterministic_sequence_index: 2,
            originating_tick: 10,
            runtime_epoch: 1,
        },
        RuntimePipelineExecutionDescriptor {
            phase: RuntimeExecutionPhase::TopologyExtraction,
            deterministic_sequence_index: 2,
            originating_tick: 10,
            runtime_epoch: 1,
        },
        RuntimePipelineExecutionDescriptor {
            phase: RuntimeExecutionPhase::ContinuityDecay,
            deterministic_sequence_index: 1,
            originating_tick: 10,
            runtime_epoch: 1,
        },
    ]);
    seq.stable_sort();
    let desc = seq.descriptors();
    assert_eq!(desc[0].deterministic_sequence_index, 1);
    assert_eq!(desc[1].deterministic_sequence_index, 2);
    assert_eq!(desc[1].phase, RuntimeExecutionPhase::TopologyExtraction);
    assert_eq!(desc[2].deterministic_sequence_index, 2);
    assert_eq!(desc[2].phase, RuntimeExecutionPhase::ResonancePropagation);
}

#[test]
fn deterministic_pipeline_equality() {
    let pipeline1 = CanonicalRuntimePipeline::new();
    let pipeline2 = CanonicalRuntimePipeline::new();
    assert_eq!(pipeline1, pipeline2);
}

#[test]
fn replay_equivalent_pipeline_sequences() {
    let seq1 = RuntimePipelineExecutionSequence::new(vec![RuntimePipelineExecutionDescriptor {
        phase: RuntimeExecutionPhase::ContinuityDecay,
        deterministic_sequence_index: 0,
        originating_tick: 42,
        runtime_epoch: 2,
    }]);
    let seq2 = RuntimePipelineExecutionSequence::new(vec![RuntimePipelineExecutionDescriptor {
        phase: RuntimeExecutionPhase::ContinuityDecay,
        deterministic_sequence_index: 0,
        originating_tick: 42,
        runtime_epoch: 2,
    }]);
    assert_eq!(seq1, seq2);
}

#[test]
fn equal_keys_keep_their_order() {
    // Same sequence index and phase: original order must be kept.
    let d = |tick: u64| RuntimePipelineExecutionDescriptor {
        phase: RuntimeExecutionPhase::ContinuityDecay,
        deterministic_sequence_index: 3,
        originating_tick: tick,
        runtime_epoch: 0,
    };
    let mut seq = RuntimePipelineExecutionSequence::new(vec![d(9), d(1), d(5)]);
    seq.stable_sort();
    let ticks: Vec<u64> = seq.descriptors().iter().map(|x| x.originating_tick).collect();
    assert_eq!(ticks, vec![9, 1, 5]);
    assert_eq!(seq.len(), 3);
    assert!(!seq.is_empty());
    assert_eq!(RuntimeExecutionPhase::ReplaySnapshotSealing.ordinal(), 8);
    assert_eq!(RuntimeExecutionPhase::TopologyExtraction.ordinal(), 0);
}

#[test]
fn deterministic_region_ordering() {
    let r1 = StructuralRegionId(10);
    let r2 = StructuralRegionId(5);
    let mut list = vec![r1, r2];
    list.sort();
    assert_eq!(list[0], r2);
    assert_eq!(list[1], r1);
}

#[test]
fn stable_region_graph_sorting() {
    let mut graph = StructuralRegionGraph::new();
    graph.add_transition(RegionTransitionDescriptor {
        source_region: StructuralRegionId(2),
        target_region: StructuralRegionId(10),
        sequence_index: 5,
        transition_weight_bits: 1.0f64.to_bits(),
        provenance: 0,
    });
    graph.add_transition(RegionTransitionDescriptor {
        source_region: StructuralRegionId(1),
        target_region: StructuralRegionId(5),
        sequence_index: 2,
        transition_weight_bits: 0.5f64.to_bits(),
        provenance: 0,
    });
    graph.canonicalize();
    let transitions = graph.deterministic_traversal_iterators().iter().collect::<Vec<_>>();
    assert_eq!(transitions[0].source_region, StructuralRegionId(1));
    assert_eq!(transitions[1].source_region, StructuralRegionId(2));
}

#[test]
fn replay_safe_region_activation() {
    let id = RegionRuntimeIdentity::new(StructuralRegionId(1), StructuralRegionGeneration(1), 0, 0, 0);
    let mut runtime = StructuralRegionRuntime::new(id);
    assert_eq!(runtime.activation, RegionActivationState::Inactive);
    assert!(runtime.activate_region().is_ok());
    assert_eq!(runtime.activation, RegionActivationState::Activating);
    assert!(runtime.activate_region().is_ok());
    assert_eq!(runtime.activation, RegionActivationState::Active);
    assert!(runtime.activate_region().is_err());
}

#[test]
fn activation_cycle_and_refusals() {
    let id = RegionRuntimeIdentity::new(StructuralRegionId(3), StructuralRegionGeneration(2), 1, 2, 3);
    let mut rt = StructuralRegionRuntime::new(id);
    let e = rt.deactivate_region().unwrap_err();
    assert_eq!(e.invariant_name, "duplicate_deactivation_transition");
    rt.activate_region().unwrap();
    assert_eq!(rt.deactivate_region().unwrap_err().invariant_name, "deactivation_state_regression");
    rt.activate_region().unwrap();
    assert_eq!(rt.activate_region().unwrap_err().invariant_name, "duplicate_activation_transition");
    rt.deactivate_region().unwrap();
    assert_eq!(rt.activation, RegionActivationState::Deactivating);
    assert_eq!(rt.activate_region().unwrap_err().invariant_name, "activation_state_regression");
    rt.deactivate_region().unwrap();
    assert_eq!(rt.activation, RegionActivationState::Inactive);
    assert_eq!(rt.canonical_runtime_state(), rt);
}

#[test]
fn stabilization_path() {
    let id = RegionRuntimeIdentity::new(StructuralRegionId(1), StructuralRegionGeneration(1), 0, 0, 0);
    let mut rt = StructuralRegionRuntime::new(id);
    let e = rt.stabilize_region().unwrap_err();
    assert_eq!((e.invariant_name, e.subsystem), ("stabilize_on_evicted_region", "region_runtime"));
    rt.residency = RegionResidencyState::Loading;
    rt.stabilize_region().unwrap();
    assert_eq!(rt.residency, RegionResidencyState::Resident);
    rt.stabilize_region().unwrap();
    assert_eq!(rt.residency, RegionResidencyState::Stabilizing);
    assert_eq!(rt.stabilize_region().unwrap_err().invariant_name, "duplicate_stabilization");
}

#[test]
fn deterministic_streaming_sequence() {
    let id = RegionRuntimeIdentity::new(StructuralRegionId(1), StructuralRegionGeneration(1), 0, 0, 0);
    let runtime = StructuralRegionRuntime::new(id);
    let mut runtimes = BTreeMap::new();
    runtimes.insert(1u64, runtime);
    let seq = StructuralStreamingSequence::new(vec![
        StructuralStreamingDescriptor {
            region_id: StructuralRegionId(1),
            phase: StreamingPhase::RegionActivation,
            sequence_index: 0,
            target_residency: RegionResidencyState::Evicted,
        },
        StructuralStreamingDescriptor {
            region_id: StructuralRegionId(1),
            phase: StreamingPhase::ResidencyPreparation,
            sequence_index: 1,
            target_residency: RegionResidencyState::Evicted,
        },
    ]);
    assert!(seq.apply_streaming_sequence(&mut runtimes).is_ok());
    let rt = runtimes.get(&1).unwrap();
    assert_eq!(rt.activation, RegionActivationState::Activating);
    assert_eq!(rt.residency, RegionResidencyState::Loading);
}

#[test]
fn streaming_phases_and_missing_region() {
    let id = RegionRuntimeIdentity::new(StructuralRegionId(4), StructuralRegionGeneration(1), 0, 0, 0);
    let mut runtimes = BTreeMap::new();
    runtimes.insert(4u64, StructuralRegionRuntime::new(id));
    let d = |phase, target| StructuralStreamingDescriptor {
        region_id: StructuralRegionId(4),
        phase,
        sequence_index: 0,
        target_residency: target,
    };
    let seq = StructuralStreamingSequence::new(vec![
        d(StreamingPhase::StructuralStreaming, RegionResidencyState::Resident),
        d(StreamingPhase::ContinuityPropagation, RegionResidencyState::Evicted),
        d(StreamingPhase::Stabilization, RegionResidencyState::Evicted),
        d(StreamingPhase::SnapshotSealing, RegionResidencyState::Evicted),
    ]);
    assert!(seq.apply_streaming_sequence(&mut runtimes).is_ok());
    let rt = runtimes[&4];
    assert_eq!(rt.streaming, RegionStreamingState::Completed);
    assert_eq!(rt.residency, RegionResidencyState::Stabilizing);
    // A second stabilization is refused and stops the sequence.
    let seq2 = StructuralStreamingSequence::new(vec![
        d(StreamingPhase::Stabilization, RegionResidencyState::Evicted),
        d(StreamingPhase::RegionActivation, RegionResidencyState::Evicted),
    ]);
    let e = seq2.apply_streaming_sequence(&mut runtimes).unwrap_err();
    assert_eq!(e.invariant_name, "duplicate_stabilization");
    assert_eq!(runtimes[&4].activation, RegionActivationState::Inactive);
    let missing = StructuralStreamingSequence::new(vec![StructuralStreamingDescriptor {
        region_id: StructuralRegionId(99),
        phase: StreamingPhase::SnapshotSealing,
        sequence_index: 0,
        target_residency: RegionResidencyState::Evicted,
    }]);
    let e = missing.apply_streaming_sequence(&mut runtimes).unwrap_err();
    assert_eq!((e.invariant_name, e.subsystem), ("missing_streaming_region", "streaming_pipeline"));
}

#[test]
fn residency_transition_stability() {
    let id = RegionRuntimeIdentity::new(StructuralRegionId(1), StructuralRegionGeneration(1), 0, 0, 0);
    let mut runtime = StructuralRegionRuntime::new(id);
    runtime.residency = RegionResidencyState::Resident;
    let mut runtimes = BTreeMap::new();
    runtimes.insert(1u64, runtime);
    let seq = StructuralResidencySequence::new(vec![StructuralResidencyDescriptor {
        region_id: StructuralRegionId(1),
        target_state: RegionResidencyState::Evicted,
        stabilization: ResidencyStabilizationState::Unstable,
        sequence_index: 0,
    }]);
    assert!(seq.apply_residency_sequence(&mut runtimes).is_err());
}

#[test]
fn residency_stable_request_stabilizes_and_sorts() {
    let id = RegionRuntimeIdentity::new(StructuralRegionId(2), StructuralRegionGeneration(1), 0, 0, 0);
    let mut runtimes = BTreeMap::new();
    runtimes.insert(2u64, StructuralRegionRuntime::new(id));
    let mut seq = StructuralResidencySequence::new(vec![
        StructuralResidencyDescriptor {
            region_id: StructuralRegionId(2),
            target_state: RegionResidencyState::Resident,
            stabilization: ResidencyStabilizationState::Stable,
            sequence_index: 5,
        },
        StructuralResidencyDescriptor {
            region_id: StructuralRegionId(2),
            target_state: RegionResidencyState::Loading,
            stabilization: ResidencyStabilizationState::Unstable,
            sequence_index: 1,
        },
    ]);
    seq.canonicalize();
    assert_eq!(seq.descriptors[0].sequence_index, 1);
    assert!(seq.apply_residency_sequence(&mut runtimes).is_ok());
    assert_eq!(runtimes[&2].residency, RegionResidencyState::Stabilizing);
}

#[test]
fn canonical_world_tick_order() {
    let seq = WorldRuntimeSequence::default();
    assert_eq!(seq.phases.len(), 9);
    assert_eq!(seq.phases[0], WorldRuntimePhase::TopologyExtraction);
    assert_eq!(seq.phases[8], WorldRuntimePhase::ReplaySnapshotSealing);
}

#[test]
fn world_tick_structural_phases() {
    let mut world = StructuralWorldRuntime::new();
    let rid = StructuralRegionId(1);
    let identity = RegionRuntimeIdentity::new(rid, StructuralRegionGeneration(1), 0, 0, 0);
    world.region_runtimes.insert(1, StructuralRegionRuntime::new(identity));
    let streaming = StructuralStreamingSequence::new(vec![StructuralStreamingDescriptor {
        region_id: rid,
        phase: StreamingPhase::RegionActivation,
        sequence_index: 0,
        target_residency: RegionResidencyState::Loading,
    }]);
    // No topology nodes while regions run: refused.
    let e = world.begin_world_tick(&streaming).unwrap_err();
    assert_eq!(e.invariant_name, "empty_topology_during_execution");
    world.region_graph.add_region(StructuralRegionNode { region_id: rid });
    world.begin_world_tick(&streaming).unwrap();
    let snap = world.finish_world_tick(&StructuralResidencySequence::new(vec![]), &SpatialContinuityField::new()).unwrap();
    assert_eq!(snap.identity.world_tick, 1);
    assert_eq!(snap.identity.replay_sequence, 1);
    assert_eq!(snap.region_snapshots.get(&1), Some(&1));
    assert_eq!(snap.residency_snapshots.get(&1), Some(&0));
    assert!(snap.continuity_snapshots.is_empty());
    assert_eq!(world.world_tick, 1);
    assert_eq!(world.replay_sequence, 1);
    assert_eq!(world.region_runtimes[&1].activation, RegionActivationState::Activating);
    let id = world.snapshot_identity();
    assert_eq!((id.world_tick, id.continuity_epoch, id.replay_sequence), (1, 0, 1));
    let e = world.realize_region_runtime(rid).unwrap_err();
    assert_eq!(e.invariant_name, "stabilize_on_evicted_region");
    let e = world.realize_region_runtime(StructuralRegionId(7)).unwrap_err();
    assert_eq!(e.invariant_name, "missing_region_runtime");
}

#[test]
fn replay_equivalent_world_ticks_match_snapshots() {
    let make = || {
        let mut w = StructuralWorldRuntime::new();
        let rid = StructuralRegionId(1);
        w.region_graph.add_region(StructuralRegionNode { region_id: rid });
        let identity = RegionRuntimeIdentity::new(rid, StructuralRegionGeneration(1), 0, 0, 0);
        w.region_runtimes.insert(1, StructuralRegionRuntime::new(identity));
        w
    };
    let streaming = StructuralStreamingSequence::new(vec![StructuralStreamingDescriptor {
        region_id: StructuralRegionId(1),
        phase: StreamingPhase::RegionActivation,
        sequence_index: 0,
        target_residency: RegionResidencyState::Loading,
    }]);
    let residency = StructuralResidencySequence::new(vec![]);
    let field = SpatialContinuityField::new();
    let mut a = make();
    let mut b = make();
    a.begin_world_tick(&streaming).unwrap();
    b.begin_world_tick(&streaming).unwrap();
    let snap_a = a.finish_world_tick(&residency, &field).unwrap();
    let snap_b = b.finish_world_tick(&residency, &field).unwrap();
    assert!(snap_a.validate_equivalence(&snap_b).is_ok());
}
