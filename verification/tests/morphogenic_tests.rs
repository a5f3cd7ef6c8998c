use mirage_kernel::morphogenic::{
    MorphogenicLane, MorphogenicRealizationSequence, ResonancePropagationDescriptor,
    ResonancePropagationSequence, SpatialContinuityPropagationDescriptor,
    SpatialContinuitySequence, StructuralPropagationDescriptor, StructuralPropagationSequence,
    StructuralState,
};
use mirage_kernel::replay::{EmergenceProvenance, MorphogenicLaneId, StructuralProvenance};

fn b(x: f32) -> u32 {
    x.to_bits()
}

fn zero_provenance() -> EmergenceProvenance {
    EmergenceProvenance { originating_tick: 0, continuity_epoch: 0, resonance_sequence_index: 0, topology_generation: 0 }
}

#[test]
fn resonance_sequence_sorting() {
    let mut s = ResonancePropagationSequence::new();
    s.descriptors.push(ResonancePropagationDescriptor { sequence_index: 2, target_index: 1, weight: b(0.5), provenance: zero_provenance() });
    s.descriptors.push(ResonancePropagationDescriptor { sequence_index: 1, target_index: 2, weight: b(0.5), provenance: zero_provenance() });
    s.stable_sort();
    assert_eq!(s.descriptors[0].sequence_index, 1);
}

#[test]
fn propagation_sequence_order_is_insertion_independent() {
    let d1 = StructuralPropagationDescriptor {
        lane_id: MorphogenicLaneId(0x0001_0002),
        deterministic_sequence_index: 1,
        provenance: StructuralProvenance::new(10, 1, 1, 100),
        target_node: 2,
        reinforcement_weight: b(0.4),
    };
    let d2 = StructuralPropagationDescriptor {
        lane_id: MorphogenicLaneId(0x0001_0003),
        deterministic_sequence_index: 0,
        provenance: StructuralProvenance::new(10, 1, 0, 100),
        target_node: 2,
        reinforcement_weight: b(0.6),
    };
    let d3 = StructuralPropagationDescriptor { lane_id: MorphogenicLaneId(1), ..d1 };
    let a = StructuralPropagationSequence::from_descriptors(vec![d1, d2, d3]);
    let c = StructuralPropagationSequence::from_descriptors(vec![d3, d2, d1]);
    assert_eq!(a, c);
    let lanes: Vec<u64> = a.descriptors.iter().map(|d| d.lane_id.0).collect();
    assert_eq!(lanes, vec![0x0001_0003, 1, 0x0001_0002]);
    assert_eq!(a.len(), 3);
    assert!(!a.is_empty() && StructuralPropagationSequence::new().is_empty());
    assert!(MorphogenicRealizationSequence::new().frames.is_empty());
}

#[test]
fn lane_weight_and_state_are_clamped() {
    let lane = MorphogenicLane::new(MorphogenicLaneId(7), 3, 1, 2, b(1.7));
    assert_eq!(lane.reinforcement_weight, b(1.0));
    assert_eq!(lane.deterministic_sequence_index, 3);
    let s = StructuralState::new(b(-1.0), b(0.25), b(3.0));
    assert_eq!((s.stability_score, s.propagation_pressure, s.continuity_factor), (b(0.0), b(0.25), b(1.0)));
    let d = StructuralState::default();
    assert_eq!((d.stability_score, d.propagation_pressure, d.continuity_factor), (b(1.0), b(0.0), b(1.0)));
    assert_eq!(StructuralState::new(b(0.0), b(0.0), b(0.0)), StructuralState::new(b(-0.0), b(0.0), b(0.0)));
}

#[test]
fn spatial_sequence_canonical_order() {
    let mk = |seq: u64, src: u64, tgt: u64, f: f64| SpatialContinuityPropagationDescriptor {
        source_region: src,
        target_region: tgt,
        factor: f.to_bits(),
        sequence_index: seq,
    };
    let mut s = SpatialContinuitySequence::new(vec![mk(2, 0, 0, 0.5), mk(1, 9, 1, 0.5), mk(1, 3, 4, 0.7), mk(1, 3, 4, 0.2)]);
    s.canonicalize();
    let keys: Vec<(u64, u64, u64, u64)> = s.propagations.iter().map(|d| (d.sequence_index, d.source_region, d.target_region, d.factor)).collect();
    let mut expected = keys.clone();
    expected.sort();
    assert_eq!(keys, expected);
    assert_eq!(s.propagations[0].factor, 0.2f64.to_bits());
}
