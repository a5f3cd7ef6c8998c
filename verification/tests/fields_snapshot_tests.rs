use std::collections::BTreeMap;
use mirage_kernel::fields::{EmergenceResonanceField, StructuralContinuityField};
use mirage_kernel::region::{
    RegionActivationState, RegionResidencyState, RegionRuntimeIdentity, StructuralRegionGeneration,
    StructuralRegionId, StructuralRegionRuntime,
};
use mirage_kernel::runtime_frame::ManagedContinuitySnapshot;
use mirage_kernel::world::{StructuralWorldRuntime, WorldSnapshotIdentity};
use mirage_kernel::world_snapshot::{
    SpatialContinuityField, SpatialContinuityState, StructuralWorldSnapshot,
};

#[test]
fn snapshot_and_apply_roundtrip() {
    let mut field = StructuralContinuityField::new(4);
    field.set(1, 0.7f32.to_bits());
    let snap = field.snapshot(42);
    assert_eq!(snap.epoch, 42);
    let mut field2 = StructuralContinuityField::new(4);
    field2.apply_snapshot(&snap);
    assert_eq!(f32::from_bits(field2.get(1).unwrap()), 0.7);
}

#[test]
fn continuity_lifecycle_advancement_replay_safe() {
    let mut field = StructuralContinuityField::new(3);
    field.set(0, 0.5f32.to_bits());
    let snap0 = field.snapshot(10);
    let managed = ManagedContinuitySnapshot::new(10, snap0.clone());
    let mut field2 = StructuralContinuityField::new(3);
    field2.set(0, 0.8f32.to_bits());
    let snap1 = field2.snapshot(11);
    let managed2 = managed.advance(snap1.clone());
    assert_eq!(managed2.lifecycle.realization_count, managed.lifecycle.realization_count + 1);
    assert_eq!(managed2.lifecycle.last_realized_epoch, snap1.epoch);
    assert_eq!(managed2.lifecycle.continuity_version, managed.lifecycle.continuity_version + 1);
}

#[test]
fn continuity_field_set_clamps_and_ignores_out_of_range() {
    let mut field = StructuralContinuityField::new(2);
    assert_eq!(field.len(), 2);
    assert!(!field.is_empty());
    field.set(0, 1.5f32.to_bits());
    field.set(1, (-0.25f32).to_bits());
    field.set(7, 0.5f32.to_bits());
    assert_eq!(f32::from_bits(field.get(0).unwrap()), 1.0);
    assert_eq!(f32::from_bits(field.get(1).unwrap()), 0.0);
    assert_eq!(field.get(2), None);
    let pairs = field.stable_index_iter_clone();
    assert_eq!(pairs, vec![(0, 1.0f32.to_bits()), (1, 0.0f32.to_bits())]);
    let snap = field.snapshot_with_provenance(3, 4, 5);
    assert_eq!(snap.realization_sequence_index, 4);
    assert_eq!(snap.originating_tick, 5);
    assert_eq!(snap.snapshot_identity.continuity_epoch, 3);
    assert!(StructuralContinuityField::new(0).is_empty());
}

#[test]
fn resonance_field_snapshot_roundtrip() {
    let mut f = EmergenceResonanceField::new(3);
    f.set(2, 0.25f32.to_bits());
    f.set(0, 2.0f32.to_bits());
    let snap = f.snapshot(9);
    assert_eq!(snap.epoch, 9);
    let mut g = EmergenceResonanceField::new(3);
    g.apply_snapshot(&snap);
    assert_eq!(f32::from_bits(g.get(0).unwrap()), 1.0);
    assert_eq!(f32::from_bits(g.get(2).unwrap()), 0.25);
    assert_eq!(g.get(3), None);
    assert_eq!(g.stable_index_iter_clone().len(), 3);
}

fn runtime(id: u64, activation: RegionActivationState, residency: RegionResidencyState) -> StructuralRegionRuntime {
    let mut r = StructuralRegionRuntime::new(RegionRuntimeIdentity::new(
        StructuralRegionId::new(id),
        StructuralRegionGeneration::new(0),
        0,
        0,
        0,
    ));
    r.activation = activation;
    r.residency = residency;
    r
}

fn state(i: f64) -> SpatialContinuityState {
    SpatialContinuityState { intensity: i.to_bits(), persistence: 1.0f64.to_bits(), resonance: 1.0f64.to_bits() }
}

fn sample_snapshot() -> StructuralWorldSnapshot {
    let mut regions = BTreeMap::new();
    regions.insert(1, 2);
    let mut residency = BTreeMap::new();
    residency.insert(1, 3);
    let mut continuity = BTreeMap::new();
    continuity.insert(1, state(1.0));
    StructuralWorldSnapshot {
        identity: WorldSnapshotIdentity { world_tick: 10, continuity_epoch: 2, replay_sequence: 100 },
        region_snapshots: regions,
        residency_snapshots: residency,
        continuity_snapshots: continuity,
    }
}

#[test]
fn world_snapshot_equivalence_accepts_equal_snapshots() {
    let a = sample_snapshot();
    let b = sample_snapshot();
    assert!(a.validate_equivalence(&b).is_ok());
    assert!(a.validate_equivalence(&a).is_ok());
}

#[test]
fn world_snapshot_equivalence_reports_first_difference() {
    let a = sample_snapshot();
    let mut b = sample_snapshot();
    b.identity.replay_sequence = 101;
    b.region_snapshots.insert(2, 0);
    assert_eq!(a.validate_equivalence(&b).unwrap_err().invariant_name, "snapshot_identity_mismatch");

    let mut c = sample_snapshot();
    c.region_snapshots.insert(1, 1);
    let e = a.validate_equivalence(&c).unwrap_err();
    assert_eq!(e.invariant_name, "snapshot_region_mismatch");
    assert_eq!(e.subsystem, "world_snapshot");

    let mut d = sample_snapshot();
    d.residency_snapshots.insert(9, 0);
    assert_eq!(a.validate_equivalence(&d).unwrap_err().invariant_name, "snapshot_residency_mismatch");

    let mut f = sample_snapshot();
    f.continuity_snapshots.insert(1, state(-0.0));
    let mut g = sample_snapshot();
    g.continuity_snapshots.insert(1, state(0.0));
    assert_eq!(f.validate_equivalence(&g).unwrap_err().invariant_name, "snapshot_continuity_mismatch");
}

#[test]
fn seal_world_snapshot_collects_every_region() {
    let mut w = StructuralWorldRuntime::new();
    w.region_runtimes.insert(4, runtime(4, RegionActivationState::Active, RegionResidencyState::Resident));
    w.region_runtimes.insert(2, runtime(2, RegionActivationState::Activating, RegionResidencyState::Loading));
    let mut field = SpatialContinuityField::new();
    field.values.insert(2, state(0.5));
    field.values.insert(7, state(0.9));
    let snap = w.seal_world_snapshot(&field).unwrap();
    assert_eq!(snap.identity, WorldSnapshotIdentity { world_tick: 0, continuity_epoch: 0, replay_sequence: 0 });
    assert_eq!(snap.region_snapshots.get(&4), Some(&2));
    assert_eq!(snap.region_snapshots.get(&2), Some(&1));
    assert_eq!(snap.residency_snapshots.get(&4), Some(&2));
    assert_eq!(snap.residency_snapshots.get(&2), Some(&1));
    assert_eq!(snap.region_snapshots.len(), 2);
    assert_eq!(snap.continuity_snapshots.len(), 1);
    assert_eq!(snap.continuity_snapshots.get(&2), Some(&state(0.5)));
    let again = w.seal_world_snapshot(&field).unwrap();
    assert!(snap.validate_equivalence(&again).is_ok());
}
