//! Sealed world snapshots: per-region activation, residency and spatial
//! continuity at one world tick, and their exact replay comparison.
use vstd::prelude::*;
use std::collections::BTreeMap;
use crate::invariants::{DeterministicInvariantViolation, violation};
use crate::region::{StructuralRegionRuntime, activation_ordinal, activation_rank, residency_ordinal, residency_rank};
use crate::world::{StructuralWorldRuntime, WorldSnapshotIdentity};

verus! {

broadcast use vstd::laws_cmp::group_laws_cmp;

/// Spatial continuity of a region, as the bit patterns of its three `f64`
/// components; two states are equal when their bit patterns are.
#[derive(Clone, Copy, Debug, PartialEq, Eq, Structural)]
pub struct SpatialContinuityState {
    pub intensity: u64,
    pub persistence: u64,
    pub resonance: u64,
}

/// Spatial continuity per region id.
#[derive(Debug)]
pub struct SpatialContinuityField {
    pub values: BTreeMap<u64, SpatialContinuityState>,
}

impl SpatialContinuityField {
    /// A field with no region.
    pub fn new() -> (f: Self)
        ensures
            f.values@ == Map::<u64, SpatialContinuityState>::empty(),
    {
        Self { values: BTreeMap::new() }
    }
}

impl Default for SpatialContinuityField {
    fn default() -> (f: Self)
        ensures
            f.values@ == Map::<u64, SpatialContinuityState>::empty(),
    {
        Self::new()
    }
}

/// A sealed world snapshot.
#[derive(Debug)]
pub struct StructuralWorldSnapshot {
    pub identity: WorldSnapshotIdentity,
    /// Activation state code per region id.
    pub region_snapshots: BTreeMap<u64, u8>,
    /// Residency state code per region id.
    pub residency_snapshots: BTreeMap<u64, u8>,
    /// Spatial continuity per region id.
    pub continuity_snapshots: BTreeMap<u64, SpatialContinuityState>,
}

/// A sealed snapshot with its hashes.
#[derive(Debug)]
pub struct StructuralWorldFrame {
    pub snapshot: StructuralWorldSnapshot,
    pub frame_hash: u64,
    pub system_seal: u64,
}

/// The activation code (declaration-order position) of every region.
pub open spec fn activation_codes(m: Map<u64, StructuralRegionRuntime>) -> Map<u64, u8> {
    Map::new(|k: u64| m.contains_key(k), |k: u64| activation_rank(m[k].activation) as u8)
}

/// The residency code (declaration-order position) of every region.
pub open spec fn residency_codes(m: Map<u64, StructuralRegionRuntime>) -> Map<u64, u8> {
    Map::new(|k: u64| m.contains_key(k), |k: u64| residency_rank(m[k].residency) as u8)
}

/// The continuity of every region that the field maps.
pub open spec fn continuity_of(
    m: Map<u64, StructuralRegionRuntime>,
    field: Map<u64, SpatialContinuityState>,
) -> Map<u64, SpatialContinuityState> {
    Map::new(|k: u64| m.contains_key(k) && field.contains_key(k), |k: u64| field[k])
}

/// The outcome of comparing two snapshots: the first part that differs,
/// checked in the order identity, regions, residency, continuity.
pub open spec fn equivalence_of(a: &StructuralWorldSnapshot, b: &StructuralWorldSnapshot) -> Result<(), DeterministicInvariantViolation> {
    if a.identity != b.identity {
        Err(violation("snapshot_identity_mismatch", "world_snapshot"))
    } else if a.region_snapshots@ != b.region_snapshots@ {
        Err(violation("snapshot_region_mismatch", "world_snapshot"))
    } else if a.residency_snapshots@ != b.residency_snapshots@ {
        Err(violation("snapshot_residency_mismatch", "world_snapshot"))
    } else if a.continuity_snapshots@ != b.continuity_snapshots@ {
        Err(violation("snapshot_continuity_mismatch", "world_snapshot"))
    } else {
        Ok(())
    }
}

fn byte_maps_equal(a: &BTreeMap<u64, u8>, b: &BTreeMap<u64, u8>) -> (r: bool)
    ensures
        r == (a@ == b@),
{
    if a.len() != b.len() {
        return false;
    }
    for (k, v) in it: a.iter()
        invariant
            a@.len() == b@.len(),
            forall|j: int| 0 <= j < it.index() ==> b@.contains_key(*it.seq()[j].0) && b@[*it.seq()[j].0] == *it.seq()[j].1,
    {
        assert(a@.contains_key(*k) && a@[*k] == *v);
        match b.get(k) {
            Some(w) => {
                if *w != *v {
                    return false;
                }
            },
            None => {
                return false;
            },
        }
    }
    proof {
        assert(a@.dom().subset_of(b@.dom()));
        vstd::set_lib::lemma_subset_equality(a@.dom(), b@.dom());
        assert(a@ =~= b@);
    }
    true
}

fn continuity_maps_equal(
    a: &BTreeMap<u64, SpatialContinuityState>,
    b: &BTreeMap<u64, SpatialContinuityState>,
) -> (r: bool)
    ensures
        r == (a@ == b@),
{
    if a.len() != b.len() {
        return false;
    }
    for (k, v) in it: a.iter()
        invariant
            a@.len() == b@.len(),
            forall|j: int| 0 <= j < it.index() ==> b@.contains_key(*it.seq()[j].0) && b@[*it.seq()[j].0] == *it.seq()[j].1,
    {
        assert(a@.contains_key(*k) && a@[*k] == *v);
        match b.get(k) {
            Some(w) => {
                if w.intensity != v.intensity || w.persistence != v.persistence || w.resonance != v.resonance {
                    return false;
                }
            },
            None => {
                return false;
            },
        }
    }
    proof {
        assert(a@.dom().subset_of(b@.dom()));
        vstd::set_lib::lemma_subset_equality(a@.dom(), b@.dom());
        assert(a@ =~= b@);
    }
    true
}

impl StructuralWorldSnapshot {
    /// `Ok` when the two snapshots are equal; otherwise the first part that
    /// differs, in the order identity, regions, residency, continuity.
    pub fn validate_equivalence(&self, other: &Self) -> (r: Result<(), DeterministicInvariantViolation>)
        ensures
            r == equivalence_of(self, other),
    {
        if self.identity != other.identity {
            return Err(
                DeterministicInvariantViolation {
                    invariant_name: "snapshot_identity_mismatch",
                    subsystem: "world_snapshot",
                },
            );
        }
        if !byte_maps_equal(&self.region_snapshots, &other.region_snapshots) {
            return Err(
                DeterministicInvariantViolation {
                    invariant_name: "snapshot_region_mismatch",
                    subsystem: "world_snapshot",
                },
            );
        }
        if !byte_maps_equal(&self.residency_snapshots, &other.residency_snapshots) {
            return Err(
                DeterministicInvariantViolation {
                    invariant_name: "snapshot_residency_mismatch",
                    subsystem: "world_snapshot",
                },
            );
        }
        if !continuity_maps_equal(&self.continuity_snapshots, &other.continuity_snapshots) {
            return Err(
                DeterministicInvariantViolation {
                    invariant_name: "snapshot_continuity_mismatch",
                    subsystem: "world_snapshot",
                },
            );
        }
        Ok(())
    }
}

/// A snapshot validates against itself.
pub proof fn lemma_snapshot_equivalence_reflexive(s: &StructuralWorldSnapshot)
    ensures
        equivalence_of(s, s) is Ok,
{
}

/// Validation succeeds exactly on snapshots with equal parts, and in either
/// order.
pub proof fn lemma_snapshot_equivalence_symmetric(a: &StructuralWorldSnapshot, b: &StructuralWorldSnapshot)
    ensures
        (equivalence_of(a, b) is Ok) == (equivalence_of(b, a) is Ok),
        (equivalence_of(a, b) is Ok) == (a.identity == b.identity
            && a.region_snapshots@ == b.region_snapshots@
            && a.residency_snapshots@ == b.residency_snapshots@
            && a.continuity_snapshots@ == b.continuity_snapshots@),
{
}

impl StructuralWorldRuntime {
    /// Seal the current state: the snapshot identity, and for every region
    /// runtime its activation and residency codes and, where the field maps
    /// it, its spatial continuity.
    pub fn seal_world_snapshot(
        &self,
        continuity_field: &SpatialContinuityField,
    ) -> (r: Result<StructuralWorldSnapshot, DeterministicInvariantViolation>)
        ensures
            r is Ok,
            r matches Ok(s) && {
                &&& s.identity == (WorldSnapshotIdentity {
                    world_tick: self.world_tick,
                    continuity_epoch: self.continuity_epoch,
                    replay_sequence: self.replay_sequence,
                })
                &&& s.region_snapshots@ == activation_codes(self.region_runtimes@)
                &&& s.residency_snapshots@ == residency_codes(self.region_runtimes@)
                &&& s.continuity_snapshots@ == continuity_of(self.region_runtimes@, continuity_field.values@)
            },
    {
        let identity = self.snapshot_identity();
        let mut region_snapshots: BTreeMap<u64, u8> = BTreeMap::new();
        let mut residency_snapshots: BTreeMap<u64, u8> = BTreeMap::new();
        let mut continuity_snapshots: BTreeMap<u64, SpatialContinuityState> = BTreeMap::new();
        let ghost m = self.region_runtimes@;
        let ghost f = continuity_field.values@;
        for (id, runtime) in it: self.region_runtimes.iter()
            invariant
                m == self.region_runtimes@,
                f == continuity_field.values@,
                forall|j: int| 0 <= j < it.seq().len() ==> m.contains_key(*it.seq()[j].0) && m[*it.seq()[j].0] == *it.seq()[j].1,
                forall|k: u64| #[trigger] region_snapshots@.contains_key(k) <==> exists|j: int| 0 <= j < it.index() && *it.seq()[j].0 == k,
                forall|k: u64| #[trigger] residency_snapshots@.contains_key(k) <==> exists|j: int| 0 <= j < it.index() && *it.seq()[j].0 == k,
                forall|k: u64| #[trigger] region_snapshots@.contains_key(k) ==> region_snapshots@[k] == activation_rank(m[k].activation) as u8,
                forall|k: u64| #[trigger] residency_snapshots@.contains_key(k) ==> residency_snapshots@[k] == residency_rank(m[k].residency) as u8,
                forall|k: u64| #[trigger] continuity_snapshots@.contains_key(k) <==> (region_snapshots@.contains_key(k) && f.contains_key(k)),
                forall|k: u64| #[trigger] continuity_snapshots@.contains_key(k) ==> continuity_snapshots@[k] == f[k],
                forall|k: u64| #[trigger] m.contains_key(k) ==> region_snapshots@.contains_key(k)
                    || exists|j: int| it.index() <= j < it.seq().len() && *it.seq()[j].0 == k,
        {
            let ghost j = it.index();
            assert(*it.seq()[j].0 == *id && *it.seq()[j].1 == *runtime);
            region_snapshots.insert(*id, activation_ordinal(runtime.activation));
            residency_snapshots.insert(*id, residency_ordinal(runtime.residency));
            match continuity_field.values.get(id) {
                Some(state) => {
                    continuity_snapshots.insert(*id, *state);
                },
                None => {},
            }
            proof {
                assert forall|k: u64| #[trigger] region_snapshots@.contains_key(k) implies exists|i: int| 0 <= i < j + 1 && *it.seq()[i].0 == k by {
                    if k == *id {
                        assert(*it.seq()[j].0 == k);
                    }
                }
            }
        }
        proof {
            assert(region_snapshots@ =~= activation_codes(m));
            assert(residency_snapshots@ =~= residency_codes(m));
            assert(continuity_snapshots@ =~= continuity_of(m, f));
        }
        Ok(
            StructuralWorldSnapshot {
                identity,
                region_snapshots,
                residency_snapshots,
                continuity_snapshots,
            },
        )
    }
}

} // verus!
