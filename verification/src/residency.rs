//! Regional residency transitions and stabilization.
use vstd::prelude::*;
use std::collections::BTreeMap;
use crate::invariants::{DeterministicInvariantViolation, violation};
use crate::ordering::{CanonicalKey, lemma_radix_order, stable_sort_by_key, stable_sorted};
use crate::region::{StructuralRegionId, StructuralRegionRuntime, RegionResidencyState, residency_rank, residency_ordinal};

verus! {

broadcast use vstd::laws_cmp::group_laws_cmp;

#[derive(Clone, Copy, Debug, Eq, PartialEq, Ord, PartialOrd, Hash, Structural)]
pub enum ResidencyStabilizationState {
    Unstable,
    Stabilizing,
    Stable,
}

/// Position of a stabilization state in its declaration order.
pub open spec fn stabilization_rank(s: ResidencyStabilizationState) -> int {
    match s {
        ResidencyStabilizationState::Unstable => 0,
        ResidencyStabilizationState::Stabilizing => 1,
        ResidencyStabilizationState::Stable => 2,
    }
}

fn stabilization_ordinal(s: ResidencyStabilizationState) -> (r: u8)
    ensures
        r == stabilization_rank(s),
{
    match s {
        ResidencyStabilizationState::Unstable => 0,
        ResidencyStabilizationState::Stabilizing => 1,
        ResidencyStabilizationState::Stable => 2,
    }
}

#[derive(Clone, Copy, Debug, PartialEq, Eq, Structural)]
pub struct StructuralResidencyDescriptor {
    pub region_id: StructuralRegionId,
    pub target_state: RegionResidencyState,
    pub stabilization: ResidencyStabilizationState,
    pub sequence_index: u64,
}

impl CanonicalKey for StructuralResidencyDescriptor {
    /// Ordered by sequence index, region, target state, then stabilization.
    open spec fn canonical_key(&self) -> int {
        ((self.sequence_index * 18446744073709551616 + self.region_id.0) * 4 + residency_rank(
            self.target_state,
        )) * 4 + stabilization_rank(self.stabilization)
    }

    fn key_less(&self, other: &Self) -> (r: bool) {
        if self.sequence_index != other.sequence_index {
            return self.sequence_index < other.sequence_index;
        }
        if self.region_id.0 != other.region_id.0 {
            return self.region_id.0 < other.region_id.0;
        }
        let a = residency_ordinal(self.target_state);
        let b = residency_ordinal(other.target_state);
        if a != b {
            return a < b;
        }
        stabilization_ordinal(self.stabilization) < stabilization_ordinal(other.stabilization)
    }
}

/// One residency transition against the runtime map, or the violation.
pub open spec fn residency_transition(
    d: StructuralResidencyDescriptor,
    m: Map<u64, StructuralRegionRuntime>,
) -> Result<Map<u64, StructuralRegionRuntime>, DeterministicInvariantViolation> {
    if !m.contains_key(d.region_id.0) {
        Err(violation("missing_residency_region", "residency_runtime"))
    } else {
        let r = m[d.region_id.0];
        if r.residency == RegionResidencyState::Resident && (d.target_state == RegionResidencyState::Loading
            || d.target_state == RegionResidencyState::Evicted) {
            Err(violation("residency_regression_violation", "residency_runtime"))
        } else {
            let settled = if d.stabilization == ResidencyStabilizationState::Stable && d.target_state
                == RegionResidencyState::Resident {
                RegionResidencyState::Stabilizing
            } else {
                d.target_state
            };
            Ok(m.insert(d.region_id.0, StructuralRegionRuntime { residency: settled, ..r }))
        }
    }
}

/// Apply transitions in order, stopping at the first violation: the map as
/// left at that point, and the outcome.
pub open spec fn apply_residency(
    ds: Seq<StructuralResidencyDescriptor>,
    m: Map<u64, StructuralRegionRuntime>,
) -> (Map<u64, StructuralRegionRuntime>, Result<(), DeterministicInvariantViolation>)
    decreases ds.len(),
{
    if ds.len() == 0 {
        (m, Ok(()))
    } else {
        match residency_transition(ds[0], m) {
            Err(e) => (m, Err(e)),
            Ok(m2) => apply_residency(ds.drop_first(), m2),
        }
    }
}

#[derive(Clone, Debug)]
pub struct StructuralResidencySequence {
    pub descriptors: Vec<StructuralResidencyDescriptor>,
}

impl StructuralResidencySequence {
    pub fn new(descriptors: Vec<StructuralResidencyDescriptor>) -> (s: Self)
        ensures
            s.descriptors@ == descriptors@,
    {
        Self { descriptors }
    }

    /// Sort the residency sequence deterministically.
    pub fn stable_sort(&mut self)
        ensures
            stable_sorted(old(self).descriptors@, final(self).descriptors@),
    {
        stable_sort_by_key(&mut self.descriptors);
    }

    /// Canonicalize the residency sequence.
    pub fn canonicalize(&mut self)
        ensures
            stable_sorted(old(self).descriptors@, final(self).descriptors@),
    {
        self.stable_sort();
    }

    /// Apply residency transitions in order while strictly checking
    /// monotonicity; a violation stops the sequence and leaves the earlier
    /// transitions applied.
    pub fn apply_residency_sequence(
        &self,
        runtimes: &mut BTreeMap<u64, StructuralRegionRuntime>,
    ) -> (res: Result<(), DeterministicInvariantViolation>)
        ensures
            (final(runtimes)@, res) == apply_residency(self.descriptors@, old(runtimes)@),
    {
        let n = self.descriptors.len();
        let mut i: usize = 0;
        proof {
            assert(self.descriptors@.skip(0) =~= self.descriptors@);
        }
        while i < n
            invariant
                n == self.descriptors@.len(),
                i <= n,
                apply_residency(self.descriptors@.skip(i as int), runtimes@) == apply_residency(
                    self.descriptors@,
                    old(runtimes)@,
                ),
            decreases n - i,
        {
            let desc = self.descriptors[i];
            let ghost rest = self.descriptors@.skip(i as int);
            proof {
                assert(rest[0] == desc);
                assert(rest.drop_first() =~= self.descriptors@.skip(i + 1));
            }
            let key = desc.region_id.0;
            let found = runtimes.get(&key);
            match found {
                None => {
                    return Err(
                        DeterministicInvariantViolation {
                            invariant_name: "missing_residency_region",
                            subsystem: "residency_runtime",
                        },
                    );
                },
                Some(r) => {
                    let mut runtime = *r;
                    if runtime.residency == RegionResidencyState::Resident && (desc.target_state
                        == RegionResidencyState::Loading || desc.target_state
                        == RegionResidencyState::Evicted) {
                        return Err(
                            DeterministicInvariantViolation {
                                invariant_name: "residency_regression_violation",
                                subsystem: "residency_runtime",
                            },
                        );
                    }
                    runtime.residency = desc.target_state;
                    if desc.stabilization == ResidencyStabilizationState::Stable {
                        if runtime.residency == RegionResidencyState::Resident {
                            runtime.residency = RegionResidencyState::Stabilizing;
                        }
                    }
                    runtimes.insert(key, runtime);
                },
            }
            i = i + 1;
        }
        proof {
            assert(self.descriptors@.skip(n as int).len() == 0);
        }
        Ok(())
    }
}

/// A successful residency step touches only the named region, and only its
/// residency: the region takes the target state, except that a stable
/// descriptor settles a `Resident` target as `Stabilizing`.  A region that
/// was `Resident` stays `Resident` or becomes `Stabilizing`, and a stable
/// descriptor never leaves its region `Resident`.
pub proof fn lemma_residency_step(d: StructuralResidencyDescriptor, m: Map<u64, StructuralRegionRuntime>)
    requires
        m.contains_key(d.region_id.0),
        !(m[d.region_id.0].residency == RegionResidencyState::Resident && (d.target_state
            == RegionResidencyState::Loading || d.target_state == RegionResidencyState::Evicted)),
    ensures
        residency_transition(d, m) is Ok,
        residency_transition(d, m)->Ok_0.dom() == m.dom(),
        forall|id: u64| #[trigger] m.contains_key(id) && id != d.region_id.0 ==> residency_transition(d, m)->Ok_0[id]
            == m[id],
        residency_transition(d, m)->Ok_0[d.region_id.0].identity == m[d.region_id.0].identity,
        residency_transition(d, m)->Ok_0[d.region_id.0].activation == m[d.region_id.0].activation,
        residency_transition(d, m)->Ok_0[d.region_id.0].streaming == m[d.region_id.0].streaming,
        residency_transition(d, m)->Ok_0[d.region_id.0].residency == d.target_state || (d.target_state
            == RegionResidencyState::Resident && d.stabilization == ResidencyStabilizationState::Stable
            && residency_transition(d, m)->Ok_0[d.region_id.0].residency == RegionResidencyState::Stabilizing),
        d.stabilization == ResidencyStabilizationState::Stable ==> residency_transition(d, m)->Ok_0[d.region_id.0].residency
            != RegionResidencyState::Resident,
        m[d.region_id.0].residency == RegionResidencyState::Resident ==> (residency_transition(d, m)->Ok_0[d.region_id.0].residency
            == RegionResidencyState::Resident || residency_transition(d, m)->Ok_0[d.region_id.0].residency
            == RegionResidencyState::Stabilizing),
{
    let m2 = residency_transition(d, m)->Ok_0;
    assert(m2.dom() =~= m.dom());
}

/// Applying a residency sequence stops at the first refused step.  When the
/// steps before position `k` all succeed and step `k` names a region that is
/// not in the map, or would move a `Resident` region back to `Loading` or
/// `Evicted`, the sequence ends with that violation, and the map is left as
/// the earlier steps left it.
pub proof fn lemma_residency_stops_at_violation(
    ds: Seq<StructuralResidencyDescriptor>,
    m: Map<u64, StructuralRegionRuntime>,
    k: int,
)
    requires
        0 <= k < ds.len(),
        apply_residency(ds.take(k), m).1 == Ok::<(), DeterministicInvariantViolation>(()),
    ensures
        !apply_residency(ds.take(k), m).0.contains_key(ds[k].region_id.0) ==> apply_residency(ds, m) == (
            apply_residency(ds.take(k), m).0,
            Err::<(), DeterministicInvariantViolation>(violation("missing_residency_region", "residency_runtime")),
        ),
        apply_residency(ds.take(k), m).0.contains_key(ds[k].region_id.0) && apply_residency(ds.take(k), m).0[ds[k].region_id.0].residency
            == RegionResidencyState::Resident && (ds[k].target_state == RegionResidencyState::Loading
            || ds[k].target_state == RegionResidencyState::Evicted) ==> apply_residency(ds, m) == (
            apply_residency(ds.take(k), m).0,
            Err::<(), DeterministicInvariantViolation>(violation("residency_regression_violation", "residency_runtime")),
        ),
    decreases k,
{
    if k == 0 {
        assert(ds.take(0) =~= Seq::<StructuralResidencyDescriptor>::empty());
    } else {
        let t = ds.take(k);
        assert(t[0] == ds[0]);
        match residency_transition(ds[0], m) {
            Err(e) => {
                assert(apply_residency(t, m).1 is Err);
            },
            Ok(m2) => {
                let rest = ds.drop_first();
                assert(t.drop_first() =~= rest.take(k - 1));
                assert(rest[k - 1] == ds[k]);
                lemma_residency_stops_at_violation(rest, m2, k - 1);
            },
        }
    }
}

/// A sorted residency sequence runs in ascending sequence index, then
/// region, then target state, then stabilization (each state in its
/// declaration order).
pub proof fn lemma_residency_sorted(a: Seq<StructuralResidencyDescriptor>, b: Seq<StructuralResidencyDescriptor>)
    requires
        stable_sorted(a, b),
    ensures
        forall|i: int, j: int| 0 <= i < j < b.len() ==> b[i].sequence_index < b[j].sequence_index || (
        b[i].sequence_index == b[j].sequence_index && (b[i].region_id.0 < b[j].region_id.0 || (
        b[i].region_id.0 == b[j].region_id.0 && (residency_rank(b[i].target_state) < residency_rank(
            b[j].target_state,
        ) || (b[i].target_state == b[j].target_state && stabilization_rank(b[i].stabilization)
            <= stabilization_rank(b[j].stabilization)))))),
{
    let k = 18446744073709551616int;
    assert forall|i: int, j: int| 0 <= i < j < b.len() implies b[i].sequence_index < b[j].sequence_index || (
    b[i].sequence_index == b[j].sequence_index && (b[i].region_id.0 < b[j].region_id.0 || (
    b[i].region_id.0 == b[j].region_id.0 && (residency_rank(b[i].target_state) < residency_rank(
        b[j].target_state,
    ) || (b[i].target_state == b[j].target_state && stabilization_rank(b[i].stabilization)
        <= stabilization_rank(b[j].stabilization)))))) by {
        let x = b[i];
        let y = b[j];
        assert(x.canonical_key() <= y.canonical_key());
        let hx = (x.sequence_index as int * k + x.region_id.0 as int) * 4 + residency_rank(x.target_state);
        let hy = (y.sequence_index as int * k + y.region_id.0 as int) * 4 + residency_rank(y.target_state);
        lemma_radix_order(hx, stabilization_rank(x.stabilization), hy, stabilization_rank(y.stabilization), 4);
        lemma_radix_order(
            x.sequence_index as int * k + x.region_id.0 as int,
            residency_rank(x.target_state),
            y.sequence_index as int * k + y.region_id.0 as int,
            residency_rank(y.target_state),
            4,
        );
        lemma_radix_order(x.sequence_index as int, x.region_id.0 as int, y.sequence_index as int, y.region_id.0 as int, k);
    }
}

} // verus!
