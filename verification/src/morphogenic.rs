//! Propagation lanes, descriptors and sequences of the morphogenic layer,
//! in their canonical orders.
//!
//! Weights and factors are floating-point values held as their IEEE-754
//! bit patterns (`f32::to_bits`, `f64::to_bits`).
use vstd::prelude::*;
use crate::ordering::{CanonicalKey, lemma_radix_order, stable_sort_by_key, stable_sorted};
use crate::replay::{EmergenceProvenance, MorphogenicLaneId, StructuralProvenance};
use crate::runtime_frame::{ContinuitySnapshot, f32_bits_clamp, f32_bits_clamp01, f32_bits_eq, f32_bits_equal, lemma_lex_key};

verus! {

/// Bit pattern of `1.0f32`.
pub const F32_ONE: u32 = 0x3f80_0000u32;

/// Stability, pressure and continuity factor of the structure, each an
/// `f32` bit pattern in `[0, 1]` after normalization.
#[derive(Debug, Clone, Copy)]
pub struct StructuralState {
    pub stability_score: u32,
    pub propagation_pressure: u32,
    pub continuity_factor: u32,
}

impl StructuralState {
    /// A state with every value clamped to `[0, 1]`.
    pub fn new(stability_score: u32, propagation_pressure: u32, continuity_factor: u32) -> (s: Self)
        ensures
            s.stability_score == f32_bits_clamp01(stability_score),
            s.propagation_pressure == f32_bits_clamp01(propagation_pressure),
            s.continuity_factor == f32_bits_clamp01(continuity_factor),
    {
        let mut s = Self { stability_score, propagation_pressure, continuity_factor };
        s.normalize();
        s
    }

    /// Clamp every value to `[0, 1]`.
    pub fn normalize(&mut self)
        ensures
            final(self).stability_score == f32_bits_clamp01(old(self).stability_score),
            final(self).propagation_pressure == f32_bits_clamp01(old(self).propagation_pressure),
            final(self).continuity_factor == f32_bits_clamp01(old(self).continuity_factor),
    {
        self.stability_score = f32_bits_clamp(self.stability_score);
        self.propagation_pressure = f32_bits_clamp(self.propagation_pressure);
        self.continuity_factor = f32_bits_clamp(self.continuity_factor);
    }
}

impl Default for StructuralState {
    /// Fully stable, no pressure, continuity kept whole.
    fn default() -> (s: Self)
        ensures
            s.stability_score == F32_ONE,
            s.propagation_pressure == 0,
            s.continuity_factor == F32_ONE,
    {
        Self { stability_score: F32_ONE, propagation_pressure: 0, continuity_factor: F32_ONE }
    }
}

/// A propagation lane between two structure nodes.
#[derive(Debug, Clone, Copy)]
pub struct MorphogenicLane {
    pub lane_id: MorphogenicLaneId,
    pub deterministic_sequence_index: u64,
    pub source_node: usize,
    pub target_node: usize,
    /// `f32` bit pattern of the lane's weight, in `[0, 1]`.
    pub reinforcement_weight: u32,
}

impl MorphogenicLane {
    /// A lane with its weight clamped to `[0, 1]`.
    pub fn new(
        lane_id: MorphogenicLaneId,
        sequence_index: u64,
        source_node: usize,
        target_node: usize,
        reinforcement_weight: u32,
    ) -> (l: Self)
        ensures
            l == (MorphogenicLane {
                lane_id,
                deterministic_sequence_index: sequence_index,
                source_node,
                target_node,
                reinforcement_weight: f32_bits_clamp01(reinforcement_weight),
            }),
    {
        Self {
            lane_id,
            deterministic_sequence_index: sequence_index,
            source_node,
            target_node,
            reinforcement_weight: f32_bits_clamp(reinforcement_weight),
        }
    }
}

/// One propagation along a lane, with its provenance.
#[derive(Debug, Clone, Copy)]
pub struct StructuralPropagationDescriptor {
    pub lane_id: MorphogenicLaneId,
    pub deterministic_sequence_index: u64,
    pub provenance: StructuralProvenance,
    pub target_node: usize,
    /// `f32` bit pattern of the propagated weight.
    pub reinforcement_weight: u32,
}

impl CanonicalKey for StructuralPropagationDescriptor {
    /// Ordered by sequence index, then lane.
    open spec fn canonical_key(&self) -> int {
        self.deterministic_sequence_index * 0x1_0000_0000_0000_0000 + self.lane_id.0
    }

    fn key_less(&self, other: &Self) -> (r: bool) {
        let r = if self.deterministic_sequence_index != other.deterministic_sequence_index {
            self.deterministic_sequence_index < other.deterministic_sequence_index
        } else {
            self.lane_id.0 < other.lane_id.0
        };
        proof {
            lemma_lex_key(
                self.deterministic_sequence_index as int,
                self.lane_id.0 as int,
                other.deterministic_sequence_index as int,
                other.lane_id.0 as int,
            );
        }
        r
    }
}

/// Propagations in canonical order.
#[derive(Debug, Clone, PartialEq)]
pub struct StructuralPropagationSequence {
    pub descriptors: Vec<StructuralPropagationDescriptor>,
}

impl StructuralPropagationSequence {
    /// An empty sequence.
    pub fn new() -> (s: Self)
        ensures
            s.descriptors@ == Seq::<StructuralPropagationDescriptor>::empty(),
    {
        Self { descriptors: Vec::new() }
    }

    /// The descriptors sorted stably by sequence index, then lane.
    pub fn from_descriptors(desc: Vec<StructuralPropagationDescriptor>) -> (s: Self)
        ensures
            stable_sorted(desc@, s.descriptors@),
    {
        let mut d = desc;
        stable_sort_by_key(&mut d);
        Self { descriptors: d }
    }

    /// Number of descriptors.
    pub fn len(&self) -> (n: usize)
        ensures
            n == self.descriptors@.len(),
    {
        self.descriptors.len()
    }

    /// Whether there are no descriptors.
    pub fn is_empty(&self) -> (b: bool)
        ensures
            b == (self.descriptors@.len() == 0),
    {
        self.descriptors.len() == 0
    }
}

impl PartialEq for StructuralState {
    fn eq(&self, other: &Self) -> (r: bool) {
        f32_bits_equal(self.stability_score, other.stability_score) && f32_bits_equal(
            self.propagation_pressure,
            other.propagation_pressure,
        ) && f32_bits_equal(self.continuity_factor, other.continuity_factor)
    }
}

impl vstd::std_specs::cmp::PartialEqSpecImpl for StructuralState {
    open spec fn obeys_eq_spec() -> bool {
        true
    }

    open spec fn eq_spec(&self, other: &Self) -> bool {
        &&& f32_bits_eq(self.stability_score, other.stability_score)
        &&& f32_bits_eq(self.propagation_pressure, other.propagation_pressure)
        &&& f32_bits_eq(self.continuity_factor, other.continuity_factor)
    }
}

impl PartialEq for MorphogenicLane {
    fn eq(&self, other: &Self) -> (r: bool) {
        self.lane_id == other.lane_id && self.deterministic_sequence_index
            == other.deterministic_sequence_index && self.source_node == other.source_node
            && self.target_node == other.target_node && f32_bits_equal(
            self.reinforcement_weight,
            other.reinforcement_weight,
        )
    }
}

impl vstd::std_specs::cmp::PartialEqSpecImpl for MorphogenicLane {
    open spec fn obeys_eq_spec() -> bool {
        true
    }

    open spec fn eq_spec(&self, other: &Self) -> bool {
        &&& self.lane_id == other.lane_id
        &&& self.deterministic_sequence_index == other.deterministic_sequence_index
        &&& self.source_node == other.source_node
        &&& self.target_node == other.target_node
        &&& f32_bits_eq(self.reinforcement_weight, other.reinforcement_weight)
    }
}

impl PartialEq for StructuralPropagationDescriptor {
    fn eq(&self, other: &Self) -> (r: bool) {
        self.lane_id == other.lane_id && self.deterministic_sequence_index
            == other.deterministic_sequence_index && self.provenance == other.provenance
            && self.target_node == other.target_node && f32_bits_equal(
            self.reinforcement_weight,
            other.reinforcement_weight,
        )
    }
}

impl vstd::std_specs::cmp::PartialEqSpecImpl for StructuralPropagationDescriptor {
    open spec fn obeys_eq_spec() -> bool {
        true
    }

    open spec fn eq_spec(&self, other: &Self) -> bool {
        &&& self.lane_id == other.lane_id
        &&& self.deterministic_sequence_index == other.deterministic_sequence_index
        &&& self.provenance == other.provenance
        &&& self.target_node == other.target_node
        &&& f32_bits_eq(self.reinforcement_weight, other.reinforcement_weight)
    }
}

impl PartialEq for ResonancePropagationDescriptor {
    fn eq(&self, other: &Self) -> (r: bool) {
        self.sequence_index == other.sequence_index && self.target_index == other.target_index
            && f32_bits_equal(self.weight, other.weight) && self.provenance == other.provenance
    }
}

impl vstd::std_specs::cmp::PartialEqSpecImpl for ResonancePropagationDescriptor {
    open spec fn obeys_eq_spec() -> bool {
        true
    }

    open spec fn eq_spec(&self, other: &Self) -> bool {
        &&& self.sequence_index == other.sequence_index
        &&& self.target_index == other.target_index
        &&& f32_bits_eq(self.weight, other.weight)
        &&& self.provenance == other.provenance
    }
}

/// A continuity snapshot tied to the tick and epoch it was realized at.
#[derive(Debug, Clone, PartialEq)]
pub struct StructuralRealizationFrame {
    pub tick: u64,
    pub epoch: u64,
    pub snapshot: ContinuitySnapshot,
}

/// Realization frames in the order they were produced.
#[derive(Debug, Clone, PartialEq)]
pub struct MorphogenicRealizationSequence {
    pub frames: Vec<StructuralRealizationFrame>,
}

impl MorphogenicRealizationSequence {
    /// An empty sequence.
    pub fn new() -> (s: Self)
        ensures
            s.frames@ == Seq::<StructuralRealizationFrame>::empty(),
    {
        Self { frames: Vec::new() }
    }
}

/// One resonance propagation to a target cell.
#[derive(Debug, Clone, Copy)]
pub struct ResonancePropagationDescriptor {
    pub sequence_index: u64,
    pub target_index: usize,
    /// `f32` bit pattern of the propagated weight.
    pub weight: u32,
    pub provenance: EmergenceProvenance,
}

impl CanonicalKey for ResonancePropagationDescriptor {
    /// Ordered by sequence index, then target.
    open spec fn canonical_key(&self) -> int {
        self.sequence_index * 0x1_0000_0000_0000_0000 + self.target_index
    }

    fn key_less(&self, other: &Self) -> (r: bool) {
        let r = if self.sequence_index != other.sequence_index {
            self.sequence_index < other.sequence_index
        } else {
            self.target_index < other.target_index
        };
        proof {
            lemma_lex_key(
                self.sequence_index as int,
                self.target_index as int,
                other.sequence_index as int,
                other.target_index as int,
            );
        }
        r
    }
}

/// Resonance propagations.
#[derive(Debug, Clone, PartialEq)]
pub struct ResonancePropagationSequence {
    pub descriptors: Vec<ResonancePropagationDescriptor>,
}

impl ResonancePropagationSequence {
    /// An empty sequence.
    pub fn new() -> (s: Self)
        ensures
            s.descriptors@ == Seq::<ResonancePropagationDescriptor>::empty(),
    {
        Self { descriptors: Vec::new() }
    }

    /// Sort stably by sequence index, then target.
    pub fn stable_sort(&mut self)
        ensures
            stable_sorted(old(self).descriptors@, final(self).descriptors@),
    {
        stable_sort_by_key(&mut self.descriptors);
    }
}

/// A continuity propagation between two regions.
#[derive(Debug, Clone, Copy, PartialEq, Eq, Structural)]
pub struct SpatialContinuityPropagationDescriptor {
    pub source_region: u64,
    pub target_region: u64,
    /// `f64` bit pattern of the propagation factor.
    pub factor: u64,
    pub sequence_index: u64,
}

/// The position of a spatial propagation in canonical order: sequence
/// index, then source, target and factor bits.
pub open spec fn spatial_key(d: SpatialContinuityPropagationDescriptor) -> int {
    d.sequence_index * 0x1_0000_0000_0000_0000_0000_0000_0000_0000_0000_0000_0000_0000
        + d.source_region * 0x1_0000_0000_0000_0000_0000_0000_0000_0000
        + d.target_region * 0x1_0000_0000_0000_0000
        + d.factor
}

impl CanonicalKey for SpatialContinuityPropagationDescriptor {
    open spec fn canonical_key(&self) -> int {
        spatial_key(*self)
    }

    fn key_less(&self, other: &Self) -> (r: bool) {
        let r = if self.sequence_index != other.sequence_index {
            self.sequence_index < other.sequence_index
        } else if self.source_region != other.source_region {
            self.source_region < other.source_region
        } else if self.target_region != other.target_region {
            self.target_region < other.target_region
        } else {
            self.factor < other.factor
        };
        proof {
            let b = 0x1_0000_0000_0000_0000int;
            lemma_lex_key(self.target_region as int, self.factor as int, other.target_region as int, other.factor as int);
            let t1 = self.target_region * b + self.factor;
            let t2 = other.target_region * b + other.factor;
            assert(0 <= t1 < b * b && 0 <= t2 < b * b) by (nonlinear_arith)
                requires
                    t1 == self.target_region * b + self.factor,
                    t2 == other.target_region * b + other.factor,
                    0 <= self.target_region < b,
                    0 <= other.target_region < b,
                    0 <= self.factor < b,
                    0 <= other.factor < b,
                    b == 0x1_0000_0000_0000_0000int,
            ;
            lemma_lex_key_wide(self.source_region as int, t1, other.source_region as int, t2, b * b);
            let u1 = self.source_region * (b * b) + t1;
            let u2 = other.source_region * (b * b) + t2;
            assert(0 <= u1 < b * b * b && 0 <= u2 < b * b * b) by (nonlinear_arith)
                requires
                    u1 == self.source_region * (b * b) + t1,
                    u2 == other.source_region * (b * b) + t2,
                    0 <= self.source_region < b,
                    0 <= other.source_region < b,
                    0 <= t1 < b * b,
                    0 <= t2 < b * b,
            ;
            lemma_lex_key_wide(self.sequence_index as int, u1, other.sequence_index as int, u2, b * b * b);
            assert(spatial_key(*self) == self.sequence_index * (b * b * b) + u1) by (nonlinear_arith)
                requires
                    u1 == self.source_region * (b * b) + t1,
                    t1 == self.target_region * b + self.factor,
                    b == 0x1_0000_0000_0000_0000int,
            ;
            assert(spatial_key(*other) == other.sequence_index * (b * b * b) + u2) by (nonlinear_arith)
                requires
                    u2 == other.source_region * (b * b) + t2,
                    t2 == other.target_region * b + other.factor,
                    b == 0x1_0000_0000_0000_0000int,
            ;
        }
        r
    }
}

/// The key `s * m + t` with `0 <= t < m` orders pairs lexicographically.
pub proof fn lemma_lex_key_wide(s1: int, t1: int, s2: int, t2: int, m: int)
    requires
        0 <= t1 < m,
        0 <= t2 < m,
    ensures
        (s1 * m + t1 < s2 * m + t2) == (s1 < s2 || (s1 == s2 && t1 < t2)),
{
    if s1 < s2 {
        assert(s1 * m + m <= s2 * m) by (nonlinear_arith)
            requires
                s1 < s2,
                m > 0,
        ;
    } else if s2 < s1 {
        assert(s2 * m + m <= s1 * m) by (nonlinear_arith)
            requires
                s2 < s1,
                m > 0,
        ;
    }
}

/// Spatial continuity propagations.
#[derive(Debug, Clone)]
pub struct SpatialContinuitySequence {
    pub propagations: Vec<SpatialContinuityPropagationDescriptor>,
}

impl SpatialContinuitySequence {
    /// A sequence holding `propagations` in the given order.
    pub fn new(propagations: Vec<SpatialContinuityPropagationDescriptor>) -> (s: Self)
        ensures
            s.propagations@ == propagations@,
    {
        Self { propagations }
    }

    /// Sort into canonical order: sequence index, source, target, factor.
    pub fn stable_sort(&mut self)
        ensures
            stable_sorted(old(self).propagations@, final(self).propagations@),
    {
        stable_sort_by_key(&mut self.propagations);
    }

    /// Put the sequence into canonical order.
    pub fn canonicalize(&mut self)
        ensures
            stable_sorted(old(self).propagations@, final(self).propagations@),
    {
        self.stable_sort();
    }
}

/// Sorted structural propagations run in ascending sequence index, and
/// within one sequence index in ascending lane.
pub proof fn lemma_structural_propagations_sorted(a: Seq<StructuralPropagationDescriptor>, b: Seq<StructuralPropagationDescriptor>)
    requires
        stable_sorted(a, b),
    ensures
        forall|i: int, j: int| 0 <= i < j < b.len() ==> b[i].deterministic_sequence_index < b[j].deterministic_sequence_index
            || (b[i].deterministic_sequence_index == b[j].deterministic_sequence_index && b[i].lane_id.0 <= b[j].lane_id.0),
{
    assert forall|i: int, j: int| 0 <= i < j < b.len() implies b[i].deterministic_sequence_index
        < b[j].deterministic_sequence_index || (b[i].deterministic_sequence_index == b[j].deterministic_sequence_index
        && b[i].lane_id.0 <= b[j].lane_id.0) by {
        assert(b[i].canonical_key() <= b[j].canonical_key());
        lemma_radix_order(
            b[i].deterministic_sequence_index as int,
            b[i].lane_id.0 as int,
            b[j].deterministic_sequence_index as int,
            b[j].lane_id.0 as int,
            0x1_0000_0000_0000_0000,
        );
    }
}

/// Sorted resonance propagations run in ascending sequence index, and
/// within one sequence index in ascending target.
pub proof fn lemma_resonance_propagations_sorted(a: Seq<ResonancePropagationDescriptor>, b: Seq<ResonancePropagationDescriptor>)
    requires
        stable_sorted(a, b),
    ensures
        forall|i: int, j: int| 0 <= i < j < b.len() ==> b[i].sequence_index < b[j].sequence_index || (
        b[i].sequence_index == b[j].sequence_index && b[i].target_index <= b[j].target_index),
{
    assert forall|i: int, j: int| 0 <= i < j < b.len() implies b[i].sequence_index < b[j].sequence_index || (
    b[i].sequence_index == b[j].sequence_index && b[i].target_index <= b[j].target_index) by {
        assert(b[i].canonical_key() <= b[j].canonical_key());
        lemma_radix_order(
            b[i].sequence_index as int,
            b[i].target_index as int,
            b[j].sequence_index as int,
            b[j].target_index as int,
            0x1_0000_0000_0000_0000,
        );
    }
}

/// Sorted spatial propagations run in ascending sequence index, then
/// source region, then target region, then factor bits.
pub proof fn lemma_spatial_propagations_sorted(
    a: Seq<SpatialContinuityPropagationDescriptor>,
    b: Seq<SpatialContinuityPropagationDescriptor>,
)
    requires
        stable_sorted(a, b),
    ensures
        forall|i: int, j: int| 0 <= i < j < b.len() ==> b[i].sequence_index < b[j].sequence_index || (
        b[i].sequence_index == b[j].sequence_index && (b[i].source_region < b[j].source_region || (
        b[i].source_region == b[j].source_region && (b[i].target_region < b[j].target_region || (
        b[i].target_region == b[j].target_region && b[i].factor <= b[j].factor))))),
{
    let k = 0x1_0000_0000_0000_0000int;
    assert forall|i: int, j: int| 0 <= i < j < b.len() implies b[i].sequence_index < b[j].sequence_index || (
    b[i].sequence_index == b[j].sequence_index && (b[i].source_region < b[j].source_region || (
    b[i].source_region == b[j].source_region && (b[i].target_region < b[j].target_region || (
    b[i].target_region == b[j].target_region && b[i].factor <= b[j].factor))))) by {
        let x = b[i];
        let y = b[j];
        assert(x.canonical_key() <= y.canonical_key());
        assert forall|d: SpatialContinuityPropagationDescriptor| #[trigger] spatial_key(d) == ((d.sequence_index as int * k
            + d.source_region as int) * k + d.target_region as int) * k + d.factor as int by {
            assert(spatial_key(d) == ((d.sequence_index as int * k + d.source_region as int) * k
                + d.target_region as int) * k + d.factor as int) by (nonlinear_arith)
                requires
                    k == 0x1_0000_0000_0000_0000int,
                    spatial_key(d) == d.sequence_index * 0x1_0000_0000_0000_0000_0000_0000_0000_0000_0000_0000_0000_0000
                        + d.source_region * 0x1_0000_0000_0000_0000_0000_0000_0000_0000
                        + d.target_region * 0x1_0000_0000_0000_0000 + d.factor,
            ;
        }
        assert(spatial_key(x) == x.canonical_key());
        assert(spatial_key(y) == y.canonical_key());
        lemma_radix_order(
            (x.sequence_index as int * k + x.source_region as int) * k + x.target_region as int,
            x.factor as int,
            (y.sequence_index as int * k + y.source_region as int) * k + y.target_region as int,
            y.factor as int,
            k,
        );
        lemma_radix_order(
            x.sequence_index as int * k + x.source_region as int,
            x.target_region as int,
            y.sequence_index as int * k + y.source_region as int,
            y.target_region as int,
            k,
        );
        lemma_radix_order(x.sequence_index as int, x.source_region as int, y.sequence_index as int, y.source_region as int, k);
    }
}

} // verus!
