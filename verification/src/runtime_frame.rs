//! Runtime frames and their replay buffer.
//!
//! A frame carries the structural state sealed at one tick.  Its numeric
//! payloads (continuity, emergence, resonance, convergence, persistence) are
//! single-precision values; the library holds each one as its IEEE-754 bit
//! pattern (`f32::to_bits`), which is exactly what the canonical encoding
//! writes, and compares them the way `f32`'s `==` does.
use vstd::prelude::*;
use crate::replay::{ContinuityLifecycleState, RuntimeFrameIdentity, SnapshotIdentity};
use crate::ordering::{CanonicalKey, lemma_radix_order, stable_sort_by_key, stable_sorted};

verus! {

// ---------------------------------------------------------------------
// IEEE-754 single-precision equality on bit patterns
// ---------------------------------------------------------------------

/// The bit pattern is a NaN: all exponent bits set and a non-zero mantissa.
pub open spec fn f32_bits_is_nan(b: u32) -> bool {
    (b & 0x7f80_0000u32) == 0x7f80_0000u32 && (b & 0x007f_ffffu32) != 0
}

/// The bit pattern is `+0.0` or `-0.0`.
pub open spec fn f32_bits_is_zero(b: u32) -> bool {
    (b & 0x7fff_ffffu32) == 0
}

/// `f32` equality on bit patterns: NaN equals nothing, the two zeros are
/// equal, every other value equals exactly itself.
pub open spec fn f32_bits_eq(a: u32, b: u32) -> bool {
    !f32_bits_is_nan(a) && !f32_bits_is_nan(b) && (a == b || (f32_bits_is_zero(a)
        && f32_bits_is_zero(b)))
}

/// `value.clamp(0.0, 1.0)` on the bit pattern of an `f32`: NaN and `-0.0`
/// are kept, other negatives become `+0.0`, values above `1.0` (infinity
/// included) become `1.0`.  Non-negative patterns order as their values.
pub open spec fn f32_bits_clamp01(b: u32) -> u32 {
    if f32_bits_is_nan(b) {
        b
    } else if b >= 0x8000_0000u32 {
        if f32_bits_is_zero(b) { b } else { 0u32 }
    } else if b > 0x3f80_0000u32 {
        0x3f80_0000u32
    } else {
        b
    }
}

/// Every value of `s` clamped to `[0, 1]`.
pub open spec fn clamped01(s: Seq<u32>) -> Seq<u32> {
    Seq::new(s.len(), |i: int| f32_bits_clamp01(s[i]))
}

/// The position of a non-NaN bit pattern on the number line: the
/// magnitude bits, negated when the sign bit is set (both zeros give 0).
/// The order of positions is the order of the values.
pub open spec fn f32_bits_rank(b: u32) -> int {
    if b >= 0x8000_0000u32 {
        -((b & 0x7fff_ffffu32) as int)
    } else {
        b as int
    }
}

/// `a >= b` on `f32` bit patterns: false when either is NaN.
pub open spec fn f32_bits_ge(a: u32, b: u32) -> bool {
    !f32_bits_is_nan(a) && !f32_bits_is_nan(b) && f32_bits_rank(a) >= f32_bits_rank(b)
}

/// Element-wise `f32` equality of two payloads of equal length.
pub open spec fn f32_seq_eq(a: Seq<u32>, b: Seq<u32>) -> bool {
    a.len() == b.len() && forall|i: int| 0 <= i < a.len() ==> #[trigger] f32_bits_eq(a[i], b[i])
}

/// `f32` equality of two bit patterns.
pub fn f32_bits_equal(a: u32, b: u32) -> (r: bool)
    ensures
        r == f32_bits_eq(a, b),
{
    let a_nan = (a & 0x7f80_0000u32) == 0x7f80_0000u32 && (a & 0x007f_ffffu32) != 0;
    let b_nan = (b & 0x7f80_0000u32) == 0x7f80_0000u32 && (b & 0x007f_ffffu32) != 0;
    let both_zero = (a & 0x7fff_ffffu32) == 0 && (b & 0x7fff_ffffu32) == 0;
    !a_nan && !b_nan && (a == b || both_zero)
}

/// `value.clamp(0.0, 1.0)` on an `f32` bit pattern.
pub fn f32_bits_clamp(b: u32) -> (r: u32)
    ensures
        r == f32_bits_clamp01(b),
{
    if (b & 0x7f80_0000u32) == 0x7f80_0000u32 && (b & 0x007f_ffffu32) != 0 {
        b
    } else if b >= 0x8000_0000u32 {
        if (b & 0x7fff_ffffu32) == 0 { b } else { 0 }
    } else if b > 0x3f80_0000u32 {
        0x3f80_0000u32
    } else {
        b
    }
}

/// Clamp every value of `v` to `[0, 1]`, in place.
pub fn clamp_all(v: &mut Vec<u32>)
    ensures
        final(v)@ == clamped01(old(v)@),
{
    let ghost orig = v@;
    let mut i: usize = 0;
    while i < v.len()
        invariant
            v@.len() == orig.len(),
            i <= v@.len(),
            forall|j: int| 0 <= j < i ==> v@[j] == f32_bits_clamp01(orig[j]),
            forall|j: int| i <= j < v@.len() ==> v@[j] == orig[j],
        decreases v@.len() - i,
    {
        let c = f32_bits_clamp(v[i]);
        v.set(i, c);
        i += 1;
    }
    assert(v@ =~= clamped01(orig));
}

/// `a >= b` on `f32` bit patterns.
pub fn f32_bits_greater_eq(a: u32, b: u32) -> (r: bool)
    ensures
        r == f32_bits_ge(a, b),
{
    let a_nan = (a & 0x7f80_0000u32) == 0x7f80_0000u32 && (a & 0x007f_ffffu32) != 0;
    let b_nan = (b & 0x7f80_0000u32) == 0x7f80_0000u32 && (b & 0x007f_ffffu32) != 0;
    if a_nan || b_nan {
        return false;
    }
    let a_neg = a >= 0x8000_0000u32;
    let b_neg = b >= 0x8000_0000u32;
    let a_mag = a & 0x7fff_ffffu32;
    let b_mag = b & 0x7fff_ffffu32;
    if !a_neg && !b_neg {
        a >= b
    } else if a_neg && b_neg {
        a_mag <= b_mag
    } else if a_neg {
        a_mag == 0 && b == 0
    } else {
        true
    }
}

/// Element-wise `f32` equality of two payloads.
pub fn f32_slices_equal(a: &[u32], b: &[u32]) -> (r: bool)
    ensures
        r == f32_seq_eq(a@, b@),
{
    if a.len() != b.len() {
        return false;
    }
    let mut i: usize = 0;
    while i < a.len()
        invariant
            a@.len() == b@.len(),
            i <= a@.len(),
            forall|j: int| 0 <= j < i ==> #[trigger] f32_bits_eq(a@[j], b@[j]),
        decreases a@.len() - i,
    {
        if !f32_bits_equal(a[i], b[i]) {
            return false;
        }
        i += 1;
    }
    true
}

// ---------------------------------------------------------------------
// Frame components
// ---------------------------------------------------------------------

/// Continuity payload with its provenance.
#[derive(Debug)]
pub struct ContinuitySnapshot {
    pub epoch: u64,
    /// Deterministic realization sequence index (provenance).
    pub realization_sequence_index: u64,
    /// Tick the snapshot was taken at (provenance).
    pub originating_tick: u64,
    /// Provenance bundle, always equal to the three fields above.
    pub snapshot_identity: SnapshotIdentity,
    /// Bit patterns of the `f32` continuity values.
    pub continuity: Vec<u32>,
}

/// The emergence metrics of a frame, as `f32` bit patterns.
#[derive(Debug, Clone, Copy)]
pub struct StructuralEmergenceState {
    pub emergence_score: u32,
    pub resonance_factor: u32,
    pub stabilization_factor: u32,
    pub convergence_factor: u32,
}

/// Resonance payload of a frame.
#[derive(Debug)]
pub struct EmergenceResonanceSnapshot {
    pub epoch: u64,
    /// Bit patterns of the `f32` resonance values.
    pub resonance: Vec<u32>,
}

/// The convergence pressures of a frame, as `f32` bit patterns.
#[derive(Debug, Clone, Copy)]
pub struct StructuralConvergenceState {
    pub continuity_pressure: u32,
    pub reinforcement_pressure: u32,
    pub resonance_pressure: u32,
    pub stabilization_pressure: u32,
}

/// Per-cell persistence values, as `f32` bit patterns.
#[derive(Debug)]
pub struct StructuralPersistenceField {
    persistence: Vec<u32>,
}

/// Platform description that a determinism seal was taken on.
#[derive(Debug)]
pub struct PlatformDeterminismSignature {
    pub architecture: String,
    pub compiler_version: String,
    pub float_policy_hash: u64,
    pub simd_policy_hash: u64,
    pub runtime_policy_hash: u64,
}

/// Hashes sealing a frame, with the platform they were taken on.
#[derive(Debug)]
pub struct RuntimeDeterminismSeal {
    pub runtime_hash: u64,
    pub frame_hash: u64,
    pub replay_hash: u64,
    pub policy_hash: u64,
    pub platform_signature: PlatformDeterminismSignature,
}

/// One sealed tick of the structural runtime.
#[derive(Debug)]
pub struct StructuralRuntimeFrame {
    pub frame_sequence: u64,
    pub originating_tick: u64,
    pub runtime_epoch: u64,
    pub topology_generation: u64,
    pub continuity_snapshot: ContinuitySnapshot,
    pub emergence_state: StructuralEmergenceState,
    pub resonance_snapshot: EmergenceResonanceSnapshot,
    pub convergence_state: StructuralConvergenceState,
    pub persistence_snapshot: StructuralPersistenceField,
    pub replay_identity: RuntimeFrameIdentity,
    pub determinism_seal: RuntimeDeterminismSeal,
    pub canonical_numeric_state: bool,
    pub replay_exactness_verified: bool,
}


impl ContinuitySnapshot {
    /// A snapshot with zero provenance; values are clamped to `[0, 1]`.
    pub fn new(epoch: u64, continuity: Vec<u32>) -> (s: Self)
        ensures
            s.epoch == epoch,
            s.realization_sequence_index == 0,
            s.originating_tick == 0,
            s.snapshot_identity == (SnapshotIdentity {
                continuity_epoch: epoch,
                originating_tick: 0,
                realization_sequence_index: 0,
            }),
            s.continuity@ == clamped01(continuity@),
    {
        Self::with_provenance(epoch, 0, 0, continuity)
    }

    /// A snapshot with explicit provenance; values are clamped to `[0, 1]`.
    pub fn with_provenance(
        epoch: u64,
        realization_sequence_index: u64,
        originating_tick: u64,
        continuity: Vec<u32>,
    ) -> (s: Self)
        ensures
            s.epoch == epoch,
            s.realization_sequence_index == realization_sequence_index,
            s.originating_tick == originating_tick,
            s.snapshot_identity == (SnapshotIdentity {
                continuity_epoch: epoch,
                originating_tick,
                realization_sequence_index,
            }),
            s.continuity@ == clamped01(continuity@),
    {
        let mut c = continuity;
        clamp_all(&mut c);
        Self {
            epoch,
            realization_sequence_index,
            originating_tick,
            snapshot_identity: SnapshotIdentity {
                continuity_epoch: epoch,
                originating_tick,
                realization_sequence_index,
            },
            continuity: c,
        }
    }

    /// Number of continuity values.
    pub fn len(&self) -> (n: usize)
        ensures
            n == self.continuity@.len(),
    {
        self.continuity.len()
    }

    /// The value at `idx`, if there is one.
    pub fn get(&self, idx: usize) -> (r: Option<u32>)
        ensures
            r == (if idx < self.continuity@.len() { Some(self.continuity@[idx as int]) } else { None }),
    {
        if idx < self.continuity.len() { Some(self.continuity[idx]) } else { None }
    }

    /// The provenance bundle.
    pub fn identity(&self) -> (id: SnapshotIdentity)
        ensures
            id == self.snapshot_identity,
    {
        self.snapshot_identity
    }
}

/// A continuity snapshot together with its lifecycle counters.
#[derive(Debug)]
pub struct ManagedContinuitySnapshot {
    pub lifecycle: ContinuityLifecycleState,
    pub snapshot: ContinuitySnapshot,
}

impl ManagedContinuitySnapshot {
    /// Manage `snapshot`, created at `created_epoch`: realized once, at the
    /// snapshot's epoch, version zero.
    pub fn new(created_epoch: u64, snapshot: ContinuitySnapshot) -> (m: Self)
        ensures
            m.lifecycle == (ContinuityLifecycleState {
                created_epoch,
                last_realized_epoch: snapshot.epoch,
                realization_count: 1,
                continuity_version: 0,
            }),
            m.snapshot == snapshot,
    {
        let last_realized_epoch = snapshot.epoch;
        Self {
            lifecycle: ContinuityLifecycleState {
                created_epoch,
                last_realized_epoch,
                realization_count: 1,
                continuity_version: 0,
            },
            snapshot,
        }
    }

    /// Move on to `next_snapshot`: both counters step up (saturating at
    /// `u64::MAX`), the realized epoch becomes the new snapshot's, and the
    /// creation epoch stays.
    pub fn advance(&self, next_snapshot: ContinuitySnapshot) -> (m: Self)
        ensures
            m.lifecycle.created_epoch == self.lifecycle.created_epoch,
            m.lifecycle.last_realized_epoch == next_snapshot.epoch,
            m.lifecycle.realization_count == (if self.lifecycle.realization_count == u64::MAX {
                u64::MAX
            } else {
                (self.lifecycle.realization_count + 1) as u64
            }),
            m.lifecycle.continuity_version == (if self.lifecycle.continuity_version == u64::MAX {
                u64::MAX
            } else {
                (self.lifecycle.continuity_version + 1) as u64
            }),
            m.snapshot == next_snapshot,
    {
        let lifecycle = ContinuityLifecycleState {
            created_epoch: self.lifecycle.created_epoch,
            last_realized_epoch: next_snapshot.epoch,
            realization_count: self.lifecycle.realization_count.saturating_add(1),
            continuity_version: self.lifecycle.continuity_version.saturating_add(1),
        };
        Self { lifecycle, snapshot: next_snapshot }
    }
}

/// Thresholds an emergence state has to reach, as `f32` bit patterns.
#[derive(Debug, Clone, Copy)]
pub struct EmergenceThresholdDescriptor {
    pub emergence_threshold: u32,
    pub resonance_threshold: u32,
    pub stabilization_threshold: u32,
}

impl EmergenceThresholdDescriptor {
    /// Whether emergence, resonance and stabilization each reach their
    /// threshold (`f32` comparison: false whenever a NaN is involved).
    pub fn evaluate(&self, state: &StructuralEmergenceState) -> (r: bool)
        ensures
            r == (f32_bits_ge(state.emergence_score, self.emergence_threshold) && f32_bits_ge(
                state.resonance_factor,
                self.resonance_threshold,
            ) && f32_bits_ge(state.stabilization_factor, self.stabilization_threshold)),
    {
        f32_bits_greater_eq(state.emergence_score, self.emergence_threshold)
            && f32_bits_greater_eq(state.resonance_factor, self.resonance_threshold)
            && f32_bits_greater_eq(state.stabilization_factor, self.stabilization_threshold)
    }
}

impl StructuralEmergenceState {
    /// A state with every metric clamped to `[0, 1]`.
    pub fn new(
        emergence_score: u32,
        resonance_factor: u32,
        stabilization_factor: u32,
        convergence_factor: u32,
    ) -> (s: Self)
        ensures
            s.emergence_score == f32_bits_clamp01(emergence_score),
            s.resonance_factor == f32_bits_clamp01(resonance_factor),
            s.stabilization_factor == f32_bits_clamp01(stabilization_factor),
            s.convergence_factor == f32_bits_clamp01(convergence_factor),
    {
        let mut s = Self { emergence_score, resonance_factor, stabilization_factor, convergence_factor };
        s.normalize();
        s
    }

    /// Clamp every metric to `[0, 1]`.
    pub fn normalize(&mut self)
        ensures
            final(self).emergence_score == f32_bits_clamp01(old(self).emergence_score),
            final(self).resonance_factor == f32_bits_clamp01(old(self).resonance_factor),
            final(self).stabilization_factor == f32_bits_clamp01(old(self).stabilization_factor),
            final(self).convergence_factor == f32_bits_clamp01(old(self).convergence_factor),
    {
        self.emergence_score = f32_bits_clamp(self.emergence_score);
        self.resonance_factor = f32_bits_clamp(self.resonance_factor);
        self.stabilization_factor = f32_bits_clamp(self.stabilization_factor);
        self.convergence_factor = f32_bits_clamp(self.convergence_factor);
    }
}

impl StructuralConvergenceState {
    /// A state with every pressure clamped to `[0, 1]`.
    pub fn compute_convergence(
        continuity_pressure: u32,
        reinforcement_pressure: u32,
        resonance_pressure: u32,
        stabilization_pressure: u32,
    ) -> (s: Self)
        ensures
            s.continuity_pressure == f32_bits_clamp01(continuity_pressure),
            s.reinforcement_pressure == f32_bits_clamp01(reinforcement_pressure),
            s.resonance_pressure == f32_bits_clamp01(resonance_pressure),
            s.stabilization_pressure == f32_bits_clamp01(stabilization_pressure),
    {
        let mut s = Self {
            continuity_pressure,
            reinforcement_pressure,
            resonance_pressure,
            stabilization_pressure,
        };
        s.normalize();
        s
    }

    /// Clamp every pressure to `[0, 1]`.
    pub fn normalize(&mut self)
        ensures
            final(self).continuity_pressure == f32_bits_clamp01(old(self).continuity_pressure),
            final(self).reinforcement_pressure == f32_bits_clamp01(old(self).reinforcement_pressure),
            final(self).resonance_pressure == f32_bits_clamp01(old(self).resonance_pressure),
            final(self).stabilization_pressure == f32_bits_clamp01(old(self).stabilization_pressure),
    {
        self.continuity_pressure = f32_bits_clamp(self.continuity_pressure);
        self.reinforcement_pressure = f32_bits_clamp(self.reinforcement_pressure);
        self.resonance_pressure = f32_bits_clamp(self.resonance_pressure);
        self.stabilization_pressure = f32_bits_clamp(self.stabilization_pressure);
    }
}

impl View for StructuralPersistenceField {
    type V = Seq<u32>;

    closed spec fn view(&self) -> Seq<u32> {
        self.persistence@
    }
}

impl StructuralPersistenceField {
    /// `len` cells, all `+0.0`.
    pub fn new(len: usize) -> (p: Self)
        ensures
            p@ == Seq::new(len as nat, |i: int| 0u32),
    {
        let mut persistence: Vec<u32> = Vec::new();
        let mut i: usize = 0;
        while i < len
            invariant
                i <= len,
                persistence@ == Seq::new(i as nat, |j: int| 0u32),
            decreases len - i,
        {
            persistence.push(0);
            i += 1;
        }
        Self { persistence }
    }

    /// Number of cells.
    pub fn len(&self) -> (n: usize)
        ensures
            n == self@.len(),
    {
        self.persistence.len()
    }

    /// The number of cells fits in a `usize`.
    pub proof fn lemma_len_fits(&self)
        ensures
            self@.len() <= usize::MAX,
    {
        broadcast use vstd::std_specs::vec::axiom_spec_len;
        assert(self.persistence.len() == self.persistence@.len());
    }

    /// The cell values, in order.
    pub fn values(&self) -> (v: &Vec<u32>)
        ensures
            v@ == self@,
    {
        &self.persistence
    }

    /// The value at `idx`, if there is one.
    pub fn get(&self, idx: usize) -> (r: Option<u32>)
        ensures
            r == (if idx < self@.len() { Some(self@[idx as int]) } else { None }),
    {
        if idx < self.persistence.len() { Some(self.persistence[idx]) } else { None }
    }

    /// Store `value` clamped to `[0, 1]` at `idx`; an index past the end
    /// changes nothing.
    pub fn set(&mut self, idx: usize, value: u32)
        ensures
            final(self)@ == (if idx < old(self)@.len() {
                old(self)@.update(idx as int, f32_bits_clamp01(value))
            } else {
                old(self)@
            }),
    {
        if idx < self.persistence.len() {
            let c = f32_bits_clamp(value);
            self.persistence.set(idx, c);
        }
    }
}

// ---------------------------------------------------------------------
// Equality: field by field, numeric payloads compared as `f32`
// ---------------------------------------------------------------------

/// Equality of emergence states.
pub open spec fn emergence_eq(a: StructuralEmergenceState, b: StructuralEmergenceState) -> bool {
    &&& f32_bits_eq(a.emergence_score, b.emergence_score)
    &&& f32_bits_eq(a.resonance_factor, b.resonance_factor)
    &&& f32_bits_eq(a.stabilization_factor, b.stabilization_factor)
    &&& f32_bits_eq(a.convergence_factor, b.convergence_factor)
}

/// Equality of convergence states.
pub open spec fn convergence_eq(a: StructuralConvergenceState, b: StructuralConvergenceState) -> bool {
    &&& f32_bits_eq(a.continuity_pressure, b.continuity_pressure)
    &&& f32_bits_eq(a.reinforcement_pressure, b.reinforcement_pressure)
    &&& f32_bits_eq(a.resonance_pressure, b.resonance_pressure)
    &&& f32_bits_eq(a.stabilization_pressure, b.stabilization_pressure)
}

/// Equality of continuity snapshots.
pub open spec fn continuity_eq(a: ContinuitySnapshot, b: ContinuitySnapshot) -> bool {
    &&& a.epoch == b.epoch
    &&& a.realization_sequence_index == b.realization_sequence_index
    &&& a.originating_tick == b.originating_tick
    &&& a.snapshot_identity == b.snapshot_identity
    &&& f32_seq_eq(a.continuity@, b.continuity@)
}

/// Equality of resonance snapshots.
pub open spec fn resonance_eq(a: EmergenceResonanceSnapshot, b: EmergenceResonanceSnapshot) -> bool {
    a.epoch == b.epoch && f32_seq_eq(a.resonance@, b.resonance@)
}

/// Equality of determinism seals.
pub open spec fn seal_eq(a: RuntimeDeterminismSeal, b: RuntimeDeterminismSeal) -> bool {
    &&& a.runtime_hash == b.runtime_hash
    &&& a.frame_hash == b.frame_hash
    &&& a.replay_hash == b.replay_hash
    &&& a.policy_hash == b.policy_hash
    &&& a.platform_signature.architecture@ == b.platform_signature.architecture@
    &&& a.platform_signature.compiler_version@ == b.platform_signature.compiler_version@
    &&& a.platform_signature.float_policy_hash == b.platform_signature.float_policy_hash
    &&& a.platform_signature.simd_policy_hash == b.platform_signature.simd_policy_hash
    &&& a.platform_signature.runtime_policy_hash == b.platform_signature.runtime_policy_hash
}

/// Equality of runtime frames.
pub open spec fn frame_eq(a: StructuralRuntimeFrame, b: StructuralRuntimeFrame) -> bool {
    &&& a.frame_sequence == b.frame_sequence
    &&& a.originating_tick == b.originating_tick
    &&& a.runtime_epoch == b.runtime_epoch
    &&& a.topology_generation == b.topology_generation
    &&& continuity_eq(a.continuity_snapshot, b.continuity_snapshot)
    &&& emergence_eq(a.emergence_state, b.emergence_state)
    &&& resonance_eq(a.resonance_snapshot, b.resonance_snapshot)
    &&& convergence_eq(a.convergence_state, b.convergence_state)
    &&& f32_seq_eq(a.persistence_snapshot@, b.persistence_snapshot@)
    &&& a.replay_identity == b.replay_identity
    &&& seal_eq(a.determinism_seal, b.determinism_seal)
    &&& a.canonical_numeric_state == b.canonical_numeric_state
    &&& a.replay_exactness_verified == b.replay_exactness_verified
}

/// Element-wise frame equality of two frame sequences.
pub open spec fn frames_eq(a: Seq<StructuralRuntimeFrame>, b: Seq<StructuralRuntimeFrame>) -> bool {
    a.len() == b.len() && forall|i: int| 0 <= i < a.len() ==> #[trigger] frame_eq(a[i], b[i])
}

impl PartialEq for StructuralEmergenceState {
    fn eq(&self, other: &Self) -> (r: bool) {
        f32_bits_equal(self.emergence_score, other.emergence_score)
            && f32_bits_equal(self.resonance_factor, other.resonance_factor)
            && f32_bits_equal(self.stabilization_factor, other.stabilization_factor)
            && f32_bits_equal(self.convergence_factor, other.convergence_factor)
    }
}

impl vstd::std_specs::cmp::PartialEqSpecImpl for StructuralEmergenceState {
    open spec fn obeys_eq_spec() -> bool {
        true
    }

    open spec fn eq_spec(&self, other: &Self) -> bool {
        emergence_eq(*self, *other)
    }
}

impl PartialEq for StructuralConvergenceState {
    fn eq(&self, other: &Self) -> (r: bool) {
        f32_bits_equal(self.continuity_pressure, other.continuity_pressure)
            && f32_bits_equal(self.reinforcement_pressure, other.reinforcement_pressure)
            && f32_bits_equal(self.resonance_pressure, other.resonance_pressure)
            && f32_bits_equal(self.stabilization_pressure, other.stabilization_pressure)
    }
}

impl vstd::std_specs::cmp::PartialEqSpecImpl for StructuralConvergenceState {
    open spec fn obeys_eq_spec() -> bool {
        true
    }

    open spec fn eq_spec(&self, other: &Self) -> bool {
        convergence_eq(*self, *other)
    }
}

impl PartialEq for ContinuitySnapshot {
    fn eq(&self, other: &Self) -> (r: bool) {
        self.epoch == other.epoch && self.realization_sequence_index
            == other.realization_sequence_index && self.originating_tick == other.originating_tick
            && self.snapshot_identity == other.snapshot_identity && f32_slices_equal(
            self.continuity.as_slice(),
            other.continuity.as_slice(),
        )
    }
}

impl vstd::std_specs::cmp::PartialEqSpecImpl for ContinuitySnapshot {
    open spec fn obeys_eq_spec() -> bool {
        true
    }

    open spec fn eq_spec(&self, other: &Self) -> bool {
        continuity_eq(*self, *other)
    }
}

impl PartialEq for EmergenceResonanceSnapshot {
    fn eq(&self, other: &Self) -> (r: bool) {
        self.epoch == other.epoch && f32_slices_equal(
            self.resonance.as_slice(),
            other.resonance.as_slice(),
        )
    }
}

impl vstd::std_specs::cmp::PartialEqSpecImpl for EmergenceResonanceSnapshot {
    open spec fn obeys_eq_spec() -> bool {
        true
    }

    open spec fn eq_spec(&self, other: &Self) -> bool {
        resonance_eq(*self, *other)
    }
}

impl PartialEq for StructuralPersistenceField {
    fn eq(&self, other: &Self) -> (r: bool) {
        f32_slices_equal(self.persistence.as_slice(), other.persistence.as_slice())
    }
}

impl vstd::std_specs::cmp::PartialEqSpecImpl for StructuralPersistenceField {
    open spec fn obeys_eq_spec() -> bool {
        true
    }

    open spec fn eq_spec(&self, other: &Self) -> bool {
        f32_seq_eq(self@, other@)
    }
}

impl PartialEq for RuntimeDeterminismSeal {
    fn eq(&self, other: &Self) -> (r: bool) {
        let a = &self.platform_signature;
        let b = &other.platform_signature;
        self.runtime_hash == other.runtime_hash && self.frame_hash == other.frame_hash
            && self.replay_hash == other.replay_hash && self.policy_hash == other.policy_hash
            && a.architecture == b.architecture && a.compiler_version == b.compiler_version
            && a.float_policy_hash == b.float_policy_hash && a.simd_policy_hash
            == b.simd_policy_hash && a.runtime_policy_hash == b.runtime_policy_hash
    }
}

impl vstd::std_specs::cmp::PartialEqSpecImpl for RuntimeDeterminismSeal {
    open spec fn obeys_eq_spec() -> bool {
        true
    }

    open spec fn eq_spec(&self, other: &Self) -> bool {
        seal_eq(*self, *other)
    }
}

impl PartialEq for StructuralRuntimeFrame {
    fn eq(&self, other: &Self) -> (r: bool) {
        self.frame_sequence == other.frame_sequence && self.originating_tick
            == other.originating_tick && self.runtime_epoch == other.runtime_epoch
            && self.topology_generation == other.topology_generation && self.continuity_snapshot
            == other.continuity_snapshot && self.emergence_state == other.emergence_state
            && self.resonance_snapshot == other.resonance_snapshot && self.convergence_state
            == other.convergence_state && self.persistence_snapshot == other.persistence_snapshot
            && self.replay_identity == other.replay_identity && self.determinism_seal
            == other.determinism_seal && self.canonical_numeric_state
            == other.canonical_numeric_state && self.replay_exactness_verified
            == other.replay_exactness_verified
    }
}

impl vstd::std_specs::cmp::PartialEqSpecImpl for StructuralRuntimeFrame {
    open spec fn obeys_eq_spec() -> bool {
        true
    }

    open spec fn eq_spec(&self, other: &Self) -> bool {
        frame_eq(*self, *other)
    }
}

// ---------------------------------------------------------------------
// Copies
// ---------------------------------------------------------------------

/// `b` holds the same data as `a`, field for field and bit for bit.
pub open spec fn same_frame_data(a: StructuralRuntimeFrame, b: StructuralRuntimeFrame) -> bool {
    &&& a.frame_sequence == b.frame_sequence
    &&& a.originating_tick == b.originating_tick
    &&& a.runtime_epoch == b.runtime_epoch
    &&& a.topology_generation == b.topology_generation
    &&& a.continuity_snapshot.epoch == b.continuity_snapshot.epoch
    &&& a.continuity_snapshot.realization_sequence_index
        == b.continuity_snapshot.realization_sequence_index
    &&& a.continuity_snapshot.originating_tick == b.continuity_snapshot.originating_tick
    &&& a.continuity_snapshot.snapshot_identity == b.continuity_snapshot.snapshot_identity
    &&& a.continuity_snapshot.continuity@ == b.continuity_snapshot.continuity@
    &&& a.emergence_state == b.emergence_state
    &&& a.resonance_snapshot.epoch == b.resonance_snapshot.epoch
    &&& a.resonance_snapshot.resonance@ == b.resonance_snapshot.resonance@
    &&& a.convergence_state == b.convergence_state
    &&& a.persistence_snapshot@ == b.persistence_snapshot@
    &&& a.replay_identity == b.replay_identity
    &&& seal_eq(a.determinism_seal, b.determinism_seal)
    &&& a.canonical_numeric_state == b.canonical_numeric_state
    &&& a.replay_exactness_verified == b.replay_exactness_verified
}

pub(crate) fn copy_words(v: &Vec<u32>) -> (r: Vec<u32>)
    ensures
        r@ == v@,
{
    let mut r: Vec<u32> = Vec::new();
    let mut i: usize = 0;
    while i < v.len()
        invariant
            i <= v@.len(),
            r@ == v@.take(i as int),
        decreases v@.len() - i,
    {
        r.push(v[i]);
        i += 1;
        assert(r@ =~= v@.take(i as int));
    }
    assert(v@.take(i as int) =~= v@);
    r
}

impl Clone for ContinuitySnapshot {
    fn clone(&self) -> (r: Self)
        ensures
            r.epoch == self.epoch,
            r.realization_sequence_index == self.realization_sequence_index,
            r.originating_tick == self.originating_tick,
            r.snapshot_identity == self.snapshot_identity,
            r.continuity@ == self.continuity@,
    {
        Self {
            epoch: self.epoch,
            realization_sequence_index: self.realization_sequence_index,
            originating_tick: self.originating_tick,
            snapshot_identity: self.snapshot_identity,
            continuity: copy_words(&self.continuity),
        }
    }
}

impl Clone for EmergenceResonanceSnapshot {
    fn clone(&self) -> (r: Self)
        ensures
            r.epoch == self.epoch,
            r.resonance@ == self.resonance@,
    {
        Self { epoch: self.epoch, resonance: copy_words(&self.resonance) }
    }
}

impl Clone for StructuralPersistenceField {
    fn clone(&self) -> (r: Self)
        ensures
            r@ == self@,
    {
        Self { persistence: copy_words(&self.persistence) }
    }
}

impl Clone for PlatformDeterminismSignature {
    fn clone(&self) -> (r: Self)
        ensures
            r == *self,
    {
        Self {
            architecture: self.architecture.clone(),
            compiler_version: self.compiler_version.clone(),
            float_policy_hash: self.float_policy_hash,
            simd_policy_hash: self.simd_policy_hash,
            runtime_policy_hash: self.runtime_policy_hash,
        }
    }
}

impl Clone for RuntimeDeterminismSeal {
    fn clone(&self) -> (r: Self)
        ensures
            r == *self,
    {
        Self {
            runtime_hash: self.runtime_hash,
            frame_hash: self.frame_hash,
            replay_hash: self.replay_hash,
            policy_hash: self.policy_hash,
            platform_signature: self.platform_signature.clone(),
        }
    }
}

impl Clone for StructuralRuntimeFrame {
    fn clone(&self) -> (r: Self)
        ensures
            same_frame_data(*self, r),
    {
        Self {
            frame_sequence: self.frame_sequence,
            originating_tick: self.originating_tick,
            runtime_epoch: self.runtime_epoch,
            topology_generation: self.topology_generation,
            continuity_snapshot: self.continuity_snapshot.clone(),
            emergence_state: self.emergence_state,
            resonance_snapshot: self.resonance_snapshot.clone(),
            convergence_state: self.convergence_state,
            persistence_snapshot: self.persistence_snapshot.clone(),
            replay_identity: self.replay_identity,
            determinism_seal: self.determinism_seal.clone(),
            canonical_numeric_state: self.canonical_numeric_state,
            replay_exactness_verified: self.replay_exactness_verified,
        }
    }
}

// ---------------------------------------------------------------------
// Frame sequences
// ---------------------------------------------------------------------

impl CanonicalKey for StructuralRuntimeFrame {
    /// Ordered by frame sequence, then originating tick.
    open spec fn canonical_key(&self) -> int {
        self.frame_sequence * 0x1_0000_0000_0000_0000 + self.originating_tick
    }

    fn key_less(&self, other: &Self) -> (r: bool) {
        let r = if self.frame_sequence != other.frame_sequence {
            self.frame_sequence < other.frame_sequence
        } else {
            self.originating_tick < other.originating_tick
        };
        proof {
            lemma_lex_key(
                self.frame_sequence as int,
                self.originating_tick as int,
                other.frame_sequence as int,
                other.originating_tick as int,
            );
        }
        r
    }
}

/// The key `s * 2^64 + t` with `t < 2^64` orders pairs lexicographically.
pub proof fn lemma_lex_key(s1: int, t1: int, s2: int, t2: int)
    requires
        0 <= t1 < 0x1_0000_0000_0000_0000,
        0 <= t2 < 0x1_0000_0000_0000_0000,
    ensures
        (s1 * 0x1_0000_0000_0000_0000 + t1 < s2 * 0x1_0000_0000_0000_0000 + t2) == (s1 < s2 || (
        s1 == s2 && t1 < t2)),
{
    if s1 < s2 {
        assert(s1 * 0x1_0000_0000_0000_0000 + 0x1_0000_0000_0000_0000 <= s2 * 0x1_0000_0000_0000_0000)
            by (nonlinear_arith)
            requires
                s1 < s2,
        ;
    } else if s2 < s1 {
        assert(s2 * 0x1_0000_0000_0000_0000 + 0x1_0000_0000_0000_0000 <= s1 * 0x1_0000_0000_0000_0000)
            by (nonlinear_arith)
            requires
                s2 < s1,
        ;
    }
}

/// An ordered run of runtime frames.
#[derive(Debug)]
pub struct RuntimeFrameSequence {
    frames: Vec<StructuralRuntimeFrame>,
}

impl View for RuntimeFrameSequence {
    type V = Seq<StructuralRuntimeFrame>;

    closed spec fn view(&self) -> Seq<StructuralRuntimeFrame> {
        self.frames@
    }
}

impl RuntimeFrameSequence {
    /// A sequence holding `frames` in the given order.
    pub fn new(frames: Vec<StructuralRuntimeFrame>) -> (s: Self)
        ensures
            s@ == frames@,
    {
        Self { frames }
    }

    /// Sort stably by frame sequence, then originating tick.
    pub fn stable_sort(&mut self)
        ensures
            stable_sorted(old(self)@, final(self)@),
    {
        stable_sort_by_key(&mut self.frames);
    }

    /// The last frame, if any.
    pub fn latest(&self) -> (r: Option<&StructuralRuntimeFrame>)
        ensures
            r == (if self@.len() > 0 { Some(&self@.last()) } else { None }),
    {
        let n = self.frames.len();
        if n > 0 { Some(&self.frames[n - 1]) } else { None }
    }

    /// The frame at `index`, if any.
    pub fn frame_at(&self, index: usize) -> (r: Option<&StructuralRuntimeFrame>)
        ensures
            r == (if index < self@.len() { Some(&self@[index as int]) } else { None }),
    {
        if index < self.frames.len() { Some(&self.frames[index]) } else { None }
    }

    /// Number of frames.
    pub fn len(&self) -> (n: usize)
        ensures
            n == self@.len(),
    {
        self.frames.len()
    }

    /// Whether there are no frames.
    pub fn is_empty(&self) -> (b: bool)
        ensures
            b == (self@.len() == 0),
    {
        self.frames.len() == 0
    }
}

// ---------------------------------------------------------------------
// Replay buffer
// ---------------------------------------------------------------------

/// Frames recorded for replay, in insertion order, with their count.
#[derive(Debug)]
pub struct RuntimeReplayBuffer {
    pub(crate) frames: Vec<StructuralRuntimeFrame>,
    pub replay_epoch: u64,
    pub canonical_frame_count: u64,
}

/// A sealed copy of a replay buffer's frames with the replay identity.
#[derive(Debug)]
pub struct RuntimeReplaySnapshot {
    pub replay_epoch: u64,
    pub sealed_frames: Vec<StructuralRuntimeFrame>,
    pub replay_identity: RuntimeFrameIdentity,
}

impl View for RuntimeReplayBuffer {
    type V = Seq<StructuralRuntimeFrame>;

    closed spec fn view(&self) -> Seq<StructuralRuntimeFrame> {
        self.frames@
    }
}

impl RuntimeReplayBuffer {
    /// The replay epoch.
    pub closed spec fn epoch(&self) -> u64 {
        self.replay_epoch
    }

    /// The number of frames counted since the last clear.
    pub closed spec fn frame_count(&self) -> u64 {
        self.canonical_frame_count
    }

    /// The replay epoch (the `replay_epoch` field).
    pub fn replay_epoch(&self) -> (e: u64)
        ensures
            e == self.epoch(),
    {
        self.replay_epoch
    }

    /// The number of frames counted since the last clear (the
    /// `canonical_frame_count` field).
    pub fn canonical_frame_count(&self) -> (n: u64)
        ensures
            n == self.frame_count(),
    {
        self.canonical_frame_count
    }

    /// An empty buffer for replay epoch `replay_epoch`.
    pub fn new(replay_epoch: u64) -> (b: Self)
        ensures
            b@ == Seq::<StructuralRuntimeFrame>::empty(),
            b.epoch() == replay_epoch,
            b.frame_count() == 0,
    {
        Self { frames: Vec::new(), replay_epoch, canonical_frame_count: 0 }
    }

    /// Record `frame` after the others and count it.
    pub fn push_frame(&mut self, frame: StructuralRuntimeFrame)
        requires
            old(self).frame_count() < u64::MAX,
        ensures
            final(self)@ == old(self)@.push(frame),
            final(self).frame_count() == old(self).frame_count() + 1,
            final(self).epoch() == old(self).epoch(),
    {
        self.frames.push(frame);
        self.canonical_frame_count = self.canonical_frame_count + 1;
    }

    /// The most recent frame, if any.
    pub fn latest(&self) -> (r: Option<&StructuralRuntimeFrame>)
        ensures
            r == (if self@.len() > 0 { Some(&self@.last()) } else { None }),
    {
        let n = self.frames.len();
        if n > 0 { Some(&self.frames[n - 1]) } else { None }
    }

    /// The frame at `index`, if any.
    pub fn frame_at(&self, index: usize) -> (r: Option<&StructuralRuntimeFrame>)
        ensures
            r == (if index < self@.len() { Some(&self@[index as int]) } else { None }),
    {
        if index < self.frames.len() { Some(&self.frames[index]) } else { None }
    }

    /// Drop every frame and reset the count.
    pub fn clear(&mut self)
        ensures
            final(self)@ == Seq::<StructuralRuntimeFrame>::empty(),
            final(self).frame_count() == 0,
            final(self).epoch() == old(self).epoch(),
    {
        self.frames.clear();
        self.canonical_frame_count = 0;
    }

    /// Same epoch and equal frames in the same order.
    pub fn replay_equivalent(&self, other: &Self) -> (r: bool)
        ensures
            r == (frames_eq(self@, other@) && self.epoch() == other.epoch()),
    {
        let same = self.frames == other.frames;
        proof {
            assert(same == frames_eq(self@, other@));
        }
        same && self.replay_epoch == other.replay_epoch
    }

    /// A snapshot of the buffer's frames under `replay_identity`.
    pub fn seal(&self, replay_identity: RuntimeFrameIdentity) -> (s: RuntimeReplaySnapshot)
        ensures
            s.replay_epoch == self.epoch(),
            s.replay_identity == replay_identity,
            s.sealed_frames@.len() == self@.len(),
            forall|i: int| 0 <= i < self@.len() ==> same_frame_data(
                #[trigger] self@[i],
                s.sealed_frames@[i],
            ),
    {
        RuntimeReplaySnapshot {
            replay_epoch: self.replay_epoch,
            sealed_frames: self.frames.clone(),
            replay_identity,
        }
    }

    /// The recorded frames, oldest first.
    pub fn frames(&self) -> (r: &[StructuralRuntimeFrame])
        ensures
            r@ == self@,
    {
        self.frames.as_slice()
    }
}

impl PartialEq for RuntimeReplaySnapshot {
    fn eq(&self, other: &Self) -> (r: bool) {
        self.replay_epoch == other.replay_epoch && self.sealed_frames == other.sealed_frames
            && self.replay_identity == other.replay_identity
    }
}

impl vstd::std_specs::cmp::PartialEqSpecImpl for RuntimeReplaySnapshot {
    open spec fn obeys_eq_spec() -> bool {
        true
    }

    open spec fn eq_spec(&self, other: &Self) -> bool {
        &&& self.replay_epoch == other.replay_epoch
        &&& frames_eq(self.sealed_frames@, other.sealed_frames@)
        &&& self.replay_identity == other.replay_identity
    }
}

/// Sorted runtime frames run in ascending frame sequence, and within one
/// frame sequence in ascending originating tick.
pub proof fn lemma_frames_sorted(a: Seq<StructuralRuntimeFrame>, b: Seq<StructuralRuntimeFrame>)
    requires
        stable_sorted(a, b),
    ensures
        forall|i: int, j: int| 0 <= i < j < b.len() ==> b[i].frame_sequence < b[j].frame_sequence || (
        b[i].frame_sequence == b[j].frame_sequence && b[i].originating_tick <= b[j].originating_tick),
{
    assert forall|i: int, j: int| 0 <= i < j < b.len() implies b[i].frame_sequence < b[j].frame_sequence || (
    b[i].frame_sequence == b[j].frame_sequence && b[i].originating_tick <= b[j].originating_tick) by {
        assert(b[i].canonical_key() <= b[j].canonical_key());
        lemma_radix_order(
            b[i].frame_sequence as int,
            b[i].originating_tick as int,
            b[j].frame_sequence as int,
            b[j].originating_tick as int,
            0x1_0000_0000_0000_0000,
        );
    }
}

/// Clamping to `[0, 1]` puts every number in `[+0.0, 1.0]`: a number
/// already there stays as it is, a negative number becomes `+0.0`, and a
/// number above `1.0` becomes `1.0`; a NaN stays as it is.
pub proof fn lemma_clamp01(b: u32)
    ensures
        f32_bits_is_nan(b) ==> f32_bits_clamp01(b) == b,
        !f32_bits_is_nan(b) ==> !f32_bits_is_nan(f32_bits_clamp01(b)) && 0 <= f32_bits_rank(f32_bits_clamp01(b))
            <= f32_bits_rank(0x3f80_0000u32),
        !f32_bits_is_nan(b) && 0 <= f32_bits_rank(b) <= f32_bits_rank(0x3f80_0000u32) ==> f32_bits_clamp01(b) == b,
        !f32_bits_is_nan(b) && f32_bits_rank(b) < 0 ==> f32_bits_clamp01(b) == 0u32,
        !f32_bits_is_nan(b) && f32_bits_rank(b) > f32_bits_rank(0x3f80_0000u32) ==> f32_bits_clamp01(b) == 0x3f80_0000u32,
{
    assert(b < 0x8000_0000u32 ==> (b & 0x7fff_ffffu32) == b) by (bit_vector);
    assert(b <= 0x3f80_0000u32 ==> (b & 0x7f80_0000u32) != 0x7f80_0000u32) by (bit_vector);
    assert(b >= 0x8000_0000u32 && (b & 0x7fff_ffffu32) == 0u32 ==> (b & 0x7f80_0000u32) != 0x7f80_0000u32) by (bit_vector);
    assert(((0u32 & 0x7f80_0000u32) != 0x7f80_0000u32) && ((0x3f80_0000u32 & 0x7f80_0000u32) != 0x7f80_0000u32))
        by (bit_vector);
    assert(f32_bits_rank(0x3f80_0000u32) == 0x3f80_0000);
}

/// The rank orders `f32` values as numbers: a pattern without the sign
/// bit ranks as its bits, both zeros rank equal, every negative pattern
/// ranks at or below every non-negative one, and among negative patterns a
/// larger magnitude ranks lower.
pub proof fn lemma_f32_rank_order(a: u32, b: u32)
    ensures
        a < 0x8000_0000u32 ==> f32_bits_rank(a) == a,
        f32_bits_rank(0x8000_0000u32) == f32_bits_rank(0u32),
        a < 0x8000_0000u32 && 0x8000_0000u32 <= b ==> f32_bits_rank(b) <= f32_bits_rank(a),
        0x8000_0000u32 <= a < b ==> f32_bits_rank(b) < f32_bits_rank(a),
{
    assert(a >= 0x8000_0000u32 ==> (a & 0x7fff_ffffu32) == a - 0x8000_0000u32) by (bit_vector);
    assert(b >= 0x8000_0000u32 ==> (b & 0x7fff_ffffu32) == b - 0x8000_0000u32) by (bit_vector);
    assert((0x8000_0000u32 & 0x7fff_ffffu32) == 0u32) by (bit_vector);
}

} // verus!
