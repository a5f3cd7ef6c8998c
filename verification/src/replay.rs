//! Replay records, identities and exact replay verification.
use vstd::prelude::*;
use crate::invariants::{DeterministicInvariantViolation, violation};

verus! {

/// Byte-exact equality of two replays.
pub fn verify_byte_replay_equivalence(a: &[u8], b: &[u8]) -> (r: bool)
    ensures
        r == (a@ == b@),
{
    if a.len() != b.len() {
        return false;
    }
    let n = a.len();
    let mut i: usize = 0;
    while i < n
        invariant
            n == a@.len(),
            n == b@.len(),
            i <= n,
            forall|k: int| 0 <= k < i ==> a@[k] == b@[k],
        decreases n - i,
    {
        if a[i] != b[i] {
            return false;
        }
        i = i + 1;
    }
    proof {
        assert(a@ =~= b@);
    }
    true
}

/// Byte equivalence is an equivalence relation on replays.
pub proof fn lemma_byte_equivalence(a: Seq<u8>, b: Seq<u8>, c: Seq<u8>)
    ensures
        a == a,
        (a == b) == (b == a),
        a == b && b == c ==> a == c,
{
}

/// One recorded region replay frame.
#[derive(Clone, Debug, Eq, PartialEq)]
pub struct RegionReplayFrame {
    pub tick: u64,
    pub region_id: u64,
    pub state_hash: u64,
    pub payload_bytes: Vec<u8>,
}

/// The first field in which two frames differ, as its violation name.
pub open spec fn frame_mismatch(a: RegionReplayFrame, b: RegionReplayFrame) -> Option<&'static str> {
    if a.tick != b.tick {
        Some("replay_tick_mismatch")
    } else if a.region_id != b.region_id {
        Some("replay_region_id_mismatch")
    } else if a.state_hash != b.state_hash {
        Some("replay_state_hash_mismatch")
    } else if a.payload_bytes@ != b.payload_bytes@ {
        Some("replay_payload_mismatch")
    } else {
        None
    }
}

/// The first mismatch among frames `i..` of two equally long frame lists.
pub open spec fn first_mismatch(fa: Seq<RegionReplayFrame>, fb: Seq<RegionReplayFrame>, i: int) -> Option<&'static str>
    decreases fa.len() - i,
{
    if i < 0 || i >= fa.len() {
        None
    } else {
        match frame_mismatch(fa[i], fb[i]) {
            Some(m) => Some(m),
            None => first_mismatch(fa, fb, i + 1),
        }
    }
}

/// The violation name two replay buffers would be refused with, if any.
pub open spec fn replay_mismatch(fa: Seq<RegionReplayFrame>, fb: Seq<RegionReplayFrame>) -> Option<&'static str> {
    if fa.len() != fb.len() {
        Some("replay_buffer_length_mismatch")
    } else {
        first_mismatch(fa, fb, 0)
    }
}

/// Two frames record the same thing.
pub open spec fn same_frame(a: RegionReplayFrame, b: RegionReplayFrame) -> bool {
    a.tick == b.tick && a.region_id == b.region_id && a.state_hash == b.state_hash && a.payload_bytes@
        == b.payload_bytes@
}

/// Two frame lists record the same frames in the same order.
pub open spec fn same_frames(fa: Seq<RegionReplayFrame>, fb: Seq<RegionReplayFrame>) -> bool {
    fa.len() == fb.len() && forall|i: int| 0 <= i < fa.len() ==> same_frame(#[trigger] fa[i], fb[i])
}

proof fn lemma_first_mismatch_none(fa: Seq<RegionReplayFrame>, fb: Seq<RegionReplayFrame>, i: int)
    requires
        fa.len() == fb.len(),
        0 <= i <= fa.len(),
    ensures
        (first_mismatch(fa, fb, i) is None) == (forall|k: int| i <= k < fa.len() ==> same_frame(#[trigger] fa[k], fb[k])),
    decreases fa.len() - i,
{
    if i < fa.len() {
        lemma_first_mismatch_none(fa, fb, i + 1);
        if !same_frame(fa[i], fb[i]) {
            assert(frame_mismatch(fa[i], fb[i]) is Some);
        }
    }
}

/// A replay validates against another exactly when both hold the same
/// frames in the same order; validation is reflexive and symmetric.
pub proof fn lemma_replay_equivalence(fa: Seq<RegionReplayFrame>, fb: Seq<RegionReplayFrame>)
    ensures
        (replay_mismatch(fa, fb) is None) == same_frames(fa, fb),
        (replay_mismatch(fa, fb) is None) == (replay_mismatch(fb, fa) is None),
        replay_mismatch(fa, fa) is None,
{
    if fa.len() == fb.len() {
        lemma_first_mismatch_none(fa, fb, 0);
        lemma_first_mismatch_none(fb, fa, 0);
        if same_frames(fa, fb) {
            assert forall|k: int| 0 <= k < fb.len() implies same_frame(#[trigger] fb[k], fa[k]) by {
                assert(same_frame(fa[k], fb[k]));
            }
        }
        if same_frames(fb, fa) {
            assert forall|k: int| 0 <= k < fa.len() implies same_frame(#[trigger] fa[k], fb[k]) by {
                assert(same_frame(fb[k], fa[k]));
            }
        }
    }
    lemma_first_mismatch_none(fa, fa, 0);
}

/// Insertion-ordered log of region replay frames.
#[derive(Clone, Debug, Eq, PartialEq)]
pub struct RegionReplayBuffer {
    pub frames: Vec<RegionReplayFrame>,
}

impl RegionReplayBuffer {
    pub fn new() -> (b: Self)
        ensures
            b.frames@.len() == 0,
    {
        Self { frames: Vec::new() }
    }

    /// Append a frame (insertion-ordered).
    pub fn push(&mut self, frame: RegionReplayFrame)
        ensures
            final(self).frames@ == old(self).frames@.push(frame),
    {
        self.frames.push(frame);
    }

    /// Validate exact replay equivalence against another buffer, reporting
    /// the length mismatch or the first differing field of the first
    /// differing frame.
    pub fn validate_equivalence(&self, other: &Self) -> (res: Result<(), DeterministicInvariantViolation>)
        ensures
            match replay_mismatch(self.frames@, other.frames@) {
                None => res is Ok,
                Some(name) => res == Err::<(), DeterministicInvariantViolation>(violation(name, "region_replay")),
            },
    {
        if self.frames.len() != other.frames.len() {
            return Err(
                DeterministicInvariantViolation {
                    invariant_name: "replay_buffer_length_mismatch",
                    subsystem: "region_replay",
                },
            );
        }
        let n = self.frames.len();
        let mut i: usize = 0;
        while i < n
            invariant
                n == self.frames@.len(),
                n == other.frames@.len(),
                i <= n,
                first_mismatch(self.frames@, other.frames@, 0) == first_mismatch(self.frames@, other.frames@, i as int),
            decreases n - i,
        {
            let f_a = &self.frames[i];
            let f_b = &other.frames[i];
            if f_a.tick != f_b.tick {
                return Err(
                    DeterministicInvariantViolation { invariant_name: "replay_tick_mismatch", subsystem: "region_replay" },
                );
            }
            if f_a.region_id != f_b.region_id {
                return Err(
                    DeterministicInvariantViolation {
                        invariant_name: "replay_region_id_mismatch",
                        subsystem: "region_replay",
                    },
                );
            }
            if f_a.state_hash != f_b.state_hash {
                return Err(
                    DeterministicInvariantViolation {
                        invariant_name: "replay_state_hash_mismatch",
                        subsystem: "region_replay",
                    },
                );
            }
            if !verify_byte_replay_equivalence(f_a.payload_bytes.as_slice(), f_b.payload_bytes.as_slice()) {
                return Err(
                    DeterministicInvariantViolation {
                        invariant_name: "replay_payload_mismatch",
                        subsystem: "region_replay",
                    },
                );
            }
            i = i + 1;
        }
        Ok(())
    }
}

/// Hash and size of a sealed region replay buffer.
#[derive(Clone, Copy, Debug, Eq, PartialEq, Ord, PartialOrd, Hash, Structural)]
pub struct RegionReplaySnapshot {
    pub buffer_hash: u64,
    pub frame_count: usize,
}

/// Which replay guarantees are demanded.
#[derive(Clone, Copy, Debug, PartialEq, Eq, Structural)]
pub struct StrictReplayMode {
    pub exact_replay_required: bool,
    pub byte_equivalence_required: bool,
    pub deterministic_hash_required: bool,
    pub canonical_serialization_required: bool,
}

/// Outcome of comparing two replays.
#[derive(Clone, Copy, Debug, PartialEq, Eq, Structural)]
pub struct ReplayExactnessReport {
    pub byte_equivalent: bool,
    pub deterministic_hash_match: bool,
    pub frame_sequence_match: bool,
    pub divergence_detected: bool,
}

impl ReplayExactnessReport {
    /// The report for the three comparisons: divergence is any of them failing.
    pub fn from_checks(byte_equivalent: bool, deterministic_hash_match: bool, frame_sequence_match: bool) -> (r: Self)
        ensures
            r.byte_equivalent == byte_equivalent,
            r.deterministic_hash_match == deterministic_hash_match,
            r.frame_sequence_match == frame_sequence_match,
            r.divergence_detected == (!byte_equivalent || !deterministic_hash_match || !frame_sequence_match),
    {
        Self {
            byte_equivalent,
            deterministic_hash_match,
            frame_sequence_match,
            divergence_detected: !byte_equivalent || !deterministic_hash_match || !frame_sequence_match,
        }
    }
}

/// Identity of a runtime frame for replay.
#[derive(Clone, Copy, Debug, PartialEq, Eq, Structural)]
pub struct RuntimeFrameIdentity {
    pub frame_sequence: u64,
    pub originating_tick: u64,
    pub deterministic_hash_seed: u64,
}

/// Provenance bundle of a continuity snapshot.
#[derive(Debug, Clone, Copy, PartialEq, Eq, Structural)]
pub struct SnapshotIdentity {
    pub continuity_epoch: u64,
    pub originating_tick: u64,
    pub realization_sequence_index: u64,
}

/// Lifecycle counters of a managed continuity snapshot.
#[derive(Debug, Clone, Copy, PartialEq, Eq, Structural)]
pub struct ContinuityLifecycleState {
    pub created_epoch: u64,
    pub last_realized_epoch: u64,
    pub realization_count: u64,
    pub continuity_version: u64,
}


/// Provenance of a resonance propagation.
#[derive(Debug, Clone, Copy, PartialEq, Eq, Structural)]
pub struct EmergenceProvenance {
    pub originating_tick: u64,
    pub continuity_epoch: u64,
    pub resonance_sequence_index: u64,
    pub topology_generation: u64,
}

/// Replay-grade structural provenance.
#[derive(Debug, Clone, Copy, PartialEq, Eq, Structural)]
pub struct StructuralProvenance {
    pub originating_tick: u64,
    pub topology_generation: u64,
    pub lane_sequence_index: u64,
    pub continuity_epoch: u64,
}

impl StructuralProvenance {
    pub fn new(originating_tick: u64, topology_generation: u64, lane_sequence_index: u64, continuity_epoch: u64) -> (p: Self)
        ensures
            p == (StructuralProvenance { originating_tick, topology_generation, lane_sequence_index, continuity_epoch }),
    {
        Self { originating_tick, topology_generation, lane_sequence_index, continuity_epoch }
    }
}

/// Stable lane identity.
#[derive(Debug, Clone, Copy, PartialEq, Eq, PartialOrd, Ord, Hash, Structural)]
pub struct MorphogenicLaneId(pub u64);

/// Stateless deterministic applier of propagation sequences.
#[derive(Debug, Clone, Copy)]
pub struct MorphogenicRealizer;

impl MorphogenicRealizer {
    pub fn new() -> (r: Self) {
        Self
    }
}

} // verus!
