//! Canonical byte encoding of runtime frames, replay snapshots and replay
//! buffers, and the exactness checks built on it.
//!
//! Every integer is written little-endian at its own width, every `f32`
//! as the little-endian bytes of its bit pattern, every variable-length
//! payload or text behind its length as a `u64`, and every flag as one byte
//! (`0` or `1`), in a fixed field order.
use vstd::prelude::*;
use vstd::bytes::{spec_u32_to_le_bytes, spec_u64_to_le_bytes, u32_to_le_bytes, u64_to_le_bytes};
use vstd::string::StrSliceExecFns;
use crate::replay::{ReplayExactnessReport, RuntimeFrameIdentity, verify_byte_replay_equivalence};
use crate::runtime_frame::{
    RuntimeReplayBuffer, RuntimeReplaySnapshot, StructuralRuntimeFrame, same_frame_data,
};

verus! {

/// Little-endian bytes of a `u64`.
pub open spec fn le64(x: u64) -> Seq<u8> {
    spec_u64_to_le_bytes(x)
}

/// Little-endian bytes of a `u32`.
pub open spec fn le32(x: u32) -> Seq<u8> {
    spec_u32_to_le_bytes(x)
}

/// The words of `s`, each as four little-endian bytes, in order.
pub open spec fn words_le(s: Seq<u32>) -> Seq<u8>
    decreases s.len(),
{
    if s.len() == 0 {
        Seq::empty()
    } else {
        words_le(s.drop_last()) + le32(s.last())
    }
}

/// A payload behind its length.
pub open spec fn counted_words(s: Seq<u32>) -> Seq<u8> {
    le64(s.len() as u64) + words_le(s)
}

/// UTF-8 bytes of a string.
pub open spec fn utf8_of(s: String) -> Seq<u8> {
    vstd::utf8::encode_utf8(s@)
}

/// A flag as one byte.
pub open spec fn flag_byte(b: bool) -> u8 {
    if b { 1 } else { 0 }
}

/// One field of a canonical record.
pub enum EncodedField {
    /// A `u64`, as eight little-endian bytes.
    Word64(u64),
    /// A `u32` (or `f32` bit pattern), as four little-endian bytes.
    Word32(u32),
    /// A payload of `u32` words behind its length.
    Words(Seq<u32>),
    /// A byte string behind its length.
    Text(Seq<u8>),
    /// A flag, as one byte.
    Flag(bool),
}

/// The bytes of one field.
pub open spec fn field_bytes(t: EncodedField) -> Seq<u8> {
    match t {
        EncodedField::Word64(x) => le64(x),
        EncodedField::Word32(x) => le32(x),
        EncodedField::Words(s) => counted_words(s),
        EncodedField::Text(b) => le64(b.len() as u64) + b,
        EncodedField::Flag(b) => seq![flag_byte(b)],
    }
}

/// The fields of a record, first to last.
pub enum FieldList {
    Nil,
    Cons(EncodedField, Box<FieldList>),
}

/// `head` in front of `tail`.
pub open spec fn cons(head: EncodedField, tail: FieldList) -> FieldList {
    FieldList::Cons(head, Box::new(tail))
}

/// The bytes of a record: its fields' bytes in order.
pub open spec fn fields_bytes(l: FieldList) -> Seq<u8>
    decreases l,
{
    match l {
        FieldList::Nil => Seq::empty(),
        FieldList::Cons(h, t) => field_bytes(h) + fields_bytes(*t),
    }
}

/// The fields of a runtime frame, in canonical order.
pub open spec fn frame_fields(f: StructuralRuntimeFrame) -> FieldList {
    let cs = f.continuity_snapshot;
    let em = f.emergence_state;
    let rs = f.resonance_snapshot;
    let cv = f.convergence_state;
    let ri = f.replay_identity;
    let seal = f.determinism_seal;
    let sig = seal.platform_signature;
    cons(EncodedField::Word64(f.frame_sequence),
    cons(EncodedField::Word64(f.originating_tick),
    cons(EncodedField::Word64(f.runtime_epoch),
    cons(EncodedField::Word64(f.topology_generation),
    cons(EncodedField::Word64(cs.epoch),
    cons(EncodedField::Word64(cs.realization_sequence_index),
    cons(EncodedField::Word64(cs.originating_tick),
    cons(EncodedField::Word64(cs.snapshot_identity.continuity_epoch),
    cons(EncodedField::Word64(cs.snapshot_identity.originating_tick),
    cons(EncodedField::Word64(cs.snapshot_identity.realization_sequence_index),
    cons(EncodedField::Words(cs.continuity@),
    cons(EncodedField::Word32(em.emergence_score),
    cons(EncodedField::Word32(em.resonance_factor),
    cons(EncodedField::Word32(em.stabilization_factor),
    cons(EncodedField::Word32(em.convergence_factor),
    cons(EncodedField::Word64(rs.epoch),
    cons(EncodedField::Words(rs.resonance@),
    cons(EncodedField::Word32(cv.continuity_pressure),
    cons(EncodedField::Word32(cv.reinforcement_pressure),
    cons(EncodedField::Word32(cv.resonance_pressure),
    cons(EncodedField::Word32(cv.stabilization_pressure),
    cons(EncodedField::Words(f.persistence_snapshot@),
    cons(EncodedField::Word64(ri.frame_sequence),
    cons(EncodedField::Word64(ri.originating_tick),
    cons(EncodedField::Word64(ri.deterministic_hash_seed),
    cons(EncodedField::Word64(seal.runtime_hash),
    cons(EncodedField::Word64(seal.frame_hash),
    cons(EncodedField::Word64(seal.replay_hash),
    cons(EncodedField::Word64(seal.policy_hash),
    cons(EncodedField::Text(utf8_of(sig.architecture)),
    cons(EncodedField::Text(utf8_of(sig.compiler_version)),
    cons(EncodedField::Word64(sig.float_policy_hash),
    cons(EncodedField::Word64(sig.simd_policy_hash),
    cons(EncodedField::Word64(sig.runtime_policy_hash),
    cons(EncodedField::Flag(f.canonical_numeric_state),
    cons(EncodedField::Flag(f.replay_exactness_verified),
    FieldList::Nil))))))))))))))))))))))))))))))))))))
}

/// The canonical bytes of a runtime frame.
pub open spec fn frame_bytes(f: StructuralRuntimeFrame) -> Seq<u8> {
    fields_bytes(frame_fields(f))
}

/// The canonical bytes of each frame of `s`, concatenated in order.
pub open spec fn frames_bytes(s: Seq<StructuralRuntimeFrame>) -> Seq<u8>
    decreases s.len(),
{
    if s.len() == 0 {
        Seq::empty()
    } else {
        frames_bytes(s.drop_last()) + frame_bytes(s.last())
    }
}

/// The canonical bytes of a replay identity.
pub open spec fn identity_bytes(id: RuntimeFrameIdentity) -> Seq<u8> {
    le64(id.frame_sequence) + le64(id.originating_tick) + le64(id.deterministic_hash_seed)
}

/// The canonical bytes of a replay snapshot.
pub open spec fn snapshot_bytes(s: RuntimeReplaySnapshot) -> Seq<u8> {
    le64(s.replay_epoch) + le64(s.sealed_frames@.len() as u64) + frames_bytes(s.sealed_frames@)
        + identity_bytes(s.replay_identity)
}

/// The canonical bytes of a replay buffer.
pub open spec fn replay_bytes(b: RuntimeReplayBuffer) -> Seq<u8> {
    le64(b.epoch()) + le64(b.frame_count()) + le64(b@.len() as u64) + frames_bytes(b@)
}

fn put_u64(bytes: &mut Vec<u8>, x: u64)
    ensures
        final(bytes)@ == old(bytes)@ + le64(x),
{
    let mut b = u64_to_le_bytes(x);
    bytes.append(&mut b);
}

fn put_u32(bytes: &mut Vec<u8>, x: u32)
    ensures
        final(bytes)@ == old(bytes)@ + le32(x),
{
    let mut b = u32_to_le_bytes(x);
    bytes.append(&mut b);
}

fn put_words(bytes: &mut Vec<u8>, w: &Vec<u32>)
    ensures
        final(bytes)@ == old(bytes)@ + counted_words(w@),
{
    put_u64(bytes, w.len() as u64);
    let ghost start = bytes@;
    let mut i: usize = 0;
    while i < w.len()
        invariant
            i <= w@.len(),
            bytes@ == start + words_le(w@.take(i as int)),
        decreases w@.len() - i,
    {
        put_u32(bytes, w[i]);
        proof {
            assert(w@.take(i + 1).drop_last() =~= w@.take(i as int));
        }
        i += 1;
    }
    assert(w@.take(i as int) =~= w@);
}

fn put_text(bytes: &mut Vec<u8>, s: &String)
    ensures
        final(bytes)@ == old(bytes)@ + le64(utf8_of(*s).len() as u64) + utf8_of(*s),
{
    let mut b = s.as_str().as_bytes_vec();
    put_u64(bytes, b.len() as u64);
    bytes.append(&mut b);
}

/// The first field of a non-empty list.
pub open spec fn head_of(l: FieldList) -> EncodedField {
    match l {
        FieldList::Cons(h, _) => h,
        FieldList::Nil => EncodedField::Flag(false),
    }
}

/// The fields after the first.
pub open spec fn tail_of(l: FieldList) -> FieldList {
    match l {
        FieldList::Cons(_, t) => *t,
        FieldList::Nil => FieldList::Nil,
    }
}

proof fn lemma_step(before: Seq<u8>, written: Seq<u8>, rest: FieldList, target: Seq<u8>)
    requires
        rest is Cons,
        field_bytes(head_of(rest)) == written,
        before + fields_bytes(rest) == target,
    ensures
        (before + written) + fields_bytes(tail_of(rest)) == target,
{
    assert((before + written) + fields_bytes(tail_of(rest)) =~= before + (written + fields_bytes(
        tail_of(rest),
    )));
}

fn put_field_u64(bytes: &mut Vec<u8>, x: u64, Ghost(rest): Ghost<FieldList>, Ghost(target): Ghost<Seq<u8>>) -> (next: Ghost<FieldList>)
    requires
        rest is Cons,
        head_of(rest) == EncodedField::Word64(x),
        old(bytes)@ + fields_bytes(rest) == target,
    ensures
        next@ == tail_of(rest),
        final(bytes)@ + fields_bytes(next@) == target,
{
    let ghost before = bytes@;
    put_u64(bytes, x);
    proof {
        lemma_step(before, le64(x), rest, target);
    }
    Ghost(tail_of(rest))
}

fn put_field_u32(bytes: &mut Vec<u8>, x: u32, Ghost(rest): Ghost<FieldList>, Ghost(target): Ghost<Seq<u8>>) -> (next: Ghost<FieldList>)
    requires
        rest is Cons,
        head_of(rest) == EncodedField::Word32(x),
        old(bytes)@ + fields_bytes(rest) == target,
    ensures
        next@ == tail_of(rest),
        final(bytes)@ + fields_bytes(next@) == target,
{
    let ghost before = bytes@;
    put_u32(bytes, x);
    proof {
        lemma_step(before, le32(x), rest, target);
    }
    Ghost(tail_of(rest))
}

fn put_field_words(bytes: &mut Vec<u8>, w: &Vec<u32>, Ghost(rest): Ghost<FieldList>, Ghost(target): Ghost<Seq<u8>>) -> (next: Ghost<FieldList>)
    requires
        rest is Cons,
        head_of(rest) == EncodedField::Words(w@),
        old(bytes)@ + fields_bytes(rest) == target,
    ensures
        next@ == tail_of(rest),
        final(bytes)@ + fields_bytes(next@) == target,
{
    let ghost before = bytes@;
    put_words(bytes, w);
    proof {
        lemma_step(before, counted_words(w@), rest, target);
    }
    Ghost(tail_of(rest))
}

fn put_field_text(bytes: &mut Vec<u8>, s: &String, Ghost(rest): Ghost<FieldList>, Ghost(target): Ghost<Seq<u8>>) -> (next: Ghost<FieldList>)
    requires
        rest is Cons,
        head_of(rest) == EncodedField::Text(utf8_of(*s)),
        old(bytes)@ + fields_bytes(rest) == target,
    ensures
        next@ == tail_of(rest),
        final(bytes)@ + fields_bytes(next@) == target,
{
    let ghost before = bytes@;
    put_text(bytes, s);
    proof {
        assert(bytes@ =~= before + (le64(utf8_of(*s).len() as u64) + utf8_of(*s)));
        lemma_step(before, le64(utf8_of(*s).len() as u64) + utf8_of(*s), rest, target);
    }
    Ghost(tail_of(rest))
}

fn put_field_flag(bytes: &mut Vec<u8>, b: bool, Ghost(rest): Ghost<FieldList>, Ghost(target): Ghost<Seq<u8>>) -> (next: Ghost<FieldList>)
    requires
        rest is Cons,
        head_of(rest) == EncodedField::Flag(b),
        old(bytes)@ + fields_bytes(rest) == target,
    ensures
        next@ == tail_of(rest),
        final(bytes)@ + fields_bytes(next@) == target,
{
    let ghost before = bytes@;
    bytes.push(if b { 1u8 } else { 0u8 });
    proof {
        assert(bytes@ =~= before + seq![flag_byte(b)]);
        lemma_step(before, seq![flag_byte(b)], rest, target);
    }
    Ghost(tail_of(rest))
}

/// The canonical bytes of `frame`.
pub fn canonicalize_runtime_frame_bytes(frame: &StructuralRuntimeFrame) -> (bytes: Vec<u8>)
    ensures
        bytes@ == frame_bytes(*frame),
{
    let mut bytes: Vec<u8> = Vec::new();
    let cs = &frame.continuity_snapshot;
    let em = &frame.emergence_state;
    let rs = &frame.resonance_snapshot;
    let cv = &frame.convergence_state;
    let ri = &frame.replay_identity;
    let seal = &frame.determinism_seal;
    let sig = &seal.platform_signature;
    let ghost target = frame_bytes(*frame);
    let ghost rest = frame_fields(*frame);
    assert(bytes@ + fields_bytes(rest) =~= target);
    // Frame header.
    let Ghost(rest) = put_field_u64(&mut bytes, frame.frame_sequence, Ghost(rest), Ghost(target));
    let Ghost(rest) = put_field_u64(&mut bytes, frame.originating_tick, Ghost(rest), Ghost(target));
    let Ghost(rest) = put_field_u64(&mut bytes, frame.runtime_epoch, Ghost(rest), Ghost(target));
    let Ghost(rest) = put_field_u64(&mut bytes, frame.topology_generation, Ghost(rest), Ghost(target));
    // Continuity snapshot, its identity, then its payload.
    let Ghost(rest) = put_field_u64(&mut bytes, cs.epoch, Ghost(rest), Ghost(target));
    let Ghost(rest) = put_field_u64(&mut bytes, cs.realization_sequence_index, Ghost(rest), Ghost(target));
    let Ghost(rest) = put_field_u64(&mut bytes, cs.originating_tick, Ghost(rest), Ghost(target));
    let Ghost(rest) = put_field_u64(&mut bytes, cs.snapshot_identity.continuity_epoch, Ghost(rest), Ghost(target));
    let Ghost(rest) = put_field_u64(&mut bytes, cs.snapshot_identity.originating_tick, Ghost(rest), Ghost(target));
    let Ghost(rest) = put_field_u64(&mut bytes, cs.snapshot_identity.realization_sequence_index, Ghost(rest), Ghost(target));
    let Ghost(rest) = put_field_words(&mut bytes, &cs.continuity, Ghost(rest), Ghost(target));
    // Emergence state.
    let Ghost(rest) = put_field_u32(&mut bytes, em.emergence_score, Ghost(rest), Ghost(target));
    let Ghost(rest) = put_field_u32(&mut bytes, em.resonance_factor, Ghost(rest), Ghost(target));
    let Ghost(rest) = put_field_u32(&mut bytes, em.stabilization_factor, Ghost(rest), Ghost(target));
    let Ghost(rest) = put_field_u32(&mut bytes, em.convergence_factor, Ghost(rest), Ghost(target));
    // Resonance snapshot.
    let Ghost(rest) = put_field_u64(&mut bytes, rs.epoch, Ghost(rest), Ghost(target));
    let Ghost(rest) = put_field_words(&mut bytes, &rs.resonance, Ghost(rest), Ghost(target));
    // Convergence state.
    let Ghost(rest) = put_field_u32(&mut bytes, cv.continuity_pressure, Ghost(rest), Ghost(target));
    let Ghost(rest) = put_field_u32(&mut bytes, cv.reinforcement_pressure, Ghost(rest), Ghost(target));
    let Ghost(rest) = put_field_u32(&mut bytes, cv.resonance_pressure, Ghost(rest), Ghost(target));
    let Ghost(rest) = put_field_u32(&mut bytes, cv.stabilization_pressure, Ghost(rest), Ghost(target));
    // Persistence snapshot.
    let Ghost(rest) = put_field_words(&mut bytes, frame.persistence_snapshot.values(), Ghost(rest), Ghost(target));
    // Replay identity.
    let Ghost(rest) = put_field_u64(&mut bytes, ri.frame_sequence, Ghost(rest), Ghost(target));
    let Ghost(rest) = put_field_u64(&mut bytes, ri.originating_tick, Ghost(rest), Ghost(target));
    let Ghost(rest) = put_field_u64(&mut bytes, ri.deterministic_hash_seed, Ghost(rest), Ghost(target));
    // Determinism seal and platform signature.
    let Ghost(rest) = put_field_u64(&mut bytes, seal.runtime_hash, Ghost(rest), Ghost(target));
    let Ghost(rest) = put_field_u64(&mut bytes, seal.frame_hash, Ghost(rest), Ghost(target));
    let Ghost(rest) = put_field_u64(&mut bytes, seal.replay_hash, Ghost(rest), Ghost(target));
    let Ghost(rest) = put_field_u64(&mut bytes, seal.policy_hash, Ghost(rest), Ghost(target));
    let Ghost(rest) = put_field_text(&mut bytes, &sig.architecture, Ghost(rest), Ghost(target));
    let Ghost(rest) = put_field_text(&mut bytes, &sig.compiler_version, Ghost(rest), Ghost(target));
    let Ghost(rest) = put_field_u64(&mut bytes, sig.float_policy_hash, Ghost(rest), Ghost(target));
    let Ghost(rest) = put_field_u64(&mut bytes, sig.simd_policy_hash, Ghost(rest), Ghost(target));
    let Ghost(rest) = put_field_u64(&mut bytes, sig.runtime_policy_hash, Ghost(rest), Ghost(target));
    // Flags.
    let Ghost(rest) = put_field_flag(&mut bytes, frame.canonical_numeric_state, Ghost(rest), Ghost(target));
    let Ghost(rest) = put_field_flag(&mut bytes, frame.replay_exactness_verified, Ghost(rest), Ghost(target));
    assert(bytes@ =~= bytes@ + fields_bytes(rest));
    bytes
}

fn put_frames(bytes: &mut Vec<u8>, frames: &[StructuralRuntimeFrame])
    ensures
        final(bytes)@ == old(bytes)@ + le64(frames@.len() as u64) + frames_bytes(frames@),
{
    put_u64(bytes, frames.len() as u64);
    let ghost start = bytes@;
    let mut i: usize = 0;
    while i < frames.len()
        invariant
            i <= frames@.len(),
            bytes@ == start + frames_bytes(frames@.take(i as int)),
        decreases frames@.len() - i,
    {
        let mut b = canonicalize_runtime_frame_bytes(&frames[i]);
        bytes.append(&mut b);
        proof {
            assert(frames@.take(i + 1).drop_last() =~= frames@.take(i as int));
        }
        i += 1;
    }
    assert(frames@.take(i as int) =~= frames@);
}

/// The canonical bytes of a replay snapshot: its epoch, its frames behind
/// their count, then its replay identity.
pub fn canonicalize_snapshot_bytes(snapshot: &RuntimeReplaySnapshot) -> (bytes: Vec<u8>)
    ensures
        bytes@ == snapshot_bytes(*snapshot),
{
    let mut bytes: Vec<u8> = Vec::new();
    put_u64(&mut bytes, snapshot.replay_epoch);
    put_frames(&mut bytes, snapshot.sealed_frames.as_slice());
    put_u64(&mut bytes, snapshot.replay_identity.frame_sequence);
    put_u64(&mut bytes, snapshot.replay_identity.originating_tick);
    put_u64(&mut bytes, snapshot.replay_identity.deterministic_hash_seed);
    assert(bytes@ =~= snapshot_bytes(*snapshot));
    bytes
}

/// The canonical bytes of a replay buffer: its epoch, its frame count, then
/// its frames behind their number.
pub fn canonicalize_replay_bytes(replay: &RuntimeReplayBuffer) -> (bytes: Vec<u8>)
    ensures
        bytes@ == replay_bytes(*replay),
{
    let mut bytes: Vec<u8> = Vec::new();
    put_u64(&mut bytes, replay.replay_epoch());
    put_u64(&mut bytes, replay.canonical_frame_count());
    put_frames(&mut bytes, replay.frames());
    assert(bytes@ =~= replay_bytes(*replay));
    bytes
}

/// Whether two frame sequences have the same length and the same frame
/// sequence number at every position.
pub open spec fn same_sequence_numbers(a: Seq<StructuralRuntimeFrame>, b: Seq<StructuralRuntimeFrame>) -> bool {
    a.len() == b.len() && forall|i: int| 0 <= i < a.len() ==> #[trigger] a[i].frame_sequence == b[i].frame_sequence
}

/// Compare two frames: canonical bytes, hash seed and frame sequence.
pub fn verify_runtime_frame_exactness(a: &StructuralRuntimeFrame, b: &StructuralRuntimeFrame) -> (r: ReplayExactnessReport)
    ensures
        r.byte_equivalent == (frame_bytes(*a) == frame_bytes(*b)),
        r.deterministic_hash_match == (a.replay_identity.deterministic_hash_seed
            == b.replay_identity.deterministic_hash_seed),
        r.frame_sequence_match == (a.frame_sequence == b.frame_sequence),
        r.divergence_detected == !(r.byte_equivalent && r.deterministic_hash_match
            && r.frame_sequence_match),
{
    let bytes_a = canonicalize_runtime_frame_bytes(a);
    let bytes_b = canonicalize_runtime_frame_bytes(b);
    let byte_equivalent = verify_byte_replay_equivalence(bytes_a.as_slice(), bytes_b.as_slice());
    let deterministic_hash_match = a.replay_identity.deterministic_hash_seed
        == b.replay_identity.deterministic_hash_seed;
    let frame_sequence_match = a.frame_sequence == b.frame_sequence;
    ReplayExactnessReport::from_checks(byte_equivalent, deterministic_hash_match, frame_sequence_match)
}

/// Compare two replay snapshots: canonical bytes, hash seed of the replay
/// identity, and the frame sequence numbers position by position.
pub fn verify_snapshot_exactness(a: &RuntimeReplaySnapshot, b: &RuntimeReplaySnapshot) -> (r: ReplayExactnessReport)
    ensures
        r.byte_equivalent == (snapshot_bytes(*a) == snapshot_bytes(*b)),
        r.deterministic_hash_match == (a.replay_identity.deterministic_hash_seed
            == b.replay_identity.deterministic_hash_seed),
        r.frame_sequence_match == same_sequence_numbers(a.sealed_frames@, b.sealed_frames@),
        r.divergence_detected == !(r.byte_equivalent && r.deterministic_hash_match
            && r.frame_sequence_match),
{
    let bytes_a = canonicalize_snapshot_bytes(a);
    let bytes_b = canonicalize_snapshot_bytes(b);
    let byte_equivalent = verify_byte_replay_equivalence(bytes_a.as_slice(), bytes_b.as_slice());
    let deterministic_hash_match = a.replay_identity.deterministic_hash_seed
        == b.replay_identity.deterministic_hash_seed;
    let mut frame_sequence_match = a.sealed_frames.len() == b.sealed_frames.len();
    if frame_sequence_match {
        let n = a.sealed_frames.len();
        let mut i: usize = 0;
        while i < n
            invariant
                n == a.sealed_frames@.len(),
                n == b.sealed_frames@.len(),
                i <= n,
                frame_sequence_match == forall|j: int| 0 <= j < i ==> #[trigger] a.sealed_frames@[j].frame_sequence
                    == b.sealed_frames@[j].frame_sequence,
            decreases n - i,
        {
            if a.sealed_frames[i].frame_sequence != b.sealed_frames[i].frame_sequence {
                frame_sequence_match = false;
            }
            i += 1;
        }
    }
    ReplayExactnessReport::from_checks(byte_equivalent, deterministic_hash_match, frame_sequence_match)
}

// ---------------------------------------------------------------------
// The encoding is canonical: equal bytes exactly for equal content
// ---------------------------------------------------------------------

/// Two fields of the same kind.
pub open spec fn same_kind(a: EncodedField, b: EncodedField) -> bool {
    match (a, b) {
        (EncodedField::Word64(_), EncodedField::Word64(_)) => true,
        (EncodedField::Word32(_), EncodedField::Word32(_)) => true,
        (EncodedField::Words(_), EncodedField::Words(_)) => true,
        (EncodedField::Text(_), EncodedField::Text(_)) => true,
        (EncodedField::Flag(_), EncodedField::Flag(_)) => true,
        _ => false,
    }
}

/// A field whose length, if it has one, fits in the `u64` written before it.
pub open spec fn field_fits(t: EncodedField) -> bool {
    match t {
        EncodedField::Words(s) => s.len() <= u64::MAX,
        EncodedField::Text(b) => b.len() <= u64::MAX,
        _ => true,
    }
}

/// Two records with fields of the same kinds, position by position, whose
/// lengths fit.
pub open spec fn same_layout(a: FieldList, b: FieldList) -> bool
    decreases a,
{
    match (a, b) {
        (FieldList::Nil, FieldList::Nil) => true,
        (FieldList::Cons(ha, ta), FieldList::Cons(hb, tb)) => same_kind(ha, hb) && field_fits(ha)
            && field_fits(hb) && same_layout(*ta, *tb),
        _ => false,
    }
}

proof fn lemma_split(x1: Seq<u8>, r1: Seq<u8>, x2: Seq<u8>, r2: Seq<u8>)
    requires
        x1.len() == x2.len(),
        x1 + r1 == x2 + r2,
    ensures
        x1 == x2,
        r1 == r2,
{
    assert(x1 =~= (x1 + r1).subrange(0, x1.len() as int));
    assert(x2 =~= (x2 + r2).subrange(0, x2.len() as int));
    assert(r1 =~= (x1 + r1).subrange(x1.len() as int, (x1 + r1).len() as int));
    assert(r2 =~= (x2 + r2).subrange(x2.len() as int, (x2 + r2).len() as int));
}

proof fn lemma_words_len(s: Seq<u32>)
    ensures
        words_le(s).len() == 4 * s.len(),
    decreases s.len(),
{
    vstd::bytes::lemma_auto_spec_u32_to_from_le_bytes();
    if s.len() > 0 {
        lemma_words_len(s.drop_last());
    }
}

proof fn lemma_words_injective(s1: Seq<u32>, s2: Seq<u32>)
    requires
        s1.len() == s2.len(),
        words_le(s1) == words_le(s2),
    ensures
        s1 == s2,
    decreases s1.len(),
{
    vstd::bytes::lemma_auto_spec_u32_to_from_le_bytes();
    if s1.len() > 0 {
        lemma_words_len(s1.drop_last());
        lemma_words_len(s2.drop_last());
        lemma_split(words_le(s1.drop_last()), le32(s1.last()), words_le(s2.drop_last()), le32(s2.last()));
        lemma_words_injective(s1.drop_last(), s2.drop_last());
        assert(s1.last() == s2.last());
        assert(s1 =~= s1.drop_last().push(s1.last()));
        assert(s2 =~= s2.drop_last().push(s2.last()));
    }
    assert(s1 =~= s2);
}

proof fn lemma_counted_front(n1: u64, b1: Seq<u8>, r1: Seq<u8>, n2: u64, b2: Seq<u8>, r2: Seq<u8>)
    requires
        (le64(n1) + b1) + r1 == (le64(n2) + b2) + r2,
    ensures
        n1 == n2,
        b1 + r1 == b2 + r2,
{
    vstd::bytes::lemma_auto_spec_u64_to_from_le_bytes();
    assert((le64(n1) + b1) + r1 =~= le64(n1) + (b1 + r1));
    assert((le64(n2) + b2) + r2 =~= le64(n2) + (b2 + r2));
    lemma_split(le64(n1), b1 + r1, le64(n2), b2 + r2);
}

proof fn lemma_field_front(a: EncodedField, b: EncodedField, r1: Seq<u8>, r2: Seq<u8>)
    requires
        same_kind(a, b),
        field_fits(a),
        field_fits(b),
        field_bytes(a) + r1 == field_bytes(b) + r2,
    ensures
        a == b,
        r1 == r2,
{
    vstd::bytes::lemma_auto_spec_u64_to_from_le_bytes();
    vstd::bytes::lemma_auto_spec_u32_to_from_le_bytes();
    match (a, b) {
        (EncodedField::Word64(x), EncodedField::Word64(y)) => {
            lemma_split(le64(x), r1, le64(y), r2);
        },
        (EncodedField::Word32(x), EncodedField::Word32(y)) => {
            lemma_split(le32(x), r1, le32(y), r2);
        },
        (EncodedField::Words(s1), EncodedField::Words(s2)) => {
            lemma_counted_front(s1.len() as u64, words_le(s1), r1, s2.len() as u64, words_le(s2), r2);
            lemma_words_len(s1);
            lemma_words_len(s2);
            lemma_split(words_le(s1), r1, words_le(s2), r2);
            lemma_words_injective(s1, s2);
        },
        (EncodedField::Text(t1), EncodedField::Text(t2)) => {
            lemma_counted_front(t1.len() as u64, t1, r1, t2.len() as u64, t2, r2);
            lemma_split(t1, r1, t2, r2);
        },
        (EncodedField::Flag(x), EncodedField::Flag(y)) => {
            lemma_split(seq![flag_byte(x)], r1, seq![flag_byte(y)], r2);
            assert(seq![flag_byte(x)][0] == seq![flag_byte(y)][0]);
        },
        _ => {},
    }
}

/// Records of the same layout with equal bytes are equal.
pub proof fn lemma_fields_injective(a: FieldList, b: FieldList)
    requires
        same_layout(a, b),
        fields_bytes(a) == fields_bytes(b),
    ensures
        a == b,
    decreases a,
{
    match (a, b) {
        (FieldList::Cons(ha, ta), FieldList::Cons(hb, tb)) => {
            lemma_field_front(ha, hb, fields_bytes(*ta), fields_bytes(*tb));
            lemma_fields_injective(*ta, *tb);
        },
        _ => {},
    }
}

/// Both texts of a frame's platform signature are shorter than `2^64` bytes.
pub open spec fn frame_texts_fit(f: StructuralRuntimeFrame) -> bool {
    &&& utf8_of(f.determinism_seal.platform_signature.architecture).len() <= u64::MAX
    &&& utf8_of(f.determinism_seal.platform_signature.compiler_version).len() <= u64::MAX
}

/// The canonical encoding identifies frames: two frames have the same
/// canonical bytes exactly when they hold the same data, field for field,
/// with numeric payloads compared bit for bit and texts character for
/// character.
pub proof fn lemma_frame_bytes_canonical(a: StructuralRuntimeFrame, b: StructuralRuntimeFrame)
    requires
        frame_texts_fit(a),
        frame_texts_fit(b),
    ensures
        (frame_bytes(a) == frame_bytes(b)) == same_frame_data(a, b),
{
    broadcast use vstd::std_specs::vec::axiom_spec_len;
    assert(a.continuity_snapshot.continuity.len() == a.continuity_snapshot.continuity@.len());
    assert(b.continuity_snapshot.continuity.len() == b.continuity_snapshot.continuity@.len());
    assert(a.resonance_snapshot.resonance.len() == a.resonance_snapshot.resonance@.len());
    assert(b.resonance_snapshot.resonance.len() == b.resonance_snapshot.resonance@.len());
    a.persistence_snapshot.lemma_len_fits();
    b.persistence_snapshot.lemma_len_fits();
    let sa = a.determinism_seal.platform_signature;
    let sb = b.determinism_seal.platform_signature;
    if frame_bytes(a) == frame_bytes(b) {
        reveal_with_fuel(same_layout, 40);
        assert(same_layout(frame_fields(a), frame_fields(b)));
        lemma_fields_injective(frame_fields(a), frame_fields(b));
        vstd::utf8::encode_utf8_decode_utf8(sa.architecture@);
        vstd::utf8::encode_utf8_decode_utf8(sb.architecture@);
        vstd::utf8::encode_utf8_decode_utf8(sa.compiler_version@);
        vstd::utf8::encode_utf8_decode_utf8(sb.compiler_version@);
        assert(utf8_of(sa.architecture) == utf8_of(sb.architecture));
        assert(utf8_of(sa.compiler_version) == utf8_of(sb.compiler_version));
    }
    if same_frame_data(a, b) {
        assert(utf8_of(sa.architecture) == utf8_of(sb.architecture));
        assert(utf8_of(sa.compiler_version) == utf8_of(sb.compiler_version));
        assert(frame_fields(a) == frame_fields(b));
    }
}

} // verus!
