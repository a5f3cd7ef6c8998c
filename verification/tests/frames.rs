use mirage_kernel::canonical::{
    canonicalize_replay_bytes, canonicalize_runtime_frame_bytes, canonicalize_snapshot_bytes,
    verify_runtime_frame_exactness, verify_snapshot_exactness,
};
use mirage_kernel::history::{EmergenceHistoryBuffer, EmergenceRealizationFrame};
use mirage_kernel::replay::{EmergenceProvenance, RuntimeFrameIdentity};
use mirage_kernel::runtime_frame::{
    f32_bits_clamp, f32_bits_equal, f32_bits_greater_eq, ContinuitySnapshot,
    EmergenceResonanceSnapshot, EmergenceThresholdDescriptor,
    PlatformDeterminismSignature, RuntimeDeterminismSeal, RuntimeFrameSequence,
    RuntimeReplayBuffer, StructuralConvergenceState, StructuralEmergenceState,
    StructuralPersistenceField, StructuralRuntimeFrame,
};
use mirage_kernel::structural_replay::{
    StructuralReplayBuffer, StructuralReplayFrame, StructuralReplaySnapshot,
};

fn b(x: f32) -> u32 {
    x.to_bits()
}

fn test_seal() -> RuntimeDeterminismSeal {
    RuntimeDeterminismSeal {
        runtime_hash: 1,
        frame_hash: 2,
        replay_hash: 3,
        policy_hash: 4,
        platform_signature: PlatformDeterminismSignature {
            architecture: "x86_64".to_string(),
            compiler_version: "rustc-1.78.0".to_string(),
            float_policy_hash: 10,
            simd_policy_hash: 20,
            runtime_policy_hash: 30,
        },
    }
}

fn unknown_seal() -> RuntimeDeterminismSeal {
    RuntimeDeterminismSeal {
        runtime_hash: 0,
        frame_hash: 0,
        replay_hash: 0,
        policy_hash: 0,
        platform_signature: PlatformDeterminismSignature {
            architecture: "unknown".to_string(),
            compiler_version: "unknown".to_string(),
            float_policy_hash: 0,
            simd_policy_hash: 0,
            runtime_policy_hash: 0,
        },
    }
}

/// The frame of the serialization tests: small non-empty payloads.
fn payload_frame(seq: u64, tick: u64, seed: u64) -> StructuralRuntimeFrame {
    StructuralRuntimeFrame {
        frame_sequence: seq,
        originating_tick: tick,
        runtime_epoch: 0,
        topology_generation: 0,
        continuity_snapshot: ContinuitySnapshot::new(0, vec![b(0.5), b(0.75)]),
        emergence_state: StructuralEmergenceState::new(b(0.1), b(0.2), b(0.3), b(0.4)),
        resonance_snapshot: EmergenceResonanceSnapshot { epoch: 0, resonance: vec![b(0.9)] },
        convergence_state: StructuralConvergenceState::compute_convergence(b(0.5), b(0.5), b(0.5), b(0.5)),
        persistence_snapshot: {
            let mut p = StructuralPersistenceField::new(2);
            p.set(0, b(0.2));
            p.set(1, b(0.4));
            p
        },
        replay_identity: RuntimeFrameIdentity { frame_sequence: seq, originating_tick: tick, deterministic_hash_seed: seed },
        determinism_seal: test_seal(),
        canonical_numeric_state: true,
        replay_exactness_verified: true,
    }
}

/// The frame of the exactness tests: empty payloads.
fn empty_frame(seq: u64, tick: u64, seed: u64) -> StructuralRuntimeFrame {
    StructuralRuntimeFrame {
        frame_sequence: seq,
        originating_tick: tick,
        runtime_epoch: 0,
        topology_generation: 0,
        continuity_snapshot: ContinuitySnapshot::new(0, vec![]),
        emergence_state: StructuralEmergenceState::new(b(0.0), b(0.0), b(0.0), b(0.0)),
        resonance_snapshot: EmergenceResonanceSnapshot { epoch: 0, resonance: vec![] },
        convergence_state: StructuralConvergenceState::compute_convergence(b(0.0), b(0.0), b(0.0), b(0.0)),
        persistence_snapshot: StructuralPersistenceField::new(0),
        replay_identity: RuntimeFrameIdentity { frame_sequence: seq, originating_tick: tick, deterministic_hash_seed: seed },
        determinism_seal: test_seal(),
        canonical_numeric_state: true,
        replay_exactness_verified: true,
    }
}

/// The frame of the ordering and buffer tests.
fn dummy_frame(frame_sequence: u64, originating_tick: u64) -> StructuralRuntimeFrame {
    let mut f = empty_frame(frame_sequence, originating_tick, 0);
    f.determinism_seal = unknown_seal();
    f
}

#[test]
fn canonical_byte_order() {
    let f1 = payload_frame(1, 100, 42);
    let bytes = canonicalize_runtime_frame_bytes(&f1);
    assert!(!bytes.is_empty());
}

#[test]
fn deterministic_serialization() {
    let f1 = payload_frame(1, 100, 42);
    let f2 = payload_frame(1, 100, 42);
    assert_eq!(canonicalize_runtime_frame_bytes(&f1), canonicalize_runtime_frame_bytes(&f2));
}

#[test]
fn identical_replay_bytes() {
    let f1 = payload_frame(1, 100, 42);
    let f2 = payload_frame(2, 200, 43);
    let mut replay1 = RuntimeReplayBuffer::new(5);
    replay1.push_frame(f1.clone());
    replay1.push_frame(f2.clone());
    let mut replay2 = RuntimeReplayBuffer::new(5);
    replay2.push_frame(f1);
    replay2.push_frame(f2);
    assert_eq!(canonicalize_replay_bytes(&replay1), canonicalize_replay_bytes(&replay2));
}

#[test]
fn stable_frame_encoding() {
    let f = payload_frame(99, 999, 12345);
    let bytes = canonicalize_runtime_frame_bytes(&f);
    assert_eq!(bytes[0..8], 99u64.to_le_bytes());
}

#[test]
fn byte_exact_replay() {
    let f1 = empty_frame(1, 100, 42);
    let f2 = empty_frame(1, 100, 42);
    let report = verify_runtime_frame_exactness(&f1, &f2);
    assert!(report.byte_equivalent);
    assert!(!report.divergence_detected);
}

#[test]
fn canonical_serialization_equivalence() {
    let f1 = empty_frame(1, 100, 42);
    let f2 = empty_frame(1, 100, 42);
    assert_eq!(canonicalize_runtime_frame_bytes(&f1), canonicalize_runtime_frame_bytes(&f2));
}

#[test]
fn deterministic_hash_equivalence() {
    let f1 = empty_frame(1, 100, 42);
    let f2 = empty_frame(1, 100, 42);
    assert!(verify_runtime_frame_exactness(&f1, &f2).deterministic_hash_match);
}

#[test]
fn divergence_detection() {
    let f1 = empty_frame(1, 100, 42);
    let f2 = empty_frame(1, 100, 99);
    let report = verify_runtime_frame_exactness(&f1, &f2);
    assert!(report.divergence_detected);
    assert!(!report.deterministic_hash_match);
}

#[test]
fn deterministic_frame_ordering() {
    let frame1 = dummy_frame(1, 100);
    let frame2 = dummy_frame(1, 200);
    let frame3 = dummy_frame(2, 50);
    let mut seq = RuntimeFrameSequence::new(vec![frame2.clone(), frame3.clone(), frame1.clone()]);
    seq.stable_sort();
    assert_eq!(seq.frame_at(0).unwrap().frame_sequence, 1);
    assert_eq!(seq.frame_at(0).unwrap().originating_tick, 100);
    assert_eq!(seq.frame_at(1).unwrap().frame_sequence, 1);
    assert_eq!(seq.frame_at(1).unwrap().originating_tick, 200);
    assert_eq!(seq.frame_at(2).unwrap().frame_sequence, 2);
    assert_eq!(seq.frame_at(2).unwrap().originating_tick, 50);
}

#[test]
fn runtime_frame_equality() {
    assert_eq!(dummy_frame(1, 10), dummy_frame(1, 10));
}

#[test]
fn stable_frame_sorting() {
    let f1 = dummy_frame(2, 10);
    let f2 = dummy_frame(1, 20);
    let mut seq = RuntimeFrameSequence::new(vec![f1.clone(), f2.clone()]);
    seq.stable_sort();
    assert_eq!(seq.frame_at(0).unwrap().frame_sequence, 1);
    assert_eq!(seq.frame_at(1).unwrap().frame_sequence, 2);
}

#[test]
fn replay_equivalent_frames() {
    assert_eq!(dummy_frame(5, 50), dummy_frame(5, 50));
}

#[test]
fn replay_buffer_determinism() {
    let mut buf1 = RuntimeReplayBuffer::new(1);
    let mut buf2 = RuntimeReplayBuffer::new(1);
    let frame1 = dummy_frame(1, 100);
    let frame2 = dummy_frame(2, 200);
    buf1.push_frame(frame1.clone());
    buf1.push_frame(frame2.clone());
    buf2.push_frame(frame1.clone());
    buf2.push_frame(frame2.clone());
    assert!(buf1.replay_equivalent(&buf2));
}

#[test]
fn replay_snapshot_equivalence() {
    let mut buf1 = RuntimeReplayBuffer::new(1);
    let mut buf2 = RuntimeReplayBuffer::new(1);
    let frame = dummy_frame(1, 100);
    buf1.push_frame(frame.clone());
    buf2.push_frame(frame.clone());
    let identity = RuntimeFrameIdentity { frame_sequence: 1, originating_tick: 100, deterministic_hash_seed: 42 };
    let snap1 = buf1.seal(identity);
    let snap2 = buf2.seal(identity);
    assert_eq!(snap1, snap2);
}

#[test]
fn insertion_order_stability() {
    let mut buf = RuntimeReplayBuffer::new(1);
    let f1 = dummy_frame(1, 10);
    let f2 = dummy_frame(2, 20);
    buf.push_frame(f1.clone());
    buf.push_frame(f2.clone());
    assert_eq!(buf.frame_at(0).unwrap(), &f1);
    assert_eq!(buf.frame_at(1).unwrap(), &f2);
}

#[test]
fn deterministic_replay_roundtrip() {
    let mut buf = RuntimeReplayBuffer::new(42);
    buf.push_frame(dummy_frame(1, 100));
    let identity = RuntimeFrameIdentity { frame_sequence: 1, originating_tick: 100, deterministic_hash_seed: 7 };
    let snapshot = buf.seal(identity);
    assert_eq!(snapshot.replay_epoch, 42);
    assert_eq!(snapshot.sealed_frames.len(), 1);
    assert_eq!(snapshot.replay_identity, identity);
}

#[test]
fn threshold_evaluation() {
    let state = StructuralEmergenceState::new(b(0.6), b(0.7), b(0.8), b(1.0));
    let desc = EmergenceThresholdDescriptor {
        emergence_threshold: b(0.5),
        resonance_threshold: b(0.6),
        stabilization_threshold: b(0.7),
    };
    assert!(desc.evaluate(&state));
}

#[test]
fn convergence_compute_normalizes() {
    let s = StructuralConvergenceState::compute_convergence(b(1.5), b(-0.2), b(0.5), b(0.6));
    let c = f32::from_bits(s.continuity_pressure);
    assert!(c <= 1.0 && c >= 0.0);
}

fn replay_snap() -> StructuralReplaySnapshot {
    StructuralReplaySnapshot {
        originating_tick: 1,
        realization_sequence_index: 0,
        continuity_epoch: 1,
        continuity_snapshot: ContinuitySnapshot::new(1, vec![b(0.0)]),
    }
}

#[test]
fn append_and_latest_and_range() {
    let mut buf = StructuralReplayBuffer::new();
    let frame = StructuralReplayFrame { replay_index: 0, snapshot: replay_snap() };
    buf.append_frame(frame.clone());
    assert!(buf.latest_frame().is_some());
    let r = buf.replay_range(0, 1);
    assert_eq!(r.len(), 1);
}

#[test]
fn replay_equivalence_true_false() {
    let mut a = StructuralReplayBuffer::new();
    let mut bb = StructuralReplayBuffer::new();
    let frame = StructuralReplayFrame { replay_index: 0, snapshot: replay_snap() };
    a.append_frame(frame.clone());
    bb.append_frame(frame.clone());
    assert!(a.replay_equivalence(&bb));
    bb.append_frame(StructuralReplayFrame { replay_index: 1, snapshot: replay_snap() });
    assert!(!a.replay_equivalence(&bb));
}

#[test]
fn history_buffer_overwrite_deterministic() {
    let mut buf = EmergenceHistoryBuffer::new(2);
    let s = StructuralEmergenceState::new(b(0.1), b(0.2), b(0.3), b(0.4));
    let p = EmergenceProvenance { originating_tick: 0, continuity_epoch: 0, resonance_sequence_index: 0, topology_generation: 0 };
    buf.push_frame(EmergenceRealizationFrame { tick: 1, epoch: 1, snapshot: s, provenance: p });
    buf.push_frame(EmergenceRealizationFrame { tick: 2, epoch: 2, snapshot: s, provenance: p });
    buf.push_frame(EmergenceRealizationFrame { tick: 3, epoch: 3, snapshot: s, provenance: p });
    assert_eq!(buf.len(), 2);
    assert_eq!(buf.latest().unwrap().epoch, 3);
}

// ---------------------------------------------------------------------
// Own checks: exact layout, canonicity, f32 semantics on bit patterns
// ---------------------------------------------------------------------

#[test]
fn frame_bytes_exact_layout() {
    let f = payload_frame(7, 8, 9);
    let bytes = canonicalize_runtime_frame_bytes(&f);
    // 10 header words, continuity (8 + 2*4), 4 emergence words, resonance
    // epoch + (8 + 4), 4 convergence words, persistence (8 + 2*4), 3 identity
    // words, 4 seal hashes, two texts (8 + 6, 8 + 12), 3 policy hashes, 2 flags.
    let expected_len = 80 + 16 + 16 + 8 + 12 + 16 + 16 + 24 + 32 + 14 + 20 + 24 + 2;
    assert_eq!(bytes.len(), expected_len);
    assert_eq!(bytes[8..16], 8u64.to_le_bytes());
    assert_eq!(bytes[80..88], 2u64.to_le_bytes());
    assert_eq!(bytes[88..92], 0.5f32.to_bits().to_le_bytes());
    assert_eq!(bytes[bytes.len() - 2..], [1u8, 1u8]);
    let arch_at = 80 + 16 + 16 + 8 + 12 + 16 + 16 + 24 + 32;
    assert_eq!(bytes[arch_at..arch_at + 8], 6u64.to_le_bytes());
    assert_eq!(&bytes[arch_at + 8..arch_at + 14], b"x86_64");
}

#[test]
fn frame_bytes_differ_for_any_field() {
    let base = payload_frame(1, 100, 42);
    let base_bytes = canonicalize_runtime_frame_bytes(&base);
    let mut g = payload_frame(1, 100, 42);
    g.persistence_snapshot.set(1, b(0.41));
    assert_ne!(canonicalize_runtime_frame_bytes(&g), base_bytes);
    let mut h = payload_frame(1, 100, 42);
    h.determinism_seal.platform_signature.architecture = "x86_65".to_string();
    assert_ne!(canonicalize_runtime_frame_bytes(&h), base_bytes);
    let mut k = payload_frame(1, 100, 42);
    k.replay_exactness_verified = false;
    assert_ne!(canonicalize_runtime_frame_bytes(&k), base_bytes);
}

#[test]
fn signed_zero_frames_are_equal_but_encode_differently() {
    let f = empty_frame(1, 1, 1);
    let mut g = empty_frame(1, 1, 1);
    g.emergence_state.emergence_score = b(-0.0);
    assert_eq!(f, g);
    let report = verify_runtime_frame_exactness(&f, &g);
    assert!(!report.byte_equivalent);
    assert!(report.divergence_detected);
}

#[test]
fn nan_frame_is_not_equal_to_itself() {
    let mut f = empty_frame(1, 1, 1);
    f.convergence_state.resonance_pressure = f32::NAN.to_bits();
    let g = f.clone();
    assert!(f != g);
    assert!(verify_runtime_frame_exactness(&f, &g).byte_equivalent);
}

#[test]
fn snapshot_exactness_checks_sequence_numbers() {
    let mut buf = RuntimeReplayBuffer::new(3);
    buf.push_frame(dummy_frame(1, 10));
    buf.push_frame(dummy_frame(2, 20));
    let id = RuntimeFrameIdentity { frame_sequence: 2, originating_tick: 20, deterministic_hash_seed: 5 };
    let a = buf.seal(id);
    let mut other = RuntimeReplayBuffer::new(3);
    other.push_frame(dummy_frame(1, 10));
    other.push_frame(dummy_frame(3, 20));
    let c = other.seal(id);
    let same = verify_snapshot_exactness(&a, &buf.seal(id));
    assert!(same.byte_equivalent && same.frame_sequence_match && !same.divergence_detected);
    let diff = verify_snapshot_exactness(&a, &c);
    assert!(!diff.frame_sequence_match && !diff.byte_equivalent && diff.deterministic_hash_match);
    let bytes = canonicalize_snapshot_bytes(&a);
    assert_eq!(bytes[0..8], 3u64.to_le_bytes());
    assert_eq!(bytes[8..16], 2u64.to_le_bytes());
}

#[test]
fn replay_bytes_header_and_clear() {
    let mut buf = RuntimeReplayBuffer::new(9);
    buf.push_frame(dummy_frame(1, 10));
    let bytes = canonicalize_replay_bytes(&buf);
    assert_eq!(bytes[0..8], 9u64.to_le_bytes());
    assert_eq!(bytes[8..16], 1u64.to_le_bytes());
    assert_eq!(bytes[16..24], 1u64.to_le_bytes());
    assert_eq!(bytes.len(), 24 + canonicalize_runtime_frame_bytes(&dummy_frame(1, 10)).len());
    assert_eq!(buf.latest().unwrap().frame_sequence, 1);
    buf.clear();
    assert_eq!(buf.canonical_frame_count, 0);
    assert!(buf.latest().is_none() && buf.frames().is_empty());
}

#[test]
fn f32_bit_semantics() {
    assert!(f32_bits_equal(b(0.0), b(-0.0)));
    assert!(!f32_bits_equal(f32::NAN.to_bits(), f32::NAN.to_bits()));
    assert!(f32_bits_equal(b(1.25), b(1.25)) && !f32_bits_equal(b(1.25), b(1.5)));
    for (x, y) in [(0.5f32, 0.25f32), (-1.0, 2.0), (-3.0, -2.0), (0.0, -0.0), (f32::INFINITY, 1.0e30)] {
        assert_eq!(f32_bits_greater_eq(b(x), b(y)), x >= y);
        assert_eq!(f32_bits_greater_eq(b(y), b(x)), y >= x);
    }
    assert!(!f32_bits_greater_eq(f32::NAN.to_bits(), b(0.0)));
    for x in [1.5f32, -0.2, 0.3, 1.0, -0.0, f32::INFINITY, f32::NEG_INFINITY] {
        assert_eq!(f32_bits_clamp(b(x)), b(x.clamp(0.0, 1.0)));
    }
    assert!(f32::from_bits(f32_bits_clamp(f32::NAN.to_bits())).is_nan());
}

#[test]
fn snapshot_constructors_clamp_and_record_provenance() {
    let s = ContinuitySnapshot::with_provenance(4, 5, 6, vec![b(1.5), b(-0.5), b(0.25)]);
    assert_eq!(s.continuity, vec![b(1.0), b(0.0), b(0.25)]);
    assert_eq!((s.snapshot_identity.continuity_epoch, s.snapshot_identity.realization_sequence_index, s.snapshot_identity.originating_tick), (4, 5, 6));
    assert_eq!(s.len(), 3);
    assert_eq!(s.get(2), Some(b(0.25)));
    assert_eq!(s.get(3), None);
    let e = StructuralEmergenceState::new(b(1.5), b(-0.2), b(0.8), b(0.9));
    assert_eq!((e.emergence_score, e.resonance_factor), (b(1.0), b(0.0)));
    let mut p = StructuralPersistenceField::new(2);
    p.set(5, b(0.5));
    assert_eq!((p.get(0), p.get(1), p.get(2)), (Some(0), Some(0), None));
}

#[test]
fn replay_range_clips_to_the_log() {
    let mut buf = StructuralReplayBuffer::new();
    for i in 0..4u64 {
        buf.append_frame(StructuralReplayFrame { replay_index: i, snapshot: replay_snap() });
    }
    let r = buf.replay_range(1, 10);
    assert_eq!(r.iter().map(|f| f.replay_index).collect::<Vec<_>>(), vec![1, 2, 3]);
    assert!(buf.replay_range(4, 6).is_empty());
    assert!(buf.replay_range(2, 2).is_empty());
    assert_eq!(buf.latest_frame().unwrap().replay_index, 3);
}

#[test]
fn replay_buffer_getters_follow_the_fields() {
    let mut buf = RuntimeReplayBuffer::new(17);
    assert_eq!(buf.replay_epoch(), 17);
    assert_eq!(buf.canonical_frame_count(), 0);
    buf.push_frame(dummy_frame(1, 10));
    buf.push_frame(dummy_frame(2, 20));
    assert_eq!(buf.canonical_frame_count(), 2);
    assert_eq!(buf.canonical_frame_count(), buf.canonical_frame_count);
    assert_eq!(buf.replay_epoch(), buf.replay_epoch);
    buf.clear();
    assert_eq!(buf.canonical_frame_count(), 0);
    assert_eq!(buf.replay_epoch(), 17);
}
