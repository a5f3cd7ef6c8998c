use mirage_kernel::regions::{RegionActivityState, RegionBounds};
use mirage_kernel::runtime_frame::{ContinuitySnapshot, ManagedContinuitySnapshot};
use mirage_kernel::replay::{
    verify_byte_replay_equivalence, ContinuityLifecycleState, RegionReplayBuffer, RegionReplayFrame,
    ReplayExactnessReport, StructuralProvenance,
};
use mirage_kernel::validation::{
    FrontierValidationCounters, SPARSE_PROMOTION_THRESHOLD,
    DifferentialEmissionValidationReport, DifferentialRegionValidationReport, EmissionParityReport,
    RegionParityReport,
};

#[test]
fn validation_report_accumulates() {
    let mut report = DifferentialEmissionValidationReport::new();
    let pass = EmissionParityReport { all_passed: true, ..Default::default() };
    let fail = EmissionParityReport { all_passed: false, missing_from_differential: 2, ..Default::default() };
    for _ in 0..10 {
        report.record(&pass);
    }
    assert_eq!(report.consecutive_passes, 10);
    report.record(&fail);
    assert_eq!(report.consecutive_passes, 0);
    assert_eq!(report.ticks_failed, 1);
    assert_eq!(report.peak_missing, 2);
    let pass_rate = report.ticks_passed as f32 / report.ticks_run as f32;
    assert!((pass_rate - 10.0 / 11.0).abs() < 1e-5);
}

#[test]
fn emission_promotion_follows_the_run_of_passes() {
    let mut report = DifferentialEmissionValidationReport::new();
    let pass = EmissionParityReport { all_passed: true, ..Default::default() };
    for _ in 0..999 {
        report.record(&pass);
    }
    assert!(!report.eligible_for_promotion());
    report.record(&pass);
    assert!(report.eligible_for_promotion());
    report.record(&EmissionParityReport { extra_in_differential: 3, ..Default::default() });
    assert!(!report.eligible_for_promotion(), "a failure resets the run of passes");
    for _ in 0..999 {
        report.record(&pass);
    }
    assert!(!report.eligible_for_promotion());
    report.record(&pass);
    assert!(report.eligible_for_promotion(), "a fresh run of passes earns promotion again");
    assert_eq!(report.total_extra_events, 3);
    report.reset();
    assert_eq!(report.ticks_run, 0);
}

#[test]
fn region_report_counts_and_promotion() {
    let mut r = DifferentialRegionValidationReport::default();
    let clean = RegionParityReport::default();
    for _ in 0..1000 {
        r.record(&clean);
    }
    assert!(r.eligible_for_promotion());
    r.record(&RegionParityReport { mismatched_region_states: 4, severe_divergence: true, ..Default::default() });
    assert_eq!(r.ticks_failed, 1);
    assert_eq!(r.consecutive_passes, 0);
    assert_eq!(r.peak_mismatched_regions, 4);
    assert_eq!(r.severe_divergence_events, 1);
    assert_eq!(r.ticks_run, r.ticks_passed + r.ticks_failed);
    assert!(!r.eligible_for_promotion());
}

fn frame(tick: u64, payload: Vec<u8>) -> RegionReplayFrame {
    RegionReplayFrame { tick, region_id: 100, state_hash: 42, payload_bytes: payload }
}

#[test]
fn deterministic_region_replay_validation() {
    let mut a = RegionReplayBuffer::new();
    let mut b = RegionReplayBuffer::new();
    a.push(frame(1, vec![1, 2, 3]));
    b.push(frame(1, vec![1, 2, 3]));
    assert_eq!(a, b);
    assert!(a.validate_equivalence(&b).is_ok());
    b.push(frame(2, vec![]));
    assert_eq!(a.validate_equivalence(&b).unwrap_err().invariant_name, "replay_buffer_length_mismatch");
    a.push(frame(2, vec![9]));
    let e = a.validate_equivalence(&b).unwrap_err();
    assert_eq!((e.invariant_name, e.subsystem), ("replay_payload_mismatch", "region_replay"));
    let mut c = RegionReplayBuffer::new();
    c.push(frame(5, vec![1, 2, 3]));
    c.push(frame(2, vec![9]));
    assert_eq!(a.validate_equivalence(&c).unwrap_err().invariant_name, "replay_tick_mismatch");
}

#[test]
fn byte_replay_equivalence() {
    assert!(verify_byte_replay_equivalence(&[1, 2, 3], &[1, 2, 3]));
    assert!(!verify_byte_replay_equivalence(&[1, 2, 3], &[1, 2, 4]));
    assert!(!verify_byte_replay_equivalence(&[1, 2], &[1, 2, 3]));
    assert!(verify_byte_replay_equivalence(&[], &[]));
}

#[test]
fn exactness_report_and_lifecycle() {
    let r = ReplayExactnessReport::from_checks(true, false, true);
    assert!(r.divergence_detected);
    assert!(!ReplayExactnessReport::from_checks(true, true, true).divergence_detected);
    let m = ManagedContinuitySnapshot::new(3, ContinuitySnapshot::new(7, vec![]));
    let l = m.lifecycle;
    assert_eq!((l.realization_count, l.continuity_version, l.last_realized_epoch), (1, 0, 7));
    let m2 = m.advance(ContinuitySnapshot::new(8, vec![]));
    let l2 = m2.lifecycle;
    assert_eq!((l2.created_epoch, l2.realization_count, l2.continuity_version, l2.last_realized_epoch), (3, 2, 1, 8));
    let saturated = ManagedContinuitySnapshot {
        lifecycle: ContinuityLifecycleState { realization_count: u64::MAX, ..l },
        snapshot: ContinuitySnapshot::new(7, vec![]),
    };
    assert_eq!(saturated.advance(ContinuitySnapshot::new(9, vec![])).lifecycle.realization_count, u64::MAX);
    let p = StructuralProvenance::new(1, 2, 3, 4);
    assert_eq!((p.originating_tick, p.topology_generation, p.lane_sequence_index, p.continuity_epoch), (1, 2, 3, 4));
}

#[test]
fn region_bounds_cells_row_major() {
    let b = RegionBounds { x_start: 8, x_end: 10, y_start: 1, y_end: 3, field_width: 16 };
    assert_eq!(b.iter_cells(), vec![24, 25, 40, 41]);
    assert_eq!(b.cell_count(), 4);
    let empty = RegionBounds { x_start: 4, x_end: 4, y_start: 0, y_end: 2, field_width: 4 };
    assert!(empty.iter_cells().is_empty());
    assert!(RegionActivityState::Hot.needs_execution());
    assert!(!RegionActivityState::Warming.needs_execution());
    assert!(RegionActivityState::Warming.needs_streaming());
    assert!(!RegionActivityState::default().needs_streaming());
}

#[test]
fn deterministic_region_replay() {
    let mut buffer_a = RegionReplayBuffer::new();
    let mut buffer_b = RegionReplayBuffer::new();
    let frame = RegionReplayFrame { tick: 1, region_id: 100, state_hash: 42, payload_bytes: vec![1, 2, 3] };
    buffer_a.push(frame.clone());
    buffer_b.push(frame);
    assert_eq!(buffer_a, buffer_b);
    assert!(buffer_a.validate_equivalence(&buffer_b).is_ok());
}

#[test]
fn validation_report_accumulates_passes() {
    let mut report = FrontierValidationCounters::new();
    for _ in 0..10 {
        report.record(true, false);
    }
    assert_eq!(report.ticks_passed, 10);
    assert_eq!(report.consecutive_passes, 10);
    assert_eq!(report.ticks_failed, 0);
}

#[test]
fn validation_report_resets_consecutive_on_failure() {
    let mut report = FrontierValidationCounters::new();
    for _ in 0..5 {
        report.record(true, false);
    }
    report.record(false, false);
    assert_eq!(report.consecutive_passes, 0);
    assert_eq!(report.ticks_failed, 1);
}

#[test]
fn not_eligible_for_promotion_below_threshold() {
    let mut report = FrontierValidationCounters::new();
    for _ in 0..100 {
        report.record(true, false);
    }
    assert!(
        !report.eligible_for_promotion(),
        "should not be eligible before {} consecutive passes",
        SPARSE_PROMOTION_THRESHOLD
    );
}

#[test]
fn frontier_counters_promote_after_a_clean_run() {
    let mut report = FrontierValidationCounters::new();
    for _ in 0..SPARSE_PROMOTION_THRESHOLD {
        report.record(true, false);
    }
    assert!(report.eligible_for_promotion());
    report.record(true, true);
    assert_eq!(report.severe_divergence_events, 1);
    assert!(!report.eligible_for_promotion());
    assert_eq!(report.ticks_run, SPARSE_PROMOTION_THRESHOLD + 1);
}
