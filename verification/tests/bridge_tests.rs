use mirage_kernel::bridge::{probability_to_chunk_state, ChunkState, RendererBridge};
use mirage_kernel::delta::FieldDeltaMask;

fn b(x: f32) -> u32 {
    x.to_bits()
}

#[test]
fn probability_mapping_boundaries() {
    assert_eq!(probability_to_chunk_state(b(0.0)), ChunkState::Dormant);
    assert_eq!(probability_to_chunk_state(b(0.04)), ChunkState::Dormant);
    assert_eq!(probability_to_chunk_state(b(0.05)), ChunkState::Predictive);
    assert_eq!(probability_to_chunk_state(b(0.35)), ChunkState::Resident);
    assert_eq!(probability_to_chunk_state(b(0.70)), ChunkState::Hot);
    assert_eq!(probability_to_chunk_state(b(1.0)), ChunkState::Hot);
}

#[test]
fn apply_to_directory_full_hot() {
    let probabilities = vec![b(1.0); 16];
    let mut states = vec![ChunkState::Dormant; 16];
    RendererBridge::new().apply_to_directory(&probabilities, &mut states);
    assert!(states.iter().all(|&s| s == ChunkState::Hot));
}

#[test]
fn apply_to_directory_dormant_field() {
    let probabilities = vec![b(0.0); 16];
    let mut states = vec![ChunkState::Dormant; 16];
    states[0] = ChunkState::Resident;
    RendererBridge::new().apply_to_directory(&probabilities, &mut states);
    assert_eq!(states[0], ChunkState::Dormant);
}

#[test]
fn fill_probability_buffer_matches_field() {
    let mut probabilities = vec![b(0.0); 4];
    probabilities[0] = b(0.8);
    probabilities[3] = b(0.4);
    let bridge = RendererBridge::new();
    let mut buf = Vec::new();
    bridge.fill_probability_buffer(&probabilities, &mut buf);
    assert_eq!(buf.len(), 4);
    assert!((f32::from_bits(buf[0]) - 0.8).abs() < 1e-6);
    assert!((f32::from_bits(buf[3]) - 0.4).abs() < 1e-6);
}

#[test]
fn helper_predicates() {
    let br = RendererBridge::new();
    assert!(br.should_render(b(0.5)));
    assert!(!br.should_render(b(0.2)));
    assert!(br.should_stream(b(0.1)));
    assert!(!br.should_stream(b(0.5)));
    assert!(!br.should_stream(b(0.01)));
    assert!(br.is_emission_eligible(b(0.1)));
    assert!(!br.is_emission_eligible(b(0.01)));
}

#[test]
fn apply_changed_cells_touches_only_changed() {
    let probabilities = vec![b(0.9), b(0.4), b(0.1), b(0.0)];
    let mut states = vec![ChunkState::Resident; 4];
    let mut mask = FieldDeltaMask::new(4);
    mask.set(0);
    mask.set(2);
    RendererBridge::new().apply_changed_cells(&probabilities, &mut states, &mask);
    assert_eq!(states, vec![ChunkState::Hot, ChunkState::Resident, ChunkState::Predictive, ChunkState::Resident]);
    assert_eq!(RendererBridge::new().cell_to_chunk_state(b(f32::NAN)), ChunkState::Dormant);
}

#[test]
fn sparse_buffer_update_grows_and_copies_changed() {
    let probabilities = vec![b(0.9), b(0.4), b(0.1)];
    let mut buffer = vec![b(0.5)];
    let mut mask = FieldDeltaMask::new(3);
    mask.set(1);
    RendererBridge::new().update_probability_buffer_sparse(&probabilities, &mut buffer, &mask);
    assert_eq!(buffer, vec![b(0.5), b(0.4), 0]);
}

use mirage_kernel::emission::EmissionRequest;
use mirage_kernel::execution_bridge::{ExecutionBridge, DEFAULT_DEADLINE_FRAMES};
use mirage_kernel::region_map::RegionMap;

fn make_emission(cell: usize, prob: f32) -> EmissionRequest {
    EmissionRequest { cell_index: cell, probability: prob.to_bits() }
}

#[test]
fn translate_maps_probability_to_priority() {
    let bridge = ExecutionBridge::new(16);
    let emissions = vec![make_emission(0, 0.8), make_emission(1, 0.3)];
    let requests = bridge.translate(&emissions, 100);
    assert_eq!(requests.len(), 2);
    assert!((f32::from_bits(requests[0].priority) - 0.8).abs() < 1e-6);
    assert!((f32::from_bits(requests[1].priority) - 0.3).abs() < 1e-6);
}

#[test]
fn translate_sets_correct_deadline() {
    let bridge = ExecutionBridge::new(16);
    let emissions = vec![make_emission(5, 0.5)];
    let requests = bridge.translate(&emissions, 200);
    assert_eq!(requests[0].deadline_frame, 200 + DEFAULT_DEADLINE_FRAMES);
}

#[test]
fn low_probability_marked_as_prefetch_hint() {
    let bridge = ExecutionBridge::new(16);
    let emissions = vec![make_emission(0, 0.05), make_emission(1, 0.80)];
    let requests = bridge.translate(&emissions, 0);
    assert!(requests[0].is_prefetch_hint, "low prob should be prefetch hint");
    assert!(!requests[1].is_prefetch_hint, "high prob should not be prefetch hint");
}

#[test]
fn empty_emissions_produce_empty_requests() {
    let bridge = ExecutionBridge::new(16);
    let requests = bridge.translate(&[], 0);
    assert!(requests.is_empty());
}

#[test]
fn translate_one_and_region_filter() {
    let bridge = ExecutionBridge::new(2);
    assert_eq!(bridge.capacity, 2);
    let d = bridge.translate_one(make_emission(3, 0.15), 7);
    assert_eq!(d.cell_index, 3);
    assert_eq!(d.deadline_frame, 11);
    assert!(!d.is_prefetch_hint);
    let mut map = RegionMap::new(16, 8);
    map.apply_region_stats(1, 0.2f32.to_bits(), 0.6f32.to_bits(), 3);
    let emissions = vec![make_emission(2, 0.9), make_emission(9, 0.4), make_emission(500, 0.9)];
    let kept = bridge.translate_region_filtered(&emissions, 0, &map);
    assert_eq!(kept.len(), 1);
    assert_eq!(kept[0].cell_index, 9);
}

use mirage_kernel::renderer_validation::{
    renderer_state_parity, DifferentialRendererValidationReport, RendererParityReport,
    RENDERER_PROMOTION_THRESHOLD,
};

#[test]
fn promotion_requires_clean_history() {
    let mut report = DifferentialRendererValidationReport::default();
    report.consecutive_passes = RENDERER_PROMOTION_THRESHOLD;
    assert!(report.eligible_for_promotion());
    report.severe_divergence_events = 1;
    assert!(!report.eligible_for_promotion());
}

#[test]
fn parity_detects_chunk_state_mismatch() {
    let mut probabilities = vec![b(0.0); 16];
    probabilities[0] = b(1.0);
    let mut shadow = vec![ChunkState::Dormant; 16];
    let previous = shadow.clone();
    let mut mask = FieldDeltaMask::new(16);
    mask.set(0);
    RendererBridge::new().apply_changed_cells(&probabilities, &mut shadow, &mask);
    let authoritative = vec![ChunkState::Dormant; 16];
    let (checked, mismatched, severe) = renderer_state_parity(&shadow, &previous, &authoritative, &mask);
    assert!(severe);
    assert_eq!(mismatched, 1);
    assert_eq!(checked, 1);
}

#[test]
fn untouched_cell_that_moved_is_a_mismatch() {
    let previous = vec![ChunkState::Dormant; 4];
    let shadow = vec![ChunkState::Dormant, ChunkState::Hot, ChunkState::Dormant, ChunkState::Dormant];
    let authoritative = shadow.clone();
    let mut mask = FieldDeltaMask::new(4);
    mask.set(2);
    assert_eq!(renderer_state_parity(&shadow, &previous, &authoritative, &mask), (1, 1, true));
    assert_eq!(renderer_state_parity(&previous, &previous, &previous, &mask), (1, 0, false));
}

#[test]
fn renderer_record_tracks_runs_and_peaks() {
    let mut r = DifferentialRendererValidationReport::default();
    let clean = RendererParityReport { max_probability_drift: 0.25f32.to_bits(), ..Default::default() };
    r.record(&clean);
    assert_eq!((r.ticks_run, r.ticks_passed, r.consecutive_passes), (1, 1, 1));
    assert_eq!(f32::from_bits(r.peak_probability_drift), 0.25);
    let bad = RendererParityReport {
        mismatched_chunk_states: 2,
        max_probability_drift: 0.1f32.to_bits(),
        severe_divergence: true,
        ..Default::default()
    };
    r.record(&bad);
    assert_eq!((r.ticks_failed, r.consecutive_passes, r.severe_divergence_events), (1, 0, 1));
    assert_eq!(r.peak_chunk_state_mismatches, 2);
    assert_eq!(f32::from_bits(r.peak_probability_drift), 0.25);
}

#[test]
fn priority_filter_keeps_and_orders_by_priority() {
    let bridge = ExecutionBridge::new(4);
    let emissions = vec![
        make_emission(4, 0.3),
        make_emission(1, 0.9),
        make_emission(7, 0.05),
        make_emission(2, 0.3),
        make_emission(9, f32::NAN),
    ];
    let mut requests = bridge.translate(&emissions, 0);
    let kept: Vec<usize> = bridge.priority_filter(&mut requests, 0.1f32.to_bits()).iter().map(|r| r.cell_index).collect();
    assert_eq!(kept, vec![1, 2, 4]);
    assert_eq!(requests.len(), 3);
}
