use mirage_kernel::field_handle::StreamAction;
use mirage_kernel::streaming_coordinator::{
    StreamingCoordinator, MAX_STREAM_REQUESTS_PER_TICK, STREAM_PREFETCH_THRESHOLD,
    STREAM_RESIDENT_THRESHOLD,
};

fn field_with_prob(w: usize, h: usize, prob: f32) -> Vec<u32> {
    vec![prob.to_bits(); w * h]
}

fn threshold(bits: u32) -> f32 {
    f32::from_bits(bits)
}

#[test]
fn stream_thresholds_are_the_documented_values() {
    assert_eq!(STREAM_PREFETCH_THRESHOLD, 0.03f32.to_bits());
    assert_eq!(STREAM_RESIDENT_THRESHOLD, 0.35f32.to_bits());
}

#[test]
fn dormant_field_produces_no_decisions() {
    let field = field_with_prob(4, 4, 0.0);
    let mut coord = StreamingCoordinator::new();
    assert_eq!(coord.scan(&field).len(), 0);
}

#[test]
fn cells_above_prefetch_threshold_get_prefetch_action() {
    let field = field_with_prob(4, 4, threshold(STREAM_PREFETCH_THRESHOLD) + 0.01);
    let mut coord = StreamingCoordinator::new();
    let decisions = coord.scan(&field);
    assert!(!decisions.is_empty());
    for d in decisions {
        assert_eq!(d.action, StreamAction::Prefetch);
    }
}

#[test]
fn cells_above_resident_threshold_get_promote_action() {
    let field = field_with_prob(4, 4, threshold(STREAM_RESIDENT_THRESHOLD) + 0.01);
    let mut coord = StreamingCoordinator::new();
    let decisions = coord.scan(&field);
    assert!(!decisions.is_empty());
    for d in decisions {
        assert_eq!(d.action, StreamAction::PromoteResident);
    }
}

#[test]
fn decisions_bounded_by_budget() {
    let field = field_with_prob(32, 32, 1.0);
    let mut coord = StreamingCoordinator::new();
    let decisions = coord.scan(&field);
    assert!(decisions.len() <= MAX_STREAM_REQUESTS_PER_TICK);
}

#[test]
fn budget_keeps_the_most_probable_cells_first() {
    let field: Vec<u32> = (0..100).map(|i| (0.04 + 0.005 * i as f32).to_bits()).collect();
    let mut coord = StreamingCoordinator::default();
    let decisions = coord.scan(&field).to_vec();
    assert_eq!(decisions.len(), MAX_STREAM_REQUESTS_PER_TICK);
    let cells: Vec<usize> = decisions.iter().map(|d| d.cell_index).collect();
    assert_eq!(cells, (68..100).rev().collect::<Vec<usize>>());
}

#[test]
fn thresholds_are_inclusive() {
    let coord = StreamingCoordinator::new();
    assert!(coord.should_prefetch(STREAM_PREFETCH_THRESHOLD));
    assert!(!coord.should_prefetch(0.029f32.to_bits()));
    assert!(coord.should_promote_resident(STREAM_RESIDENT_THRESHOLD));
    assert!(!coord.should_promote_resident(f32::NAN.to_bits()));
    let field = vec![STREAM_PREFETCH_THRESHOLD, 0.0f32.to_bits(), STREAM_RESIDENT_THRESHOLD];
    let mut c = StreamingCoordinator::new();
    let d = c.scan(&field).to_vec();
    assert_eq!(d.len(), 2);
    assert_eq!((d[0].cell_index, d[0].action), (0, StreamAction::Prefetch));
    assert_eq!((d[1].cell_index, d[1].action), (2, StreamAction::PromoteResident));
}
