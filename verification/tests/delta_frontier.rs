use mirage_kernel::delta::{CellChangeFlags, FieldDeltaMask};
use mirage_kernel::frontier::PropagationFrontier;

fn make_delta(num_cells: usize, changed: &[usize]) -> FieldDeltaMask {
    let mut m = FieldDeltaMask::new(num_cells);
    for &c in changed {
        m.set(c);
    }
    m
}

#[test]
fn delta_mask_bit_packing() {
    let mut mask = FieldDeltaMask::new(128);
    mask.set(0);
    mask.set(63);
    mask.set(64);
    mask.set(127);
    assert_eq!(mask.changed_count, 4);
    assert!(mask.is_changed(0));
    assert!(mask.is_changed(63));
    assert!(mask.is_changed(64));
    assert!(mask.is_changed(127));
    assert!(!mask.is_changed(1));
}

#[test]
fn changed_cell_iterator_correct() {
    let mut mask = FieldDeltaMask::new(256);
    mask.set(5);
    mask.set(70);
    mask.set(200);
    let changed: Vec<usize> = mask.iter_changed();
    assert_eq!(changed, vec![5, 70, 200]);
}

#[test]
fn density_computation() {
    let mut mask = FieldDeltaMask::new(100);
    for i in 0..25 {
        mask.set(i);
    }
    let d = mask.changed_count as f32 / mask.num_cells() as f32;
    assert!((d - 0.25).abs() < 1e-5, "density should be 0.25: {}", d);
}

#[test]
fn set_is_idempotent_and_clear_empties() {
    let mut mask = FieldDeltaMask::new(70);
    mask.set(3);
    mask.set(3);
    mask.mark(69);
    mask.mark_changed(69);
    assert_eq!(mask.changed_count, 2);
    assert!(!mask.is_empty());
    mask.clear();
    assert!(mask.is_empty());
    assert_eq!(mask.changed_count, 0);
    assert!(mask.iter_changed().is_empty());
}

#[test]
fn mark_beyond_words_is_ignored() {
    let mut mask = FieldDeltaMask::new(64);
    mask.mark(64);
    mask.mark_changed(1000);
    assert_eq!(mask.changed_count, 0);
    assert!(mask.is_empty());
}

#[test]
fn iteration_stops_at_cell_count() {
    // 70 cells use two words; bits 70..127 exist but are past the cell count.
    let mut mask = FieldDeltaMask::new(70);
    mask.set(69);
    mask.set(100);
    assert_eq!(mask.changed_count, 2);
    assert_eq!(mask.iter_changed(), vec![69]);
}

#[test]
fn change_flags_decode() {
    let f = CellChangeFlags(CellChangeFlags::PRESSURE_CHANGED | CellChangeFlags::EMISSION_GATE_RISEN);
    assert!(f.is_changed());
    assert!(f.pressure_changed());
    assert!(f.emission_gate_risen());
    assert!(!f.activation_changed());
    assert!(!f.probability_changed());
    assert!(!f.emission_gate_fallen());
    assert!(!CellChangeFlags::default().is_changed());
    assert!(CellChangeFlags(CellChangeFlags::EMISSION_GATE_FALLEN).emission_gate_fallen());
    assert!(CellChangeFlags(CellChangeFlags::ACTIVATION_CHANGED).activation_changed());
    assert!(CellChangeFlags(CellChangeFlags::PROBABILITY_CHANGED).probability_changed());
}

#[test]
fn empty_delta_produces_empty_frontier() {
    let delta = make_delta(16, &[]);
    let mut frontier = PropagationFrontier::new(4, 4);
    frontier.build_from_delta(&delta, 4, 4);
    assert!(frontier.is_empty());
}

#[test]
fn single_changed_cell_expands_to_neighbours() {
    let delta = make_delta(16, &[5]);
    let mut frontier = PropagationFrontier::new(4, 4);
    frontier.build_from_delta(&delta, 4, 4);

    let cells: Vec<usize> = frontier.iter_cells().to_vec();
    assert!(cells.contains(&5), "changed cell must be in frontier");
    assert!(cells.contains(&4), "west neighbour must be in frontier");
    assert!(cells.contains(&6), "east neighbour must be in frontier");
    assert!(cells.contains(&1), "north neighbour must be in frontier");
    assert!(cells.contains(&9), "south neighbour must be in frontier");
    assert_eq!(cells.len(), 5, "corner cell has 4 neighbours + self");
}

#[test]
fn corner_cell_clamps_boundary() {
    let delta = make_delta(16, &[0]);
    let mut frontier = PropagationFrontier::new(4, 4);
    frontier.build_from_delta(&delta, 4, 4);
    let cells: Vec<usize> = frontier.iter_cells().to_vec();
    assert_eq!(cells.len(), 3, "corner cell has 2 neighbours + self");
}

#[test]
fn frontier_density_calculation() {
    let delta = make_delta(16, &(0..16).collect::<Vec<_>>());
    let mut frontier = PropagationFrontier::new(4, 4);
    frontier.build_from_delta(&delta, 4, 4);
    let d = frontier.frontier_size() as f32 / frontier.num_cells() as f32;
    assert!(d > 0.99, "full delta should produce full frontier, got {}", d);
}

#[test]
fn sparse_mode_recommended_for_small_frontier() {
    let delta = make_delta(256, &[100]);
    let mut frontier = PropagationFrontier::new(16, 16);
    let is_sparse = frontier.build_from_delta(&delta, 16, 16);
    assert!(is_sparse, "tiny frontier should recommend sparse mode");
}

#[test]
fn dense_frontier_falls_back_to_full() {
    // 5 cells of 10 is 50% > 40%: fallback.
    let delta = make_delta(10, &[2]);
    let mut frontier = PropagationFrontier::new(10, 1);
    let sparse = frontier.build_from_delta(&delta, 10, 1);
    assert_eq!(frontier.frontier_size(), 3);
    assert!(sparse, "3 of 10 is 30%, below the 40% fallback");
    let delta = make_delta(10, &[2, 6]);
    let sparse = frontier.build_from_delta(&delta, 10, 1);
    assert_eq!(frontier.frontier_size(), 6);
    assert!(!sparse, "6 of 10 is 60%, above the 40% fallback");
    assert!(frontier.should_fallback_to_full());
    assert!(!frontier.should_use_sparse());
}

#[test]
fn frontier_contains_matches_cells() {
    let delta = make_delta(16, &[15]);
    let mut frontier = PropagationFrontier::new(4, 4);
    frontier.build_from_delta(&delta, 4, 4);
    assert!(frontier.contains(15));
    assert!(frontier.contains(14));
    assert!(frontier.contains(11));
    assert!(!frontier.contains(10));
    assert!(!frontier.contains(99));
    assert_eq!(frontier.frontier_size(), 3);
}

#[test]
fn changed_count_getter_matches_field() {
    let mut mask = FieldDeltaMask::new(70);
    mask.set(3);
    mask.set(65);
    mask.set(3);
    assert_eq!(mask.changed_count(), 2);
    assert_eq!(mask.changed_count(), mask.changed_count);
}

#[test]
fn gate_edge_flags_follow_the_crossing() {
    let gate = 0.05f32.to_bits();
    let up = CellChangeFlags::gate_edge(0.01f32.to_bits(), 0.2f32.to_bits(), gate);
    assert_eq!(up, CellChangeFlags::EMISSION_GATE_RISEN);
    let down = CellChangeFlags::gate_edge(0.2f32.to_bits(), 0.05f32.to_bits(), gate);
    assert_eq!(down, CellChangeFlags::EMISSION_GATE_FALLEN);
    assert_eq!(CellChangeFlags::gate_edge(0.2f32.to_bits(), 0.3f32.to_bits(), gate), 0);
    assert_eq!(CellChangeFlags::gate_edge(0.2f32.to_bits(), f32::NAN.to_bits(), gate), CellChangeFlags::EMISSION_GATE_FALLEN);
}

#[test]
fn frontier_does_not_wrap_across_rows() {
    let delta = make_delta(12, &[3]);
    let mut frontier = PropagationFrontier::new(4, 3);
    frontier.build_from_delta(&delta, 4, 3);
    let mut cells: Vec<usize> = frontier.iter_cells().to_vec();
    cells.sort();
    assert_eq!(cells, vec![2, 3, 7]);
    assert!(!frontier.contains(4));
}
