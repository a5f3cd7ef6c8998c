use mirage_kernel::governance::{
    validate_lane_ids_stable, validate_propagation_descriptor_order, validate_topology_canonical_ownership,
    validate_topology_full_consistency, validate_topology_node_ordering, ExecutionLane, TopologyGraph, TopologyNode,
};
use mirage_kernel::hardware::HardwareInfo;
use mirage_kernel::propagation_bridge::build_structural_propagation_sequence;

fn make_node(id: usize, pull: f32) -> TopologyNode {
    TopologyNode { id, execution_lane: ExecutionLane::Background, activation_pull: pull.to_bits() }
}

fn build_canonical_graph(n: usize) -> TopologyGraph {
    let mut g = TopologyGraph::new();
    for i in 0..n {
        g.add_node(make_node(i, (i as f32) / (n as f32).max(1.0)));
    }
    for i in 0..n.saturating_sub(1) {
        g.add_edge(i, i + 1);
    }
    g
}

#[test]
fn canonical_ownership_valid_for_empty_graph() {
    let g = TopologyGraph::new();
    assert!(validate_topology_canonical_ownership(&g).is_ok());
}

#[test]
fn canonical_ownership_valid_for_chain_graph() {
    let g = build_canonical_graph(5);
    assert!(validate_topology_canonical_ownership(&g).is_ok());
}

#[test]
fn node_ordering_valid_for_sequential_add() {
    let g = build_canonical_graph(6);
    assert!(validate_topology_node_ordering(&g).is_ok(), "sequential add_node must produce canonical ordering");
}

#[test]
fn node_ordering_detects_mismatched_id() {
    let mut g = TopologyGraph::new();
    g.add_node(make_node(99, 0.5));
    assert!(validate_topology_node_ordering(&g).is_err(), "mismatched node id must be detected");
}

#[test]
fn lane_ids_stable_accepts_non_decreasing() {
    let indices = [0u64, 0, 1, 2, 5, 5, 10];
    assert!(validate_lane_ids_stable(&indices).is_ok());
}

#[test]
fn lane_ids_stable_rejects_decreasing() {
    let indices = [0u64, 5, 3];
    assert!(validate_lane_ids_stable(&indices).is_err());
}

#[test]
fn lane_ids_stable_accepts_empty() {
    assert!(validate_lane_ids_stable(&[]).is_ok());
}

#[test]
fn lane_ids_stable_accepts_single() {
    assert!(validate_lane_ids_stable(&[42u64]).is_ok());
}

#[test]
fn propagation_descriptor_order_accepts_sorted() {
    let indices = [0u64, 1, 2, 3, 4];
    assert!(validate_propagation_descriptor_order(&indices).is_ok());
}

#[test]
fn propagation_descriptor_order_rejects_unsorted() {
    let indices = [0u64, 2, 1, 3];
    assert!(validate_propagation_descriptor_order(&indices).is_err());
}

#[test]
fn full_consistency_valid_for_canonical_graph() {
    let g = build_canonical_graph(4);
    assert!(validate_topology_full_consistency(&g).is_ok());
}

#[test]
fn full_consistency_valid_for_empty_graph() {
    let g = TopologyGraph::new();
    assert!(validate_topology_full_consistency(&g).is_ok());
}

#[test]
fn full_consistency_reports_first_violation() {
    let mut g = build_canonical_graph(3);
    g.edges[2].push(7);
    assert_eq!(validate_topology_full_consistency(&g), Err("topology edge target is out of bounds"));
    let mut g = build_canonical_graph(3);
    g.access_frequency.push(1);
    assert_eq!(
        validate_topology_full_consistency(&g),
        Err("topology internal inconsistency: flat_edges.len() != access_frequency.len()")
    );
    let mut g = build_canonical_graph(3);
    g.edges.pop();
    assert_eq!(
        validate_topology_full_consistency(&g),
        Err("topology canonical ownership violated: nodes.len() != edges.len()")
    );
    let mut g = build_canonical_graph(3);
    g.nodes[1].id = 5;
    assert_eq!(
        validate_topology_full_consistency(&g),
        Err("topology node ordering violated: node.id does not match its index in nodes[]")
    );
}

#[test]
fn affinity_deals_chunks_round_robin() {
    let h = HardwareInfo { logical_cores: 4, physical_cores: 2, numa_nodes: 1, simd_width: 8 };
    assert_eq!(h.affinity_for_chunk(0), 0);
    assert_eq!(h.affinity_for_chunk(7), 3);
    assert_eq!(h.affinity_for_chunk(8), 0);
    let detected = HardwareInfo::detect();
    assert!(detected.logical_cores >= 1);
    assert!(detected.physical_cores >= 1);
    assert_eq!(detected.numa_nodes, 1);
    assert_eq!(detected.simd_width, 8);
    assert!(detected.affinity_for_chunk(12345) < detected.logical_cores);
}

#[test]
fn platform_module_loads() {
    // Compilation success is the test
}

#[test]
fn propagation_sequence_is_stably_ordered() {
    let g = build_canonical_graph(4);
    let seq1 = build_structural_propagation_sequence(&g, 1, 1, 1);
    let seq2 = build_structural_propagation_sequence(&g, 1, 1, 1);
    let d1 = &seq1.descriptors;
    let d2 = &seq2.descriptors;
    assert_eq!(d1.len(), d2.len(), "stable propagation: sequence length must be identical across runs");
    let indices1: Vec<u64> = d1.iter().map(|d| d.deterministic_sequence_index).collect();
    let indices2: Vec<u64> = d2.iter().map(|d| d.deterministic_sequence_index).collect();
    assert!(validate_propagation_descriptor_order(&indices1).is_ok(), "propagation sequence 1 must be non-decreasing");
    assert!(validate_propagation_descriptor_order(&indices2).is_ok(), "propagation sequence 2 must be non-decreasing");
    assert_eq!(indices1, indices2, "sequence indices must be identical across runs");
}

#[test]
fn bridge_lane_ids_are_non_decreasing() {
    let g = build_canonical_graph(5);
    let seq = build_structural_propagation_sequence(&g, 0, 0, 0);
    let lane_ids: Vec<u64> = seq.descriptors.iter().map(|d| d.lane_id.0).collect();
    assert!(validate_lane_ids_stable(&lane_ids).is_ok(), "bridge lane IDs must be non-decreasing (lexicographically sorted)");
}

#[test]
fn bridge_descriptors_follow_sorted_edges() {
    let mut g = TopologyGraph::new();
    for i in 0..3 {
        g.add_node(make_node(i, if i == 0 { 1.5 } else { 0.25 }));
    }
    g.add_edge(0, 2);
    g.add_edge(0, 1);
    g.add_edge(2, 0);
    g.add_edge(5, 1);
    let seq = build_structural_propagation_sequence(&g, 7, 8, 9);
    let d = &seq.descriptors;
    assert_eq!(d.len(), 3);
    assert_eq!(d[0].lane_id.0, 1);
    assert_eq!(d[0].target_node, 1);
    assert_eq!(d[1].lane_id.0, 2);
    assert_eq!(d[2].lane_id.0, (2u64 << 32) | 0);
    assert_eq!(d[2].target_node, 0);
    assert_eq!(f32::from_bits(d[0].reinforcement_weight), 1.0);
    assert_eq!(f32::from_bits(d[2].reinforcement_weight), 0.25);
    for (i, x) in d.iter().enumerate() {
        assert_eq!(x.deterministic_sequence_index, i as u64);
        assert_eq!(x.provenance.lane_sequence_index, i as u64);
        assert_eq!(x.provenance.originating_tick, 7);
        assert_eq!(x.provenance.topology_generation, 8);
        assert_eq!(x.provenance.continuity_epoch, 9);
    }
}

#[test]
fn governance_validators_accessible_at_crate_root() {
    let g = build_canonical_graph(3);
    assert!(validate_topology_canonical_ownership(&g).is_ok());
    assert!(validate_topology_node_ordering(&g).is_ok());
    assert!(validate_lane_ids_stable(&[0u64, 1, 2]).is_ok());
    assert!(validate_propagation_descriptor_order(&[0u64, 1, 2]).is_ok());
    assert!(validate_topology_full_consistency(&g).is_ok());
}

use mirage_kernel::propagation::compute_propagation_cells;

#[test]
fn propagation_cells_cover_the_clipped_square() {
    assert_eq!(compute_propagation_cells(12, 1, 5), vec![6, 7, 8, 11, 12, 13, 16, 17, 18]);
    assert_eq!(compute_propagation_cells(0, 1, 5), vec![0, 1, 5, 6]);
    assert_eq!(compute_propagation_cells(0, 0, 5), vec![0]);
    assert!(compute_propagation_cells(12, -1, 5).is_empty());
}

#[test]
fn propagation_cells_on_a_wide_grid() {
    assert_eq!(compute_propagation_cells(0, 1, 100_000), vec![0, 1, 100_000, 100_001]);
}
