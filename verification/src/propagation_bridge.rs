//! Read-only extraction of a structural propagation sequence from a
//! topology graph: one descriptor per edge, edges in lexicographic
//! `(from, to)` order, lane ids packed from the two node indices.
use vstd::prelude::*;
use crate::governance::{TopologyGraph, TopologyNode};
use crate::morphogenic::{StructuralPropagationDescriptor, StructuralPropagationSequence};
use crate::ordering::{CanonicalKey, key_sorted, lemma_sorted_by_key, lemma_sorted_members, lemma_stable_sort_unique, lemma_stable_sorted_members, sorted_by_key, stable_sort_by_key, stable_sorted};
use crate::replay::{MorphogenicLaneId, StructuralProvenance};
use crate::runtime_frame::{f32_bits_clamp, f32_bits_clamp01};

verus! {

impl CanonicalKey for usize {
    /// A node index sorts by its value.
    open spec fn canonical_key(&self) -> int {
        *self as int
    }

    fn key_less(&self, other: &Self) -> (r: bool) {
        *self < *other
    }
}

/// The lane id of the edge `from → to`: `from` in the high 32 bits, or-ed
/// with `to`.
pub open spec fn lane_code(from: usize, to: usize) -> u64 {
    ((from as u64) << 32u64) | (to as u64)
}

/// Every edge of the adjacency lists as a `(from, to)` pair: sources in
/// index order, each source's targets in ascending order.
pub open spec fn edge_pairs(edges: Seq<Seq<usize>>) -> Seq<(usize, usize)>
    decreases edges.len(),
{
    if edges.len() == 0 {
        Seq::empty()
    } else {
        let from = (edges.len() - 1) as usize;
        edge_pairs(edges.drop_last()) + sorted_by_key(edges.last()).map_values(|to: usize| (from, to))
    }
}

/// The adjacency lists of the graph, as sequences.
pub open spec fn adjacency(g: TopologyGraph) -> Seq<Seq<usize>> {
    Seq::new(g.edges@.len(), |i: int| g.edges@[i]@)
}

/// The reinforcement weight of edges leaving `from`: the source node's
/// activation pull clamped to `[0, 1]`, or `+0.0` without such a node.
pub open spec fn pull_weight(nodes: Seq<TopologyNode>, from: usize) -> u32 {
    if from < nodes.len() { f32_bits_clamp01(nodes[from as int].activation_pull) } else { 0 }
}

/// The descriptor of the `i`-th edge `(from, to)`.
pub open spec fn edge_descriptor(
    nodes: Seq<TopologyNode>,
    e: (usize, usize),
    i: int,
    originating_tick: u64,
    topology_generation: u64,
    continuity_epoch: u64,
) -> StructuralPropagationDescriptor {
    StructuralPropagationDescriptor {
        lane_id: MorphogenicLaneId(lane_code(e.0, e.1)),
        deterministic_sequence_index: i as u64,
        provenance: StructuralProvenance {
            originating_tick,
            topology_generation,
            lane_sequence_index: i as u64,
            continuity_epoch,
        },
        target_node: e.1,
        reinforcement_weight: pull_weight(nodes, e.0),
    }
}

/// Lexicographic order on edges.
pub open spec fn edge_le(a: (usize, usize), b: (usize, usize)) -> bool {
    a.0 < b.0 || (a.0 == b.0 && a.1 <= b.1)
}

proof fn lemma_sorted_targets(t: Seq<usize>)
    ensures
        sorted_by_key(t).len() == t.len(),
        forall|i: int, j: int| 0 <= i < j < t.len() ==> sorted_by_key(t)[i] <= sorted_by_key(t)[j],
{
    lemma_sorted_by_key(t);
    assert(key_sorted(sorted_by_key(t)));
    assert forall|i: int, j: int| 0 <= i < j < t.len() implies sorted_by_key(t)[i] <= sorted_by_key(t)[j] by {
        assert(sorted_by_key(t)[i].canonical_key() <= sorted_by_key(t)[j].canonical_key());
    }
}

/// The edges come out in lexicographic `(from, to)` order, every source
/// below the number of adjacency lists (which a `Vec` bounds by `usize::MAX`).
pub proof fn lemma_edge_pairs_sorted(edges: Seq<Seq<usize>>)
    requires
        edges.len() <= usize::MAX,
    ensures
        forall|i: int, j: int| 0 <= i < j < edge_pairs(edges).len() ==> edge_le(edge_pairs(edges)[i], edge_pairs(edges)[j]),
        forall|i: int| 0 <= i < edge_pairs(edges).len() ==> (#[trigger] edge_pairs(edges)[i]).0 < edges.len(),
    decreases edges.len(),
{
    if edges.len() > 0 {
        let d = edges.drop_last();
        let from = (edges.len() - 1) as usize;
        lemma_edge_pairs_sorted(d);
        lemma_sorted_targets(edges.last());
        let head = edge_pairs(d);
        let tail = sorted_by_key(edges.last()).map_values(|to: usize| (from, to));
        assert(edge_pairs(edges) == head + tail);
        assert forall|i: int, j: int| 0 <= i < j < edge_pairs(edges).len() implies edge_le(edge_pairs(edges)[i], edge_pairs(edges)[j]) by {
            let e = edge_pairs(edges);
            if j < head.len() {
                assert(e[i] == head[i] && e[j] == head[j]);
            } else if i < head.len() {
                assert(e[i] == head[i] && e[j] == tail[j - head.len()]);
                assert(head[i].0 < d.len());
                assert(tail[j - head.len()].0 == from);
            } else {
                assert(e[i] == tail[i - head.len()] && e[j] == tail[j - head.len()]);
                assert(tail[i - head.len()] == (from, sorted_by_key(edges.last())[i - head.len()]));
                assert(tail[j - head.len()] == (from, sorted_by_key(edges.last())[j - head.len()]));
                assert(sorted_by_key(edges.last())[i - head.len()] <= sorted_by_key(edges.last())[j - head.len()]);
            }
        }
        assert forall|i: int| 0 <= i < edge_pairs(edges).len() implies (#[trigger] edge_pairs(edges)[i]).0 < edges.len() by {
            if i < head.len() {
                assert(edge_pairs(edges)[i] == head[i]);
                assert(head[i].0 < d.len());
            } else {
                assert(edge_pairs(edges)[i] == tail[i - head.len()]);
            }
        }
    }
}

proof fn lemma_lane_code_monotone(f1: u64, t1: u64, f2: u64, t2: u64)
    requires
        f1 < 0x1_0000_0000,
        t1 < 0x1_0000_0000,
        f2 < 0x1_0000_0000,
        t2 < 0x1_0000_0000,
        f1 < f2 || (f1 == f2 && t1 <= t2),
    ensures
        (f1 << 32u64) | t1 <= (f2 << 32u64) | t2,
{
    assert((f1 << 32u64) | t1 <= (f2 << 32u64) | t2) by (bit_vector)
        requires
            f1 < 0x1_0000_0000,
            t1 < 0x1_0000_0000,
            f2 < 0x1_0000_0000,
            t2 < 0x1_0000_0000,
            f1 < f2 || (f1 == f2 && t1 <= t2);
}

/// When every node index fits in 32 bits, the lane ids of the edges, in
/// the order the sequence lists them, never decrease.
pub proof fn lemma_lane_ids_non_decreasing(edges: Seq<Seq<usize>>)
    requires
        edges.len() <= 0x1_0000_0000,
        edges.len() <= usize::MAX,
        forall|f: int, k: int| 0 <= f < edges.len() && 0 <= k < edges[f].len() ==> #[trigger] edges[f][k] < 0x1_0000_0000,
    ensures
        forall|i: int, j: int| 0 <= i < j < edge_pairs(edges).len() ==> lane_code(edge_pairs(edges)[i].0, edge_pairs(edges)[i].1)
            <= lane_code(edge_pairs(edges)[j].0, edge_pairs(edges)[j].1),
{
    lemma_edge_pairs_sorted(edges);
    lemma_edge_targets_bounded(edges);
    let e = edge_pairs(edges);
    assert forall|i: int, j: int| 0 <= i < j < e.len() implies lane_code(e[i].0, e[i].1) <= lane_code(e[j].0, e[j].1) by {
        assert(edge_le(e[i], e[j]));
        lemma_lane_code_monotone(e[i].0 as u64, e[i].1 as u64, e[j].0 as u64, e[j].1 as u64);
    }
}

proof fn lemma_edge_targets_bounded(edges: Seq<Seq<usize>>)
    requires
        forall|f: int, k: int| 0 <= f < edges.len() && 0 <= k < edges[f].len() ==> #[trigger] edges[f][k] < 0x1_0000_0000,
    ensures
        forall|i: int| 0 <= i < edge_pairs(edges).len() ==> (#[trigger] edge_pairs(edges)[i]).1 < 0x1_0000_0000,
    decreases edges.len(),
{
    if edges.len() > 0 {
        let d = edges.drop_last();
        let from = (edges.len() - 1) as usize;
        assert forall|f: int, k: int| 0 <= f < d.len() && 0 <= k < d[f].len() implies #[trigger] d[f][k] < 0x1_0000_0000 by {
            assert(d[f] == edges[f]);
        }
        lemma_edge_targets_bounded(d);
        let t = edges.last();
        lemma_sorted_by_key(t);
        let head = edge_pairs(d);
        let tail = sorted_by_key(t).map_values(|to: usize| (from, to));
        assert forall|i: int| 0 <= i < edge_pairs(edges).len() implies (#[trigger] edge_pairs(edges)[i]).1 < 0x1_0000_0000 by {
            if i < head.len() {
                assert(edge_pairs(edges)[i] == head[i]);
            } else {
                let m = i - head.len();
                assert(edge_pairs(edges)[i] == tail[m]);
                let x = sorted_by_key(t)[m];
                lemma_sorted_members(t);
                assert(t.contains(x));
                let k = choose|k: int| 0 <= k < t.len() && t[k] == x;
                assert(edges[edges.len() - 1][k] == x);
            }
        }
    }
}

fn lane_of(from: usize, to: usize) -> (l: u64)
    ensures
        l == lane_code(from, to),
{
    ((from as u64) << 32u64) | (to as u64)
}

/// Build the propagation sequence of `graph`: one descriptor per edge in
/// lexicographic `(from, to)` order, numbered from 0, with the lane id of
/// the edge, the target node, and the source's clamped activation pull;
/// the provenance carries the three given counters.
pub fn build_structural_propagation_sequence(
    graph: &TopologyGraph,
    originating_tick: u64,
    topology_generation: u64,
    continuity_epoch: u64,
) -> (s: StructuralPropagationSequence)
    ensures
        s.descriptors@ == Seq::new(
            edge_pairs(adjacency(*graph)).len(),
            |i: int| edge_descriptor(
                graph.nodes@,
                edge_pairs(adjacency(*graph))[i],
                i,
                originating_tick,
                topology_generation,
                continuity_epoch,
            ),
        ),
{
    let ghost adj = adjacency(*graph);
    let mut pairs: Vec<(usize, usize)> = Vec::new();
    let mut from: usize = 0;
    while from < graph.edges.len()
        invariant
            from <= graph.edges@.len(),
            adj == adjacency(*graph),
            pairs@ == edge_pairs(adj.take(from as int)),
        decreases graph.edges@.len() - from,
    {
        let mut targets = graph.edges[from].clone();
        assert(targets@ == adj[from as int]);
        stable_sort_by_key(&mut targets);
        proof {
            lemma_sorted_by_key(adj[from as int]);
            lemma_stable_sort_unique(adj[from as int], targets@, sorted_by_key(adj[from as int]));
        }
        let ghost before = pairs@;
        let mut k: usize = 0;
        while k < targets.len()
            invariant
                k <= targets@.len(),
                pairs@ == before + targets@.take(k as int).map_values(|to: usize| (from, to)),
            decreases targets@.len() - k,
        {
            pairs.push((from, targets[k]));
            k += 1;
            assert(targets@.take(k as int).map_values(|to: usize| (from, to)) =~= targets@.take((k - 1) as int).map_values(|to: usize| (from, to)).push((from, targets@[k - 1])));
        }
        assert(targets@.take(k as int) =~= targets@);
        assert(adj.take(from + 1).drop_last() =~= adj.take(from as int));
        from += 1;
    }
    assert(adj.take(from as int) =~= adj);
    let mut descriptors: Vec<StructuralPropagationDescriptor> = Vec::new();
    let mut i: usize = 0;
    while i < pairs.len()
        invariant
            i <= pairs@.len(),
            pairs@ == edge_pairs(adj),
            adj == adjacency(*graph),
            descriptors@ == Seq::new(
                i as nat,
                |j: int| edge_descriptor(graph.nodes@, pairs@[j], j, originating_tick, topology_generation, continuity_epoch),
            ),
        decreases pairs@.len() - i,
    {
        let (f, t) = pairs[i];
        let weight: u32 = if f < graph.nodes.len() { f32_bits_clamp(graph.nodes[f].activation_pull) } else { 0 };
        let seq_index: u64 = i as u64;
        descriptors.push(
            StructuralPropagationDescriptor {
                lane_id: MorphogenicLaneId(lane_of(f, t)),
                deterministic_sequence_index: seq_index,
                provenance: StructuralProvenance {
                    originating_tick,
                    topology_generation,
                    lane_sequence_index: seq_index,
                    continuity_epoch,
                },
                target_node: t,
                reinforcement_weight: weight,
            },
        );
        i += 1;
        assert(descriptors@ =~= Seq::new(
            i as nat,
            |j: int| edge_descriptor(graph.nodes@, pairs@[j], j, originating_tick, topology_generation, continuity_epoch),
        ));
    }
    let ghost d = descriptors@;
    proof {
        assert(key_sorted(d)) by {
            assert forall|a: int, b: int| 0 <= a < b < d.len() implies d[a].canonical_key() <= d[b].canonical_key() by {
                assert(d[a].deterministic_sequence_index == a as u64);
                assert(d[b].deterministic_sequence_index == b as u64);
            }
        }
    }
    let s = StructuralPropagationSequence::from_descriptors(descriptors);
    proof {
        assert(stable_sorted(d, d));
        lemma_stable_sort_unique(d, d, s.descriptors@);
    }
    s
}

/// Each source's targets are taken in ascending order, and they are
/// exactly the source's adjacency list: same length, same targets.
pub proof fn lemma_targets_ascending(targets: Seq<usize>)
    ensures
        sorted_by_key(targets).len() == targets.len(),
        forall|i: int, j: int| 0 <= i < j < sorted_by_key(targets).len() ==> sorted_by_key(targets)[i]
            <= sorted_by_key(targets)[j],
        forall|t: usize| sorted_by_key(targets).contains(t) <==> targets.contains(t),
{
    lemma_sorted_by_key(targets);
    lemma_stable_sorted_members(targets, sorted_by_key(targets));
    assert forall|i: int, j: int| 0 <= i < j < sorted_by_key(targets).len() implies sorted_by_key(targets)[i]
        <= sorted_by_key(targets)[j] by {
        assert(sorted_by_key(targets)[i].canonical_key() <= sorted_by_key(targets)[j].canonical_key());
    }
}

} // verus!
