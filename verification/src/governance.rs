//! Pure deterministic validators of topology structure and ordering.
use vstd::prelude::*;

verus! {

/// Processing domain of a topology node.
#[derive(Debug, Clone, Copy, PartialEq, Eq, Structural)]
pub enum ExecutionLane {
    Background,
    Physics,
    Streaming,
}

/// The structural part of a topology node: its identity, its lane, and the
/// bit pattern of its `f32` activation pull.
#[derive(Debug, Clone, Copy, PartialEq, Eq, Structural)]
pub struct TopologyNode {
    pub id: usize,
    pub execution_lane: ExecutionLane,
    pub activation_pull: u32,
}

/// Topology structure: nodes, per-node adjacency lists, and the flat edge
/// list with its per-edge access counters.
#[derive(Debug, Clone)]
pub struct TopologyGraph {
    pub nodes: Vec<TopologyNode>,
    pub edges: Vec<Vec<usize>>,
    pub flat_edges: Vec<(usize, usize)>,
    pub access_frequency: Vec<u64>,
}

impl TopologyGraph {
    pub fn new() -> (g: Self)
        ensures
            g.nodes@.len() == 0,
            g.edges@.len() == 0,
            g.flat_edges@.len() == 0,
            g.access_frequency@.len() == 0,
    {
        Self { nodes: Vec::new(), edges: Vec::new(), flat_edges: Vec::new(), access_frequency: Vec::new() }
    }

    /// Append a node together with its (empty) adjacency list.
    pub fn add_node(&mut self, node: TopologyNode)
        ensures
            final(self).nodes@ == old(self).nodes@.push(node),
            final(self).edges@.len() == old(self).edges@.len() + 1,
            forall|i: int| 0 <= i < old(self).edges@.len() ==> final(self).edges@[i] == old(self).edges@[i],
            final(self).edges@[old(self).edges@.len() as int]@.len() == 0,
            final(self).flat_edges@ == old(self).flat_edges@,
            final(self).access_frequency@ == old(self).access_frequency@,
    {
        self.nodes.push(node);
        self.edges.push(Vec::new());
    }

    /// Add the edge `from → to` when `from` has an adjacency list; the flat
    /// edge list gains the pair with a zero access counter.
    pub fn add_edge(&mut self, from: usize, to: usize)
        ensures
            final(self).nodes@ == old(self).nodes@,
            final(self).edges@.len() == old(self).edges@.len(),
            from < old(self).edges@.len() ==> final(self).edges@[from as int]@ == old(self).edges@[from as int]@.push(to)
                && final(self).flat_edges@ == old(self).flat_edges@.push((from, to))
                && final(self).access_frequency@ == old(self).access_frequency@.push(0u64),
            from >= old(self).edges@.len() ==> final(self).flat_edges@ == old(self).flat_edges@
                && final(self).access_frequency@ == old(self).access_frequency@,
            forall|i: int| 0 <= i < old(self).edges@.len() && i != from ==> final(self).edges@[i] == old(self).edges@[i],
    {
        if from < self.edges.len() {
            self.edges[from].push(to);
            self.flat_edges.push((from, to));
            self.access_frequency.push(0u64);
        }
    }
}

/// Every node has an adjacency list and vice versa.
pub open spec fn ownership_canonical(g: TopologyGraph) -> bool {
    g.nodes@.len() == g.edges@.len()
}

/// Every node's id is its position.
pub open spec fn nodes_canonical(g: TopologyGraph) -> bool {
    forall|i: int| 0 <= i < g.nodes@.len() ==> #[trigger] g.nodes@[i].id == i
}

/// Every adjacency target names an existing node.
pub open spec fn edges_in_bounds(g: TopologyGraph) -> bool {
    forall|f: int, k: int|
        0 <= f < g.edges@.len() && 0 <= k < g.edges@[f]@.len() ==> #[trigger] g.edges@[f]@[k] < g.nodes@.len()
}

/// `s` never decreases.
pub open spec fn non_decreasing(s: Seq<u64>) -> bool {
    forall|i: int, j: int| 0 <= i <= j < s.len() ==> s[i] <= s[j]
}

proof fn lemma_adjacent_chain(s: Seq<u64>, i: int, j: int)
    requires
        forall|k: int| 1 <= k < s.len() ==> s[k - 1] <= #[trigger] s[k],
        0 <= i <= j < s.len(),
    ensures
        s[i] <= s[j],
    decreases j - i,
{
    if i < j {
        lemma_adjacent_chain(s, i, j - 1);
        assert(s[j - 1] <= s[j]);
    }
}

proof fn lemma_adjacent_sorted(s: Seq<u64>)
    requires
        forall|k: int| 1 <= k < s.len() ==> s[k - 1] <= #[trigger] s[k],
    ensures
        non_decreasing(s),
{
    assert forall|i: int, j: int| 0 <= i <= j < s.len() implies s[i] <= s[j] by {
        lemma_adjacent_chain(s, i, j);
    }
}

/// Validate that every node has an adjacency list (`nodes.len() == edges.len()`).
pub fn validate_topology_canonical_ownership(graph: &TopologyGraph) -> (res: Result<(), &'static str>)
    ensures
        res is Ok == ownership_canonical(*graph),
        res is Err ==> res == Err::<(), &'static str>(
            "topology canonical ownership violated: nodes.len() != edges.len()",
        ),
{
    if graph.nodes.len() != graph.edges.len() {
        return Err("topology canonical ownership violated: nodes.len() != edges.len()");
    }
    Ok(())
}

/// Validate that node ids are their positions `0, 1, 2, ...`.
pub fn validate_topology_node_ordering(graph: &TopologyGraph) -> (res: Result<(), &'static str>)
    ensures
        res is Ok == nodes_canonical(*graph),
        res is Err ==> res == Err::<(), &'static str>(
            "topology node ordering violated: node.id does not match its index in nodes[]",
        ),
{
    let n = graph.nodes.len();
    let mut i: usize = 0;
    while i < n
        invariant
            n == graph.nodes@.len(),
            i <= n,
            forall|k: int| 0 <= k < i ==> #[trigger] graph.nodes@[k].id == k,
        decreases n - i,
    {
        if graph.nodes[i].id != i {
            return Err("topology node ordering violated: node.id does not match its index in nodes[]");
        }
        i = i + 1;
    }
    Ok(())
}

/// Validate that a sequence of lane ids never decreases.
pub fn validate_lane_ids_stable(indices: &[u64]) -> (res: Result<(), &'static str>)
    ensures
        res is Ok == non_decreasing(indices@),
        res is Err ==> res == Err::<(), &'static str>("lane ordering violated: indices are not non-decreasing"),
{
    let n = indices.len();
    let mut i: usize = 1;
    while i < n
        invariant
            n == indices@.len(),
            1 <= i,
            forall|k: int| 1 <= k < i && k < n ==> indices@[k - 1] <= #[trigger] indices@[k],
        decreases n - i,
    {
        if indices[i - 1] > indices[i] {
            return Err("lane ordering violated: indices are not non-decreasing");
        }
        i = i + 1;
    }
    proof {
        lemma_adjacent_sorted(indices@);
    }
    Ok(())
}

/// Validate that propagation descriptor sequence indices never decrease.
pub fn validate_propagation_descriptor_order(indices: &[u64]) -> (res: Result<(), &'static str>)
    ensures
        res is Ok == non_decreasing(indices@),
        res is Err ==> res == Err::<(), &'static str>(
            "propagation descriptor ordering violated: sequence indices are not non-decreasing",
        ),
{
    let n = indices.len();
    let mut i: usize = 1;
    while i < n
        invariant
            n == indices@.len(),
            1 <= i,
            forall|k: int| 1 <= k < i && k < n ==> indices@[k - 1] <= #[trigger] indices@[k],
        decreases n - i,
    {
        if indices[i - 1] > indices[i] {
            return Err("propagation descriptor ordering violated: sequence indices are not non-decreasing");
        }
        i = i + 1;
    }
    proof {
        lemma_adjacent_sorted(indices@);
    }
    Ok(())
}

/// Validate the whole structure: ownership, node ordering, edge bounds,
/// and that flat edges and access counters pair up; the first violated
/// check is reported.
pub fn validate_topology_full_consistency(graph: &TopologyGraph) -> (res: Result<(), &'static str>)
    ensures
        res is Ok == (ownership_canonical(*graph) && nodes_canonical(*graph) && edges_in_bounds(*graph)
            && graph.flat_edges@.len() == graph.access_frequency@.len()),
        !ownership_canonical(*graph) ==> res == Err::<(), &'static str>(
            "topology canonical ownership violated: nodes.len() != edges.len()",
        ),
        ownership_canonical(*graph) && !nodes_canonical(*graph) ==> res == Err::<(), &'static str>(
            "topology node ordering violated: node.id does not match its index in nodes[]",
        ),
        ownership_canonical(*graph) && nodes_canonical(*graph) && !edges_in_bounds(*graph) ==> res == Err::<
            (),
            &'static str,
        >("topology edge target is out of bounds"),
        ownership_canonical(*graph) && nodes_canonical(*graph) && edges_in_bounds(*graph)
            && graph.flat_edges@.len() != graph.access_frequency@.len() ==> res == Err::<(), &'static str>(
            "topology internal inconsistency: flat_edges.len() != access_frequency.len()",
        ),
{
    let r = validate_topology_canonical_ownership(graph);
    if r.is_err() {
        return r;
    }
    let r = validate_topology_node_ordering(graph);
    if r.is_err() {
        return r;
    }
    let n = graph.nodes.len();
    let m = graph.edges.len();
    let mut from: usize = 0;
    while from < m
        invariant
            m == graph.edges@.len(),
            n == graph.nodes@.len(),
            ownership_canonical(*graph),
            nodes_canonical(*graph),
            from <= m,
            forall|f: int, k: int|
                0 <= f < from && 0 <= k < graph.edges@[f]@.len() ==> #[trigger] graph.edges@[f]@[k] < n,
        decreases m - from,
    {
        let targets = &graph.edges[from];
        let t = targets.len();
        let mut k: usize = 0;
        while k < t
            invariant
                m == graph.edges@.len(),
                n == graph.nodes@.len(),
                ownership_canonical(*graph),
                nodes_canonical(*graph),
                from < m,
                *targets == graph.edges@[from as int],
                t == targets@.len(),
                k <= t,
                forall|f: int, q: int|
                    0 <= f < from && 0 <= q < graph.edges@[f]@.len() ==> #[trigger] graph.edges@[f]@[q] < n,
                forall|q: int| 0 <= q < k ==> #[trigger] graph.edges@[from as int]@[q] < n,
            decreases t - k,
        {
            if targets[k] >= n {
                return Err("topology edge target is out of bounds");
            }
            k = k + 1;
        }
        from = from + 1;
    }
    if graph.flat_edges.len() != graph.access_frequency.len() {
        return Err("topology internal inconsistency: flat_edges.len() != access_frequency.len()");
    }
    Ok(())
}

} // verus!
