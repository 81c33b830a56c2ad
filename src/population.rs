//! The population: graphs of nodes with parametric activations and weighted
//! incoming edges. Every float is held as its IEEE-754 single-precision bit
//! pattern.

use vstd::prelude::*;

verus! {

/// The five coefficients `a` to `e` of a node's parametric activation
/// function, each the bit pattern of a single-precision float.
#[derive(Clone, Copy, Debug, PartialEq, Eq, Structural)]
pub struct NeatUafActivation {
    pub a: u32,
    pub b: u32,
    pub c: u32,
    pub d: u32,
    pub e: u32,
}

impl NeatUafActivation {
    pub fn new(a: u32, b: u32, c: u32, d: u32, e: u32) -> (r: Self)
        ensures
            r == (NeatUafActivation { a, b, c, d, e }),
    {
        NeatUafActivation { a, b, c, d, e }
    }

    /// Coefficient `i` of `a`, `b`, `c`, `d`: the four that fill a texel.
    pub open spec fn channel(self, i: int) -> u32 {
        if i == 0 {
            self.a
        } else if i == 1 {
            self.b
        } else if i == 2 {
            self.c
        } else {
            self.d
        }
    }
}

/// An incoming edge: its weight (single-precision bit pattern) and the index,
/// in the same graph, of the node it comes from.
#[derive(Clone, Copy, Debug, PartialEq, Eq, Structural)]
pub struct NeatEdge {
    pub weight: u32,
    pub source: usize,
}

impl NeatEdge {
    pub fn new(weight: u32, source: usize) -> (r: Self)
        ensures
            r == (NeatEdge { weight, source }),
    {
        NeatEdge { weight, source }
    }
}

/// A node: its activation and its incoming edges, in slot order.
#[derive(Clone, Debug)]
pub struct NeatNode {
    pub activation: NeatUafActivation,
    pub source_edges: Vec<NeatEdge>,
}

impl NeatNode {
    pub fn new(activation: NeatUafActivation, source_edges: Vec<NeatEdge>) -> (r: Self)
        ensures
            r.activation == activation,
            r.source_edges@ == source_edges@,
    {
        NeatNode { activation, source_edges }
    }
}

/// A graph: its nodes, whose positions are the indices that edges name.
#[derive(Clone, Debug)]
pub struct NeatGraph {
    pub nodes: Vec<NeatNode>,
}

impl NeatGraph {
    pub fn new(nodes: Vec<NeatNode>) -> (r: Self)
        ensures
            r.nodes@ == nodes@,
    {
        NeatGraph { nodes }
    }
}

/// A population of graphs. The maximum number of edges per node is either
/// declared (`Some`) or, when `None`, derived from the graphs.
#[derive(Clone, Debug)]
pub struct NeatPopulation {
    pub graphs: Vec<NeatGraph>,
    pub max_edge_count: Option<u32>,
}

impl NeatPopulation {
    /// A population whose maximum edge count is derived from its graphs.
    pub fn new(graphs: Vec<NeatGraph>) -> (r: Self)
        ensures
            r.graphs@ == graphs@,
            r.max_edge_count.is_none(),
    {
        NeatPopulation { graphs, max_edge_count: None }
    }

    /// A population with a declared maximum edge count per node.
    pub fn with_max_edge_count(graphs: Vec<NeatGraph>, max_edge_count: u32) -> (r: Self)
        ensures
            r.graphs@ == graphs@,
            r.max_edge_count == Some(max_edge_count),
    {
        NeatPopulation { graphs, max_edge_count: Some(max_edge_count) }
    }

    /// Number of nodes of graph `p`.
    pub open spec fn node_count(self, p: int) -> int {
        self.graphs@[p].nodes@.len() as int
    }

    /// Number of edges of node `j` of graph `p`.
    pub open spec fn edge_count(self, p: int, j: int) -> int {
        self.graphs@[p].nodes@[j].source_edges@.len() as int
    }

    /// Edge `k` of node `j` of graph `p`.
    pub open spec fn edge(self, p: int, j: int, k: int) -> NeatEdge {
        self.graphs@[p].nodes@[j].source_edges@[k]
    }

    /// The most nodes that any graph has (zero for no graph).
    pub open spec fn max_node_count(self) -> int {
        max_node_count_of(self.graphs@, self.graphs@.len() as int)
    }

    /// The most edges that any node of any graph has (zero for no node).
    pub open spec fn derived_max_edge_count(self) -> int {
        max_edge_count_of(self.graphs@, self.graphs@.len() as int)
    }

    /// The number of edge layers: the declared maximum, else the derived one.
    pub open spec fn layer_count(self) -> int {
        match self.max_edge_count {
            Some(m) => m as int,
            None => self.derived_max_edge_count(),
        }
    }

    /// No graph, or no graph with a node.
    pub open spec fn is_empty(self) -> bool {
        forall|p: int| 0 <= p < self.graphs@.len() ==> #[trigger] self.node_count(p) == 0
    }

    /// Every edge names a node of its own graph, and no node has more edges
    /// than there are layers.
    pub open spec fn topology_ok(self) -> bool {
        &&& forall|p: int, j: int, k: int|
            0 <= p < self.graphs@.len() && 0 <= j < self.node_count(p) && 0 <= k < self.edge_count(p, j)
                ==> #[trigger] self.edge(p, j, k).source < self.node_count(p)
        &&& forall|p: int, j: int|
            0 <= p < self.graphs@.len() && 0 <= j < self.node_count(p)
                ==> #[trigger] self.edge_count(p, j) <= self.layer_count()
    }
}

/// The most nodes among the first `n` graphs.
pub open spec fn max_node_count_of(graphs: Seq<NeatGraph>, n: int) -> int
    decreases n,
{
    if n <= 0 {
        0
    } else {
        let m = max_node_count_of(graphs, n - 1);
        let c = graphs[n - 1].nodes@.len() as int;
        if c > m { c } else { m }
    }
}

/// The most edges among the first `n` nodes.
pub open spec fn max_edges_of_nodes(nodes: Seq<NeatNode>, n: int) -> int
    decreases n,
{
    if n <= 0 {
        0
    } else {
        let m = max_edges_of_nodes(nodes, n - 1);
        let c = nodes[n - 1].source_edges@.len() as int;
        if c > m { c } else { m }
    }
}

/// The most edges of a node among the first `n` graphs.
pub open spec fn max_edge_count_of(graphs: Seq<NeatGraph>, n: int) -> int
    decreases n,
{
    if n <= 0 {
        0
    } else {
        let m = max_edge_count_of(graphs, n - 1);
        let c = max_edges_of_nodes(graphs[n - 1].nodes@, graphs[n - 1].nodes@.len() as int);
        if c > m { c } else { m }
    }
}

/// `max_node_count_of` bounds every graph it ranges over, and is zero
/// exactly when all those graphs are empty.
pub proof fn lemma_max_node_count_of(graphs: Seq<NeatGraph>, n: int)
    requires
        0 <= n <= graphs.len(),
    ensures
        max_node_count_of(graphs, n) >= 0,
        forall|p: int| 0 <= p < n ==> #[trigger] graphs[p].nodes@.len() <= max_node_count_of(graphs, n),
        (forall|p: int| 0 <= p < n ==> #[trigger] graphs[p].nodes@.len() == 0) ==> max_node_count_of(graphs, n) == 0,
    decreases n,
{
    if n > 0 {
        lemma_max_node_count_of(graphs, n - 1);
    }
}

/// `max_edges_of_nodes` bounds the edge count of every node it ranges over.
pub proof fn lemma_max_edges_of_nodes(nodes: Seq<NeatNode>, n: int)
    requires
        0 <= n <= nodes.len(),
    ensures
        max_edges_of_nodes(nodes, n) >= 0,
        forall|j: int| 0 <= j < n ==> #[trigger] nodes[j].source_edges@.len() <= max_edges_of_nodes(nodes, n),
    decreases n,
{
    if n > 0 {
        lemma_max_edges_of_nodes(nodes, n - 1);
    }
}

/// `max_edge_count_of` bounds the edge count of every node of every graph it
/// ranges over.
pub proof fn lemma_max_edge_count_of(graphs: Seq<NeatGraph>, n: int)
    requires
        0 <= n <= graphs.len(),
    ensures
        max_edge_count_of(graphs, n) >= 0,
        forall|p: int, j: int|
            0 <= p < n && 0 <= j < graphs[p].nodes@.len()
                ==> #[trigger] graphs[p].nodes@[j].source_edges@.len() <= max_edge_count_of(graphs, n),
    decreases n,
{
    if n > 0 {
        lemma_max_edge_count_of(graphs, n - 1);
        lemma_max_edges_of_nodes(graphs[n - 1].nodes@, graphs[n - 1].nodes@.len() as int);
    }
}

} // verus!
