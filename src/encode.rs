//! The graph encoder: fills the activation, edge and node buffers of a
//! population's field.

use crate::address::map_address;
use crate::float_bits::{int_f32_bits, int_to_f32_bits, le_byte, le_bytes_of, words_to_le_bytes, EXACT_INT_LIMIT};
use crate::grid::{pack_2d, packed, PackError};
use crate::layout::{lemma_owner_unique, lemma_stacked_index, lemma_texel_of, FieldLayout};
use crate::population::{
    lemma_max_edge_count_of, lemma_max_node_count_of, max_edge_count_of, max_edges_of_nodes,
    max_node_count_of, NeatGraph, NeatNode, NeatPopulation,
};
use vstd::arithmetic::div_mod::{lemma_fundamental_div_mod, lemma_fundamental_div_mod_converse};
use vstd::prelude::*;

verus! {

/// The most nodes that any of `graphs` has.
fn scan_max_node_count(graphs: &Vec<NeatGraph>) -> (r: usize)
    ensures
        r == max_node_count_of(graphs@, graphs@.len() as int),
{
    let mut m: usize = 0;
    let mut p: usize = 0;
    while p < graphs.len()
        invariant
            p <= graphs.len(),
            m == max_node_count_of(graphs@, p as int),
        decreases graphs.len() - p,
    {
        let c = graphs[p].nodes.len();
        if c > m {
            m = c;
        }
        p = p + 1;
    }
    m
}

/// The most edges that any of `nodes` has.
fn scan_max_edges_of_nodes(nodes: &Vec<NeatNode>) -> (r: usize)
    ensures
        r == max_edges_of_nodes(nodes@, nodes@.len() as int),
{
    let mut m: usize = 0;
    let mut j: usize = 0;
    while j < nodes.len()
        invariant
            j <= nodes.len(),
            m == max_edges_of_nodes(nodes@, j as int),
        decreases nodes.len() - j,
    {
        let c = nodes[j].source_edges.len();
        if c > m {
            m = c;
        }
        j = j + 1;
    }
    m
}

/// The most edges that any node of any of `graphs` has.
fn scan_max_edge_count(graphs: &Vec<NeatGraph>) -> (r: usize)
    ensures
        r == max_edge_count_of(graphs@, graphs@.len() as int),
{
    let mut m: usize = 0;
    let mut p: usize = 0;
    while p < graphs.len()
        invariant
            p <= graphs.len(),
            m == max_edge_count_of(graphs@, p as int),
        decreases graphs.len() - p,
    {
        let c = scan_max_edges_of_nodes(&graphs[p].nodes);
        if c > m {
            m = c;
        }
        p = p + 1;
    }
    m
}

/// Whether every edge names a node of its graph and no node has more than
/// `layers` edges.
fn scan_topology(population: &NeatPopulation, layers: usize) -> (r: bool)
    requires
        layers == population.layer_count(),
    ensures
        r == population.topology_ok(),
{
    let graphs = &population.graphs;
    let mut p: usize = 0;
    while p < graphs.len()
        invariant
            graphs == &population.graphs,
            layers == population.layer_count(),
            p <= graphs.len(),
            forall|q: int, j: int, k: int|
                0 <= q < p && 0 <= j < population.node_count(q) && 0 <= k < population.edge_count(q, j)
                    ==> #[trigger] population.edge(q, j, k).source < population.node_count(q),
            forall|q: int, j: int|
                0 <= q < p && 0 <= j < population.node_count(q)
                    ==> #[trigger] population.edge_count(q, j) <= layers,
        decreases graphs.len() - p,
    {
        let nodes = &graphs[p].nodes;
        let mut j: usize = 0;
        while j < nodes.len()
            invariant
                graphs == &population.graphs,
                nodes == &graphs@[p as int].nodes,
                layers == population.layer_count(),
                p < graphs.len(),
                j <= nodes.len(),
                forall|q: int, i: int, k: int|
                    0 <= q < p && 0 <= i < population.node_count(q) && 0 <= k < population.edge_count(q, i)
                        ==> #[trigger] population.edge(q, i, k).source < population.node_count(q),
                forall|q: int, i: int|
                    0 <= q < p && 0 <= i < population.node_count(q)
                        ==> #[trigger] population.edge_count(q, i) <= layers,
                forall|i: int, k: int|
                    0 <= i < j && 0 <= k < population.edge_count(p as int, i)
                        ==> #[trigger] population.edge(p as int, i, k).source < population.node_count(p as int),
                forall|i: int| 0 <= i < j ==> #[trigger] population.edge_count(p as int, i) <= layers,
            decreases nodes.len() - j,
        {
            let edges = &nodes[j].source_edges;
            if edges.len() > layers {
                assert(population.edge_count(p as int, j as int) > layers);
                return false;
            }
            let mut k: usize = 0;
            while k < edges.len()
                invariant
                    graphs == &population.graphs,
                    nodes == &graphs@[p as int].nodes,
                    edges == &nodes@[j as int].source_edges,
                    p < graphs.len(),
                    j < nodes.len(),
                    k <= edges.len(),
                    forall|e: int| 0 <= e < k
                        ==> #[trigger] population.edge(p as int, j as int, e).source < population.node_count(p as int),
                decreases edges.len() - k,
            {
                if edges[k].source >= nodes.len() {
                    assert(population.edge(p as int, j as int, k as int).source >= population.node_count(p as int));
                    return false;
                }
                k = k + 1;
            }
            j = j + 1;
        }
        p = p + 1;
    }
    true
}

/// The slot of texel `t` holds a node of the population.
pub open spec fn holds_node(population: NeatPopulation, l: FieldLayout, t: int) -> bool {
    let o = l.owner(t);
    &&& 0 <= o.0 < population.graphs@.len()
    &&& 0 <= o.1 < population.node_count(o.0)
}

/// Word `i` of the activation buffer: channel `i % 4` of texel `i / 4`, the
/// coefficients `a`, `b`, `c`, `d` of the node there, or zero.
pub open spec fn activation_word(population: NeatPopulation, l: FieldLayout, i: int) -> u32 {
    let o = l.owner(i / 4);
    if holds_node(population, l, i / 4) {
        population.graphs@[o.0].nodes@[o.1].activation.channel(i % 4)
    } else {
        0
    }
}

/// Word `i` of the edge buffer: channel `i % 4` of texel `t` of layer `k`,
/// where `i / 4 == k * texel_count + t`. Edge `k` of the node at `t` fills it
/// with its source's coordinate `x`, `y` (as exact floats) and its weight,
/// twice; with no such edge it is zero.
pub open spec fn edge_word(population: NeatPopulation, l: FieldLayout, i: int) -> u32 {
    let n = l.texel_count();
    let k = (i / 4) / n;
    let t = (i / 4) % n;
    let o = l.owner(t);
    let c = i % 4;
    if holds_node(population, l, t) && k < population.edge_count(o.0, o.1) {
        let e = population.edge(o.0, o.1, k);
        let s = l.coord(o.0, e.source as int);
        if c == 0 {
            int_f32_bits(s.0) as u32
        } else if c == 1 {
            int_f32_bits(s.1) as u32
        } else {
            e.weight
        }
    } else {
        0
    }
}

/// The words of the activation buffer, four per texel.
pub open spec fn activation_words(population: NeatPopulation, l: FieldLayout) -> Seq<u32> {
    Seq::new((4 * l.texel_count()) as nat, |i: int| activation_word(population, l, i))
}

/// The words of the edge buffer: `max_edge_count` layers of four per texel.
pub open spec fn edge_words(population: NeatPopulation, l: FieldLayout) -> Seq<u32> {
    Seq::new(
        (4 * l.texel_count() * l.max_edge_count) as nat,
        |i: int| edge_word(population, l, i),
    )
}

/// `l` can hold `population`: every graph has a tile, every node a texel in
/// it, every edge a layer and a source in its graph; coordinates are exact
/// floats and the buffers' byte lengths fit in a `usize`.
pub open spec fn layout_fits(population: NeatPopulation, l: FieldLayout) -> bool {
    &&& l.valid()
    &&& population.graphs@.len() <= l.population_width * l.population_height
    &&& population.graphs@.len() <= u32::MAX
    &&& forall|p: int|
        0 <= p < population.graphs@.len() ==> #[trigger] population.node_count(p) <= l.agent_width
            * l.agent_height && population.node_count(p) <= u32::MAX
    &&& population.topology_ok()
    &&& population.layer_count() == l.max_edge_count
    &&& l.width() <= EXACT_INT_LIMIT
    &&& l.height() <= EXACT_INT_LIMIT
    &&& 16 * l.texel_count() <= usize::MAX
    &&& 16 * l.texel_count() * l.max_edge_count <= usize::MAX
}

/// The node of texel `t` comes before node `j` of graph `p`.
spec fn filled_before(l: FieldLayout, t: int, p: int, j: int) -> bool {
    let o = l.owner(t);
    o.0 < p || (o.0 == p && o.1 < j)
}

/// The activation and edge words of `population` in the field `l`.
#[verifier::loop_isolation(false)]
fn fill_words(population: &NeatPopulation, l: FieldLayout) -> (r: (Vec<u32>, Vec<u32>))
    requires
        layout_fits(*population, l),
    ensures
        r.0@ == activation_words(*population, l),
        r.1@ == edge_words(*population, l),
{
    let pw = l.population_width;
    let ph = l.population_height;
    let aw = l.agent_width;
    let ah = l.agent_height;
    let layers = l.max_edge_count;
    let w: usize = pw as usize * aw as usize;
    let h: usize = ph as usize * ah as usize;
    let n: usize = w * h;
    assert(4 * n * layers <= 16 * n * layers) by (nonlinear_arith);
    assert(n >= 1 && n == l.texel_count()) by (nonlinear_arith)
        requires
            pw >= 1,
            aw >= 1,
            ph >= 1,
            ah >= 1,
            w == pw * aw,
            h == ph * ah,
            n == w * h,
            w == l.width(),
            h == l.height(),
            l.texel_count() == l.width() * l.height(),
    ;
    let mut act: Vec<u32> = vec![0u32; 4 * n];
    let mut edg: Vec<u32> = vec![0u32; 4 * n * layers as usize];
    let ghost pop = *population;
    assert forall|i: int| 0 <= i < 4 * n implies act@[i] == (if filled_before(l, i / 4, 0, 0) {
        activation_word(pop, l, i)
    } else {
        0
    }) by {
        lemma_owner_unique(l, i / 4);
    }
    assert forall|i: int| 0 <= i < 4 * n * layers implies edg@[i] == (if filled_before(l, (i / 4) % (n as int), 0, 0) {
        edge_word(pop, l, i)
    } else {
        0
    }) by {
        lemma_owner_unique(l, (i / 4) % (n as int));
    }
    let graphs = &population.graphs;
    let mut p: usize = 0;
    while p < graphs.len()
        invariant
            p <= graphs.len(),
            act.len() == 4 * n,
            edg.len() == 4 * n * layers,
            forall|i: int| 0 <= i < 4 * n ==> #[trigger] act@[i] == (if filled_before(l, i / 4, p as int, 0) {
                activation_word(pop, l, i)
            } else {
                0
            }),
            forall|i: int| 0 <= i < 4 * n * layers ==> #[trigger] edg@[i] == (if filled_before(l, (i / 4) % (n as int), p as int, 0) {
                edge_word(pop, l, i)
            } else {
                0
            }),
        decreases graphs.len() - p,
    {
        let nodes = &graphs[p].nodes;
        let mut j: usize = 0;
        while j < nodes.len()
            invariant
                p < graphs.len(),
                nodes == &graphs@[p as int].nodes,
                j <= nodes.len(),
                act.len() == 4 * n,
                edg.len() == 4 * n * layers,
                forall|i: int| 0 <= i < 4 * n ==> #[trigger] act@[i] == (if filled_before(l, i / 4, p as int, j as int) {
                    activation_word(pop, l, i)
                } else {
                    0
                }),
                forall|i: int| 0 <= i < 4 * n * layers ==> #[trigger] edg@[i] == (if filled_before(l, (i / 4) % (n as int), p as int, j as int) {
                    edge_word(pop, l, i)
                } else {
                    0
                }),
            decreases nodes.len() - j,
        {
            assert(pop.node_count(p as int) <= aw * ah);
            let (x, y) = map_address(p as u32, (pw, ph), j as u32, (aw, ah));
            proof {
                lemma_texel_of(l, p as int, j as int);
                assert(y * w + x < n);
            }
            let t0: usize = y as usize * w + x as usize;
            assert(t0 == l.texel_of(p as int, j as int));
            let node = &nodes[j];
            let a = node.activation;
            let ghost act0 = act@;
            act[4 * t0] = a.a;
            act[4 * t0 + 1] = a.b;
            act[4 * t0 + 2] = a.c;
            act[4 * t0 + 3] = a.d;
            assert forall|i: int| 0 <= i < 4 * n implies #[trigger] act@[i] == (if filled_before(l, i / 4, p as int, j + 1) {
                activation_word(pop, l, i)
            } else {
                0
            }) by {
                lemma_owner_unique(l, i / 4);
                if i / 4 != t0 {
                    assert(act@[i] == act0[i]);
                }
            }
            let edges = &node.source_edges;
            let mut k: usize = 0;
            while k < edges.len()
                invariant
                    p < graphs.len(),
                    nodes == &graphs@[p as int].nodes,
                    j < nodes.len(),
                    edges == &nodes@[j as int].source_edges,
                    k <= edges.len(),
                    edg.len() == 4 * n * layers,
                    forall|i: int| 0 <= i < 4 * n * layers ==> #[trigger] edg@[i] == (if filled_before(l, (i / 4) % (n as int), p as int, j as int)
                        || ((i / 4) % (n as int) == t0 && (i / 4) / (n as int) < k) {
                        edge_word(pop, l, i)
                    } else {
                        0
                    }),
                decreases edges.len() - k,
            {
                let e = edges[k];
                assert(pop.edge(p as int, j as int, k as int) == e);
                assert(e.source < pop.node_count(p as int));
                let (sx, sy) = map_address(p as u32, (pw, ph), e.source as u32, (aw, ah));
                proof {
                    assert(pop.edge_count(p as int, j as int) <= pop.layer_count());
                    assert(4 * (k * n + t0) + 4 <= 4 * n * layers) by (nonlinear_arith)
                        requires
                            k < layers,
                            t0 < n,
                    ;
                    lemma_stacked_index(n as int, k as int, t0 as int, 0);
                    lemma_stacked_index(n as int, k as int, t0 as int, 1);
                    lemma_stacked_index(n as int, k as int, t0 as int, 2);
                    lemma_stacked_index(n as int, k as int, t0 as int, 3);
                }
                let base: usize = 4 * (k * n + t0);
                let ghost edg0 = edg@;
                edg[base] = int_to_f32_bits(sx);
                edg[base + 1] = int_to_f32_bits(sy);
                edg[base + 2] = e.weight;
                edg[base + 3] = e.weight;
                assert forall|i: int| 0 <= i < 4 * n * layers implies #[trigger] edg@[i] == (if filled_before(l, (i / 4) % (n as int), p as int, j as int)
                    || ((i / 4) % (n as int) == t0 && (i / 4) / (n as int) < k + 1) {
                    edge_word(pop, l, i)
                } else {
                    0
                }) by {
                    lemma_fundamental_div_mod(i / 4, n as int);
                    if i < base || i >= base + 4 {
                        assert(edg@[i] == edg0[i]);
                        if (i / 4) % (n as int) == t0 && (i / 4) / (n as int) == k {
                            assert((n as int) * (k as int) == (k as int) * (n as int)) by (nonlinear_arith);
                            assert(false);
                        }
                    } else {
                        let c = i - base;
                        lemma_stacked_index(n as int, k as int, t0 as int, c);
                        assert(i == 4 * (k * n + t0) + c);
                        assert(holds_node(pop, l, t0 as int));
                        assert(l.coord(p as int, e.source as int) == (sx as int, sy as int));
                    }
                }
                k = k + 1;
            }
            assert forall|i: int| 0 <= i < 4 * n * layers implies #[trigger] edg@[i] == (if filled_before(l, (i / 4) % (n as int), p as int, j + 1) {
                edge_word(pop, l, i)
            } else {
                0
            }) by {
                lemma_owner_unique(l, (i / 4) % (n as int));
            }
            j = j + 1;
        }
        assert forall|i: int| 0 <= i < 4 * n implies #[trigger] act@[i] == (if filled_before(l, i / 4, p + 1, 0) {
            activation_word(pop, l, i)
        } else {
            0
        }) by {
            lemma_owner_unique(l, i / 4);
        }
        assert forall|i: int| 0 <= i < 4 * n * layers implies #[trigger] edg@[i] == (if filled_before(l, (i / 4) % (n as int), p + 1, 0) {
            edge_word(pop, l, i)
        } else {
            0
        }) by {
            lemma_owner_unique(l, (i / 4) % (n as int));
        }
        p = p + 1;
    }
    assert forall|i: int| 0 <= i < 4 * n implies #[trigger] act@[i] == activation_word(pop, l, i) by {
        lemma_owner_unique(l, i / 4);
    }
    assert forall|i: int| 0 <= i < 4 * n * layers implies #[trigger] edg@[i] == edge_word(pop, l, i) by {
        lemma_owner_unique(l, (i / 4) % (n as int));
    }
    assert(act@ =~= activation_words(pop, l));
    assert(edg@ =~= edge_words(pop, l));
    (act, edg)
}

/// The field of `population`: the population grid packs its graphs, the
/// agent grid the nodes of its largest graph.
pub open spec fn layout_of(population: NeatPopulation) -> FieldLayout {
    let g = packed(population.graphs@.len() as int);
    let a = packed(population.max_node_count());
    FieldLayout {
        population_width: g.0 as u32,
        population_height: g.1 as u32,
        agent_width: a.0 as u32,
        agent_height: a.1 as u32,
        max_edge_count: population.layer_count() as u32,
    }
}

/// The counts fit in a `u32`, every coordinate of the field is an exact
/// float, and each buffer's byte length fits in a `usize`.
pub open spec fn dimensions_fit(population: NeatPopulation) -> bool {
    let l = layout_of(population);
    &&& population.graphs@.len() <= u32::MAX
    &&& population.max_node_count() <= u32::MAX
    &&& population.layer_count() <= u32::MAX
    &&& l.width() <= EXACT_INT_LIMIT
    &&& l.height() <= EXACT_INT_LIMIT
    &&& 16 * l.texel_count() <= usize::MAX
    &&& 16 * l.texel_count() * l.max_edge_count <= usize::MAX
}

/// Why `population` cannot be encoded, checked in this order; `None` when it
/// can.
pub open spec fn encode_error(population: NeatPopulation) -> Option<PackError> {
    if population.is_empty() {
        Some(PackError::EmptyInput)
    } else if !population.topology_ok() {
        Some(PackError::InvalidTopology)
    } else if !dimensions_fit(population) {
        Some(PackError::DimensionOverflow)
    } else {
        None
    }
}

/// The packed buffers of a population, with the shape of their field.
#[derive(Clone, Debug)]
pub struct NeatTextures {
    /// One texel per slot: coefficients `a`, `b`, `c`, `d` as little-endian
    /// single-precision floats. Coefficient `e` is not stored.
    pub activations: Vec<u8>,
    /// `max_edge_count` layers of one texel per slot: the source's `x`, `y`
    /// and the weight, twice.
    pub edges: Vec<u8>,
    /// One texel per slot, all zero: room for the nodes' runtime state.
    pub nodes: Vec<u8>,
    /// Width of the field, in texels.
    pub width: u32,
    /// Height of the field, in texels.
    pub height: u32,
    /// The grids of the field and its number of edge layers.
    pub layout: FieldLayout,
}

impl NeatTextures {
    /// The node buffer.
    pub fn node_data(&self) -> (r: &[u8])
        ensures
            r@ == self.nodes@,
    {
        self.nodes.as_slice()
    }

    /// The edge buffer.
    pub fn output_data(&self) -> (r: &[u8])
        ensures
            r@ == self.edges@,
    {
        self.edges.as_slice()
    }
}

/// `t` is the encoding of `population`.
pub open spec fn encodes(population: NeatPopulation, t: NeatTextures) -> bool {
    let l = t.layout;
    &&& l == layout_of(population)
    &&& layout_fits(population, l)
    &&& t.width == l.width()
    &&& t.height == l.height()
    &&& t.activations@ == le_bytes_of(activation_words(population, l))
    &&& t.edges@ == le_bytes_of(edge_words(population, l))
    &&& t.nodes@ == Seq::new((16 * l.texel_count()) as nat, |i: int| 0u8)
}

/// Packs the population into its field and encodes it: for each node, its
/// activation texel, and for its `k`-th edge, the texel of layer `k`, both
/// at the node's coordinate.
pub fn population_to_textures(population: &NeatPopulation) -> (r: Result<NeatTextures, PackError>)
    ensures
        encode_error(*population) matches Some(e) ==> r == Err::<NeatTextures, PackError>(e),
        encode_error(*population) is None ==> (r matches Ok(t) && encodes(*population, t)),
        r matches Ok(t) ==> {
            &&& t.activations@.len() == t.width * t.height * 4 * 4
            &&& t.nodes@.len() == t.width * t.height * 4 * 4
            &&& t.edges@.len() == t.width * t.height * t.layout.max_edge_count * 4 * 4
        },
{
    let ghost pop = *population;
    let graphs = &population.graphs;
    let population_size = graphs.len();
    let max_node_count = scan_max_node_count(graphs);
    proof {
        lemma_max_node_count_of(graphs@, graphs@.len() as int);
        lemma_max_edge_count_of(graphs@, graphs@.len() as int);
    }
    if population_size == 0 || max_node_count == 0 {
        return Err(PackError::EmptyInput);
    }
    proof {
        if pop.is_empty() {
            assert forall|p: int| 0 <= p < graphs@.len() implies #[trigger] graphs@[p].nodes@.len() == 0 by {
                assert(pop.node_count(p) == 0);
            }
        }
    }
    let layers: usize = match population.max_edge_count {
        Some(m) => m as usize,
        None => scan_max_edge_count(graphs),
    };
    if !scan_topology(population, layers) {
        return Err(PackError::InvalidTopology);
    }
    if population_size > u32::MAX as usize || max_node_count > u32::MAX as usize || layers
        > u32::MAX as usize {
        return Err(PackError::DimensionOverflow);
    }
    let (pw, ph) = match pack_2d(population_size as u32) {
        Ok(g) => g,
        Err(e) => return Err(e),
    };
    let (aw, ah) = match pack_2d(max_node_count as u32) {
        Ok(g) => g,
        Err(e) => return Err(e),
    };
    let layout = FieldLayout {
        population_width: pw,
        population_height: ph,
        agent_width: aw,
        agent_height: ah,
        max_edge_count: layers as u32,
    };
    assert(layout == layout_of(pop));
    assert(pw as u64 * aw as u64 <= 65536 * 65536 && ph as u64 * ah as u64 <= 65536 * 65536)
        by (nonlinear_arith)
        requires
            pw <= 65536,
            aw <= 65536,
            ph <= 65536,
            ah <= 65536,
    ;
    let w: u64 = pw as u64 * aw as u64;
    let h: u64 = ph as u64 * ah as u64;
    if w > EXACT_INT_LIMIT as u64 || h > EXACT_INT_LIMIT as u64 {
        return Err(PackError::DimensionOverflow);
    }
    assert(w * h <= 0x100_0000 * 0x100_0000) by (nonlinear_arith)
        requires
            w <= 0x100_0000,
            h <= 0x100_0000,
    ;
    let texel_bytes: u64 = 16 * (w * h);
    if texel_bytes > usize::MAX as u64 {
        return Err(PackError::DimensionOverflow);
    }
    let edge_bytes: u64 = match texel_bytes.checked_mul(layers as u64) {
        Some(b) => b,
        None => return Err(PackError::DimensionOverflow),
    };
    if edge_bytes > usize::MAX as u64 {
        return Err(PackError::DimensionOverflow);
    }
    assert(4 * (4 * layout.texel_count() * layout.max_edge_count) == 16 * layout.texel_count()
        * layout.max_edge_count) by (nonlinear_arith);
    assert(layout.texel_count() == w * h);
    assert(dimensions_fit(pop));
    assert(layout_fits(pop, layout));
    let (activation_words, edge_words) = fill_words(population, layout);
    let activations = words_to_le_bytes(&activation_words);
    let edges = words_to_le_bytes(&edge_words);
    let nodes: Vec<u8> = vec![0u8; texel_bytes as usize];
    let t = NeatTextures {
        activations,
        edges,
        nodes,
        width: w as u32,
        height: h as u32,
        layout,
    };
    assert(t.nodes@ =~= Seq::new((16 * layout.texel_count()) as nat, |i: int| 0u8));
    assert(t.width * t.height * 4 * 4 == 4 * (4 * layout.texel_count()) && t.width * t.height
        * layers * 4 * 4 == 4 * (4 * layout.texel_count() * layers)) by (nonlinear_arith)
        requires
            t.width == w,
            t.height == h,
            layout.texel_count() == w * h,
    ;
    Ok(t)
}

/// In an encoded population, two different nodes never share a texel.
pub proof fn lemma_slots_distinct(
    population: NeatPopulation,
    t: NeatTextures,
    p1: int,
    j1: int,
    p2: int,
    j2: int,
)
    requires
        encodes(population, t),
        0 <= p1 < population.graphs@.len(),
        0 <= j1 < population.node_count(p1),
        0 <= p2 < population.graphs@.len(),
        0 <= j2 < population.node_count(p2),
        p1 != p2 || j1 != j2,
    ensures
        t.layout.coord(p1, j1) != t.layout.coord(p2, j2),
        t.layout.texel_of(p1, j1) != t.layout.texel_of(p2, j2),
{
    lemma_texel_of(t.layout, p1, j1);
    lemma_texel_of(t.layout, p2, j2);
}

/// The activation texel at the coordinate that the address mapper gives for
/// node `j` of graph `p` holds that node's coefficients: byte `b` of channel
/// `c` is byte `b` of coefficient `c`.
pub proof fn lemma_node_slot_round_trip(
    population: NeatPopulation,
    t: NeatTextures,
    p: int,
    j: int,
    c: int,
    b: int,
)
    requires
        encodes(population, t),
        0 <= p < population.graphs@.len(),
        0 <= j < population.node_count(p),
        0 <= c < 4,
        0 <= b < 4,
    ensures
        t.activations@[16 * t.layout.texel_of(p, j) + 4 * c + b] == le_byte(
            population.graphs@[p].nodes@[j].activation.channel(c),
            b,
        ),
{
    let l = t.layout;
    lemma_texel_of(l, p, j);
    let t0 = l.texel_of(p, j);
    let i = 16 * t0 + 4 * c + b;
    lemma_fundamental_div_mod_converse(i, 4, 4 * t0 + c, b);
    lemma_fundamental_div_mod_converse(4 * t0 + c, 4, t0, c);
}

/// For edge `k` of node `j` of graph `p`, the texel of layer `k` at the
/// node's coordinate records, as exact floats, the coordinate that the
/// address mapper gives for the edge's source in the same graph, then the
/// weight twice (byte `b` of each channel).
pub proof fn lemma_edge_source_consistent(
    population: NeatPopulation,
    t: NeatTextures,
    p: int,
    j: int,
    k: int,
    b: int,
)
    requires
        encodes(population, t),
        0 <= p < population.graphs@.len(),
        0 <= j < population.node_count(p),
        0 <= k < population.edge_count(p, j),
        0 <= b < 4,
    ensures
        ({
            let l = t.layout;
            let e = population.edge(p, j, k);
            let s = l.coord(p, e.source as int);
            let base = 16 * (k * l.texel_count() + l.texel_of(p, j));
            &&& t.edges@[base + b] == le_byte(int_f32_bits(s.0) as u32, b)
            &&& t.edges@[base + 4 + b] == le_byte(int_f32_bits(s.1) as u32, b)
            &&& t.edges@[base + 8 + b] == le_byte(e.weight, b)
            &&& t.edges@[base + 12 + b] == le_byte(e.weight, b)
        }),
{
    let l = t.layout;
    let n = l.texel_count();
    lemma_texel_of(l, p, j);
    let t0 = l.texel_of(p, j);
    assert(population.edge_count(p, j) <= population.layer_count());
    assert(4 * (k * n + t0) + 4 <= 4 * n * l.max_edge_count) by (nonlinear_arith)
        requires
            0 <= k < l.max_edge_count,
            0 <= t0 < n,
    ;
    let q = 4 * (k * n + t0);
    lemma_fundamental_div_mod_converse(4 * q + b, 4, q, b);
    lemma_fundamental_div_mod_converse(4 * q + 4 + b, 4, q + 1, b);
    lemma_fundamental_div_mod_converse(4 * q + 8 + b, 4, q + 2, b);
    lemma_fundamental_div_mod_converse(4 * q + 12 + b, 4, q + 3, b);
    lemma_stacked_index(n, k, t0, 0);
    lemma_stacked_index(n, k, t0, 1);
    lemma_stacked_index(n, k, t0, 2);
    lemma_stacked_index(n, k, t0, 3);
}

} // verus!
