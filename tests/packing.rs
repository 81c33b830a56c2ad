use rusty_automata::address::map_address;
use rusty_automata::encode::{population_to_textures, NeatTextures};
use rusty_automata::layout::FieldLayout;
use rusty_automata::float_bits::{int_to_f32_bits, words_to_le_bytes};
use rusty_automata::grid::{pack_2d, PackError};
use rusty_automata::population::{NeatEdge, NeatGraph, NeatNode, NeatPopulation, NeatUafActivation};

fn act(a: f32, b: f32, c: f32, d: f32, e: f32) -> NeatUafActivation {
    NeatUafActivation::new(a.to_bits(), b.to_bits(), c.to_bits(), d.to_bits(), e.to_bits())
}

fn edge(weight: f32, source: usize) -> NeatEdge {
    NeatEdge::new(weight.to_bits(), source)
}

fn node(activation: NeatUafActivation, edges: Vec<NeatEdge>) -> NeatNode {
    NeatNode::new(activation, edges)
}

fn texel(buffer: &[u8], index: usize) -> [f32; 4] {
    let mut out = [0.0f32; 4];
    for c in 0..4 {
        let at = 16 * index + 4 * c;
        let bytes = [buffer[at], buffer[at + 1], buffer[at + 2], buffer[at + 3]];
        out[c] = f32::from_le_bytes(bytes);
    }
    out
}

/// The population of two graphs: four nodes with edges 0<-1, 1<-1, 2<-2,
/// 3<-3, and two nodes with edges 0<-0, 1<-0.
fn two_graph_population() -> NeatPopulation {
    let g0 = NeatGraph::new(vec![
        node(act(0.5, 0.0, 0.5, 1.0, 0.0), vec![edge(1.0, 1)]),
        node(act(1.0, 0.0, 0.0, 1.0, 0.0), vec![edge(1.0, 1)]),
        node(act(0.0, 1.0, 0.0, 1.0, 0.0), vec![edge(1.0, 2)]),
        node(act(1.0, 1.0, 0.0, 1.0, 0.0), vec![edge(1.0, 3)]),
    ]);
    let g1 = NeatGraph::new(vec![
        node(act(0.0, 0.0, 1.0, 1.0, 0.0), vec![edge(1.0, 0)]),
        node(act(1.0, 1.0, 1.0, 0.5, 0.0), vec![edge(1.0, 0)]),
    ]);
    NeatPopulation::new(vec![g0, g1])
}

fn encode_ok(population: &NeatPopulation) -> NeatTextures {
    match population_to_textures(population) {
        Ok(t) => t,
        Err(e) => panic!("encoding failed: {:?}", e),
    }
}

#[test]
fn pack_small_counts() {
    assert_eq!(pack_2d(0), Err(PackError::InvalidInput));
    assert_eq!(pack_2d(1), Ok((1, 1)));
    assert_eq!(pack_2d(2), Ok((2, 1)));
    assert_eq!(pack_2d(3), Ok((2, 2)));
    assert_eq!(pack_2d(4), Ok((2, 2)));
    assert_eq!(pack_2d(5), Ok((3, 2)));
    assert_eq!(pack_2d(6), Ok((3, 2)));
    assert_eq!(pack_2d(7), Ok((3, 3)));
    assert_eq!(pack_2d(10), Ok((4, 3)));
    assert_eq!(pack_2d(13), Ok((4, 4)));
}

#[test]
fn pack_largest_counts() {
    assert_eq!(pack_2d(u32::MAX), Ok((65536, 65536)));
    assert_eq!(pack_2d(65535 * 65535), Ok((65535, 65535)));
    assert_eq!(pack_2d(65535 * 65535 + 1), Ok((65536, 65535)));
    assert_eq!(pack_2d(65536 * 65535), Ok((65536, 65535)));
    assert_eq!(pack_2d(65536 * 65535 + 1), Ok((65536, 65536)));
}

#[test]
fn pack_is_tight_and_square_rounded() {
    for count in 1u32..5000 {
        let (w, h) = pack_2d(count).unwrap();
        let (w64, h64, c64) = (w as u64, h as u64, count as u64);
        assert!(w64 * h64 >= c64, "count {}", count);
        assert!(w64 * (h64 - 1) < c64, "count {}", count);
        assert!(h <= w, "count {}", count);
        assert_eq!(w, (count as f64).sqrt().ceil() as u32, "count {}", count);
    }
}

#[test]
fn map_address_example() {
    assert_eq!(map_address(1, (2, 1), 0, (2, 2)), (2, 0));
    assert_eq!(map_address(0, (2, 1), 3, (2, 2)), (1, 1));
    assert_eq!(map_address(1, (2, 1), 1, (2, 2)), (3, 0));
    assert_eq!(map_address(4, (3, 2), 5, (3, 2)), (5, 3));
}

#[test]
fn map_address_has_no_collisions() {
    let pop_grid = (3u32, 2u32);
    let agent_grid = (4u32, 3u32);
    let mut seen = std::collections::HashSet::new();
    for p in 0..6u32 {
        for j in 0..12u32 {
            let (x, y) = map_address(p, pop_grid, j, agent_grid);
            assert!(x < 12 && y < 6);
            assert!(seen.insert((x, y)), "collision at {:?}", (x, y));
        }
    }
    assert_eq!(seen.len(), 72);
}

#[test]
fn int_to_f32_bits_matches_cast() {
    for n in [0u32, 1, 2, 3, 4, 5, 7, 100, 255, 4096, 8_388_607, 8_388_608, 8_388_609, 16_777_215] {
        assert_eq!(int_to_f32_bits(n), (n as f32).to_bits(), "n = {}", n);
    }
    for n in 0u32..3000 {
        assert_eq!(int_to_f32_bits(n), (n as f32).to_bits(), "n = {}", n);
    }
}

#[test]
fn words_serialize_little_endian() {
    let words = vec![0x0403_0201u32, 1.0f32.to_bits(), 0];
    let bytes = words_to_le_bytes(&words);
    let mut expected = Vec::new();
    for w in &words {
        expected.extend_from_slice(&w.to_le_bytes());
    }
    assert_eq!(bytes, expected);
    assert_eq!(&bytes[0..4], &[1, 2, 3, 4]);
}

#[test]
fn two_graph_scenario() {
    let population = two_graph_population();
    let t = encode_ok(&population);
    assert_eq!(
        t.layout,
        FieldLayout {
            population_width: 2,
            population_height: 1,
            agent_width: 2,
            agent_height: 2,
            max_edge_count: 1,
        }
    );
    assert_eq!((t.width, t.height), (4, 2));
    // graph 1, node 0 sits at (2, 0); its self-edge records (2, 0) and 1.0
    assert_eq!(texel(&t.activations, 2), [0.0, 0.0, 1.0, 1.0]);
    assert_eq!(texel(&t.edges, 2), [2.0, 0.0, 1.0, 1.0]);
    // graph 1, node 1 at (3, 0) takes its input from (2, 0)
    assert_eq!(texel(&t.activations, 3), [1.0, 1.0, 1.0, 0.5]);
    assert_eq!(texel(&t.edges, 3), [2.0, 0.0, 1.0, 1.0]);
    // graph 0: node 0 at (0, 0) reads node 1 at (1, 0); node 3 at (1, 1)
    assert_eq!(texel(&t.activations, 0), [0.5, 0.0, 0.5, 1.0]);
    assert_eq!(texel(&t.edges, 0), [1.0, 0.0, 1.0, 1.0]);
    assert_eq!(texel(&t.edges, 1), [1.0, 0.0, 1.0, 1.0]);
    assert_eq!(texel(&t.edges, 4), [0.0, 1.0, 1.0, 1.0]);
    assert_eq!(texel(&t.activations, 5), [1.0, 1.0, 0.0, 1.0]);
    assert_eq!(texel(&t.edges, 5), [1.0, 1.0, 1.0, 1.0]);
    // the tile of graph 1 has no node in its second row
    assert_eq!(texel(&t.activations, 6), [0.0; 4]);
    assert_eq!(texel(&t.edges, 7), [0.0; 4]);
}

#[test]
fn buffer_sizes_follow_the_field() {
    let t = encode_ok(&two_graph_population());
    assert_eq!(t.activations.len(), 4 * 2 * 4 * 4);
    assert_eq!(t.nodes.len(), 4 * 2 * 4 * 4);
    assert_eq!(t.edges.len(), 4 * 2 * 1 * 4 * 4);
    assert!(t.node_data().iter().all(|b| *b == 0));
    assert_eq!(t.node_data().len(), t.nodes.len());
    assert_eq!(t.output_data(), t.edges.as_slice());
}

#[test]
fn every_edge_records_its_source_coordinate() {
    let population = two_graph_population();
    let t = encode_ok(&population);
    let l = t.layout;
    for (p, graph) in population.graphs.iter().enumerate() {
        for (j, n) in graph.nodes.iter().enumerate() {
            let (x, y) = map_address(p as u32, (l.population_width, l.population_height), j as u32, (l.agent_width, l.agent_height));
            let at = (y * t.width + x) as usize;
            let a = n.activation;
            assert_eq!(
                texel(&t.activations, at),
                [f32::from_bits(a.a), f32::from_bits(a.b), f32::from_bits(a.c), f32::from_bits(a.d)]
            );
            for (k, e) in n.source_edges.iter().enumerate() {
                let (sx, sy) = map_address(p as u32, (l.population_width, l.population_height), e.source as u32, (l.agent_width, l.agent_height));
                let layer = (t.width * t.height) as usize * k;
                let w = f32::from_bits(e.weight);
                assert_eq!(texel(&t.edges, layer + at), [sx as f32, sy as f32, w, w]);
            }
        }
    }
}

#[test]
fn edge_source_out_of_range_is_invalid_topology() {
    let mut population = two_graph_population();
    population.graphs[0].nodes[2].source_edges[0] = edge(1.0, 7);
    assert!(matches!(population_to_textures(&population), Err(PackError::InvalidTopology)));
}

#[test]
fn empty_population_is_empty_input() {
    let population = NeatPopulation::new(vec![]);
    assert!(matches!(population_to_textures(&population), Err(PackError::EmptyInput)));
    let population = NeatPopulation::new(vec![NeatGraph::new(vec![]), NeatGraph::new(vec![])]);
    assert!(matches!(population_to_textures(&population), Err(PackError::EmptyInput)));
}

#[test]
fn declared_edge_count_too_small_is_invalid_topology() {
    let graph = NeatGraph::new(vec![node(act(1.0, 1.0, 1.0, 1.0, 0.0), vec![edge(0.5, 0), edge(0.25, 0)])]);
    let population = NeatPopulation::with_max_edge_count(vec![graph], 1);
    assert!(matches!(population_to_textures(&population), Err(PackError::InvalidTopology)));
}

#[test]
fn declared_edge_count_adds_zero_layers() {
    let graph = NeatGraph::new(vec![
        node(act(1.0, 2.0, 3.0, 4.0, 5.0), vec![edge(-0.5, 1)]),
        node(act(0.0, 0.0, 0.0, 0.0, 0.0), vec![]),
    ]);
    let population = NeatPopulation::with_max_edge_count(vec![graph], 3);
    let t = encode_ok(&population);
    assert_eq!((t.width, t.height, t.layout.max_edge_count), (2, 1, 3));
    assert_eq!(t.edges.len(), 2 * 1 * 3 * 16);
    assert_eq!(texel(&t.edges, 0), [1.0, 0.0, -0.5, -0.5]);
    assert_eq!(texel(&t.edges, 1), [0.0; 4]);
    for i in 2..6 {
        assert_eq!(texel(&t.edges, i), [0.0; 4]);
    }
    // coefficient e is not stored
    assert_eq!(texel(&t.activations, 0), [1.0, 2.0, 3.0, 4.0]);
}

#[test]
fn derived_edge_count_is_the_largest_fan_in() {
    let graph = NeatGraph::new(vec![
        node(act(0.0, 0.0, 0.0, 0.0, 0.0), vec![]),
        node(act(0.0, 0.0, 0.0, 0.0, 0.0), vec![edge(1.0, 0), edge(2.0, 1), edge(3.0, 2)]),
        node(act(0.0, 0.0, 0.0, 0.0, 0.0), vec![edge(4.0, 1)]),
    ]);
    let t = encode_ok(&NeatPopulation::new(vec![graph]));
    assert_eq!(t.layout.max_edge_count, 3);
    assert_eq!((t.width, t.height), (2, 2));
    // node 1 at (1, 0): layers 0, 1, 2 read nodes 0 (0,0), 1 (1,0), 2 (0,1)
    assert_eq!(texel(&t.edges, 1), [0.0, 0.0, 1.0, 1.0]);
    assert_eq!(texel(&t.edges, 4 + 1), [1.0, 0.0, 2.0, 2.0]);
    assert_eq!(texel(&t.edges, 8 + 1), [0.0, 1.0, 3.0, 3.0]);
    assert_eq!(texel(&t.edges, 2), [1.0, 0.0, 4.0, 4.0]);
    assert_eq!(texel(&t.edges, 4 + 2), [0.0; 4]);
}

#[test]
fn no_edges_gives_empty_edge_buffer() {
    let graph = NeatGraph::new(vec![node(act(0.25, 0.0, 0.0, 0.0, 0.0), vec![])]);
    let t = encode_ok(&NeatPopulation::new(vec![graph]));
    assert_eq!(t.layout.max_edge_count, 0);
    assert!(t.edges.is_empty());
    assert_eq!(texel(&t.activations, 0), [0.25, 0.0, 0.0, 0.0]);
}
