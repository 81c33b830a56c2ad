//! The address mapper: where a node of a graph lands in the combined field.
//!
//! The field is tiled by the population grid `(pw, ph)`; each tile is one
//! agent grid `(aw, ah)`, and graph `p` owns the tile at column `p % pw`, row
//! `p / pw`. Inside its tile, node `j` sits at column `j % aw`, row `j / aw`.

use vstd::arithmetic::div_mod::{lemma_fundamental_div_mod, lemma_fundamental_div_mod_converse};
use vstd::prelude::*;

verus! {

/// Field coordinate `(x, y)` of node `j` of graph `p`.
pub open spec fn field_coord(p: int, pw: int, j: int, aw: int, ah: int) -> (int, int) {
    ((p % pw) * aw + j % aw, (p / pw) * ah + j / aw)
}

/// The `(graph, node)` pair whose coordinate is `(x, y)`: the inverse of
/// `field_coord`.
pub open spec fn slot_owner(x: int, y: int, pw: int, aw: int, ah: int) -> (int, int) {
    ((y / ah) * pw + x / aw, (y % ah) * aw + x % aw)
}

/// Grids for which `p < pw * ph` and `j < aw * ah` name a node of the field.
pub open spec fn grids_valid(pw: int, ph: int, aw: int, ah: int) -> bool {
    pw >= 1 && ph >= 1 && aw >= 1 && ah >= 1
}

/// A node's coordinate lies in the field, and `slot_owner` recovers the node.
pub proof fn lemma_coord_in_field(p: int, pw: int, ph: int, j: int, aw: int, ah: int)
    requires
        grids_valid(pw, ph, aw, ah),
        0 <= p < pw * ph,
        0 <= j < aw * ah,
    ensures
        0 <= field_coord(p, pw, j, aw, ah).0 < pw * aw,
        0 <= field_coord(p, pw, j, aw, ah).1 < ph * ah,
        slot_owner(field_coord(p, pw, j, aw, ah).0, field_coord(p, pw, j, aw, ah).1, pw, aw, ah)
            == (p, j),
{
    let a = p % pw;
    let b = p / pw;
    let c = j % aw;
    let d = j / aw;
    lemma_fundamental_div_mod(p, pw);
    lemma_fundamental_div_mod(j, aw);
    assert(0 <= b < ph) by (nonlinear_arith)
        requires
            p == pw * b + a,
            0 <= a < pw,
            0 <= p < pw * ph,
    ;
    assert(0 <= d < ah) by (nonlinear_arith)
        requires
            j == aw * d + c,
            0 <= c < aw,
            0 <= j < aw * ah,
    ;
    let x = a * aw + c;
    let y = b * ah + d;
    lemma_fundamental_div_mod_converse(x, aw, a, c);
    lemma_fundamental_div_mod_converse(y, ah, b, d);
    assert(0 <= x < pw * aw) by (nonlinear_arith)
        requires
            x == a * aw + c,
            0 <= a < pw,
            0 <= c < aw,
    ;
    assert(0 <= y < ph * ah) by (nonlinear_arith)
        requires
            y == b * ah + d,
            0 <= b < ph,
            0 <= d < ah,
    ;
    assert(b * pw + a == p && d * aw + c == j) by (nonlinear_arith)
        requires
            p == pw * b + a,
            j == aw * d + c,
    ;
}

/// Every coordinate of the field belongs to exactly one `(graph, node)` slot,
/// which `field_coord` maps back to it.
pub proof fn lemma_owner_in_range(x: int, y: int, pw: int, ph: int, aw: int, ah: int)
    requires
        grids_valid(pw, ph, aw, ah),
        0 <= x < pw * aw,
        0 <= y < ph * ah,
    ensures
        0 <= slot_owner(x, y, pw, aw, ah).0 < pw * ph,
        0 <= slot_owner(x, y, pw, aw, ah).1 < aw * ah,
        field_coord(slot_owner(x, y, pw, aw, ah).0, pw, slot_owner(x, y, pw, aw, ah).1, aw, ah)
            == (x, y),
{
    let a = x / aw;
    let c = x % aw;
    let b = y / ah;
    let d = y % ah;
    lemma_fundamental_div_mod(x, aw);
    lemma_fundamental_div_mod(y, ah);
    assert(0 <= a < pw) by (nonlinear_arith)
        requires
            x == aw * a + c,
            0 <= c < aw,
            0 <= x < pw * aw,
    ;
    assert(0 <= b < ph) by (nonlinear_arith)
        requires
            y == ah * b + d,
            0 <= d < ah,
            0 <= y < ph * ah,
    ;
    let p = b * pw + a;
    let j = d * aw + c;
    lemma_fundamental_div_mod_converse(p, pw, b, a);
    lemma_fundamental_div_mod_converse(j, aw, d, c);
    assert(0 <= p < pw * ph) by (nonlinear_arith)
        requires
            p == b * pw + a,
            0 <= b < ph,
            0 <= a < pw,
    ;
    assert(0 <= j < aw * ah) by (nonlinear_arith)
        requires
            j == d * aw + c,
            0 <= d < ah,
            0 <= c < aw,
    ;
    assert(a * aw + c == x && b * ah + d == y) by (nonlinear_arith)
        requires
            x == aw * a + c,
            y == ah * b + d,
    ;
}

/// Two different `(graph, node)` slots of one field never share a coordinate.
pub proof fn lemma_address_injective(
    p1: int,
    j1: int,
    p2: int,
    j2: int,
    pw: int,
    ph: int,
    aw: int,
    ah: int,
)
    requires
        grids_valid(pw, ph, aw, ah),
        0 <= p1 < pw * ph,
        0 <= p2 < pw * ph,
        0 <= j1 < aw * ah,
        0 <= j2 < aw * ah,
        p1 != p2 || j1 != j2,
    ensures
        field_coord(p1, pw, j1, aw, ah) != field_coord(p2, pw, j2, aw, ah),
{
    lemma_coord_in_field(p1, pw, ph, j1, aw, ah);
    lemma_coord_in_field(p2, pw, ph, j2, aw, ah);
}

/// Coordinate of node `node_index` of graph `population_index` in the field
/// tiled by `population_grid` and `agent_grid`, both given as `(width, height)`.
pub fn map_address(
    population_index: u32,
    population_grid: (u32, u32),
    node_index: u32,
    agent_grid: (u32, u32),
) -> (r: (u32, u32))
    requires
        grids_valid(
            population_grid.0 as int,
            population_grid.1 as int,
            agent_grid.0 as int,
            agent_grid.1 as int,
        ),
        population_index < population_grid.0 * population_grid.1,
        node_index < agent_grid.0 * agent_grid.1,
        population_grid.0 * agent_grid.0 <= u32::MAX,
        population_grid.1 * agent_grid.1 <= u32::MAX,
    ensures
        (r.0 as int, r.1 as int) == field_coord(
            population_index as int,
            population_grid.0 as int,
            node_index as int,
            agent_grid.0 as int,
            agent_grid.1 as int,
        ),
        r.0 < population_grid.0 * agent_grid.0,
        r.1 < population_grid.1 * agent_grid.1,
{
    let (pw, ph) = population_grid;
    let (aw, ah) = agent_grid;
    proof {
        lemma_coord_in_field(population_index as int, pw as int, ph as int, node_index as int, aw as int, ah as int);
    }
    let base_x: u32 = (population_index % pw) * aw;
    let base_y: u32 = (population_index / pw) * ah;
    let x: u32 = base_x + node_index % aw;
    let y: u32 = base_y + node_index / aw;
    (x, y)
}

} // verus!
