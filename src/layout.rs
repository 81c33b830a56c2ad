//! The layout of a packed field: its grids, the row-major index of each
//! node's texel, and the slot that owns each texel.

use crate::address::{
    field_coord, grids_valid, lemma_coord_in_field, lemma_owner_in_range, slot_owner,
};
use vstd::arithmetic::div_mod::{lemma_fundamental_div_mod, lemma_fundamental_div_mod_converse};
use vstd::prelude::*;

verus! {

/// The shape of a packed field: the population grid, whose cells are the
/// agents' tiles, the agent grid inside each tile, and the number of edge
/// layers.
#[derive(Clone, Copy, Debug, PartialEq, Eq, Structural)]
pub struct FieldLayout {
    pub population_width: u32,
    pub population_height: u32,
    pub agent_width: u32,
    pub agent_height: u32,
    pub max_edge_count: u32,
}

impl FieldLayout {
    /// Width of the field, in texels.
    pub open spec fn width(self) -> int {
        self.population_width * self.agent_width
    }

    /// Height of the field, in texels.
    pub open spec fn height(self) -> int {
        self.population_height * self.agent_height
    }

    /// Number of texels of one layer of the field.
    pub open spec fn texel_count(self) -> int {
        self.width() * self.height()
    }

    /// Both grids are non-degenerate.
    pub open spec fn valid(self) -> bool {
        grids_valid(
            self.population_width as int,
            self.population_height as int,
            self.agent_width as int,
            self.agent_height as int,
        )
    }

    /// Field coordinate of node `j` of graph `p`.
    pub open spec fn coord(self, p: int, j: int) -> (int, int) {
        field_coord(p, self.population_width as int, j, self.agent_width as int, self.agent_height as int)
    }

    /// Row-major index, within one layer, of the texel of node `j` of graph `p`.
    pub open spec fn texel_of(self, p: int, j: int) -> int {
        self.coord(p, j).1 * self.width() + self.coord(p, j).0
    }

    /// The `(graph, node)` slot of the texel with row-major index `t`.
    pub open spec fn owner(self, t: int) -> (int, int) {
        slot_owner(
            t % self.width(),
            t / self.width(),
            self.population_width as int,
            self.agent_width as int,
            self.agent_height as int,
        )
    }
}

/// The texel of a node lies in its layer, and belongs to that node.
pub proof fn lemma_texel_of(l: FieldLayout, p: int, j: int)
    requires
        l.valid(),
        0 <= p < l.population_width * l.population_height,
        0 <= j < l.agent_width * l.agent_height,
    ensures
        0 <= l.texel_of(p, j) < l.texel_count(),
        l.owner(l.texel_of(p, j)) == (p, j),
{
    let pw = l.population_width as int;
    let ph = l.population_height as int;
    let aw = l.agent_width as int;
    let ah = l.agent_height as int;
    lemma_coord_in_field(p, pw, ph, j, aw, ah);
    let x = l.coord(p, j).0;
    let y = l.coord(p, j).1;
    let w = l.width();
    assert(w >= 1) by (nonlinear_arith)
        requires
            w == pw * aw,
            pw >= 1,
            aw >= 1,
    ;
    lemma_fundamental_div_mod_converse(y * w + x, w, y, x);
    assert(0 <= y * w + x < l.texel_count()) by (nonlinear_arith)
        requires
            0 <= x < w,
            0 <= y < l.height(),
            l.texel_count() == w * l.height(),
    ;
}

/// A texel of a layer belongs to exactly one slot: the one whose texel it is.
pub proof fn lemma_owner_unique(l: FieldLayout, t: int)
    requires
        l.valid(),
        0 <= t < l.texel_count(),
    ensures
        0 <= l.owner(t).0 < l.population_width * l.population_height,
        0 <= l.owner(t).1 < l.agent_width * l.agent_height,
        l.texel_of(l.owner(t).0, l.owner(t).1) == t,
{
    let pw = l.population_width as int;
    let ph = l.population_height as int;
    let aw = l.agent_width as int;
    let ah = l.agent_height as int;
    let w = l.width();
    assert(w >= 1) by (nonlinear_arith)
        requires
            w == pw * aw,
            pw >= 1,
            aw >= 1,
    ;
    lemma_fundamental_div_mod(t, w);
    let x = t % w;
    let y = t / w;
    assert(0 <= y < l.height()) by (nonlinear_arith)
        requires
            t == w * y + x,
            0 <= x < w,
            0 <= t < l.texel_count(),
            l.texel_count() == w * l.height(),
    ;
    lemma_owner_in_range(x, y, pw, ph, aw, ah);
    assert(y * w == w * y) by (nonlinear_arith);
}

/// Where word `4 * (k * n + t) + c` of a stack of `n`-texel layers sits.
pub proof fn lemma_stacked_index(n: int, k: int, t: int, c: int)
    requires
        0 <= k,
        0 <= t < n,
        0 <= c < 4,
    ensures
        (4 * (k * n + t) + c) / 4 == k * n + t,
        (4 * (k * n + t) + c) % 4 == c,
        (k * n + t) / n == k,
        (k * n + t) % n == t,
{
    lemma_fundamental_div_mod_converse(4 * (k * n + t) + c, 4, k * n + t, c);
    lemma_fundamental_div_mod_converse(k * n + t, n, k, t);
}

} // verus!
