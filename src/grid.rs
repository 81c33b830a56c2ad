//! The rectangle packer: the tightest near-square grid that holds a count
//! of cells.

use vstd::prelude::*;

verus! {

/// `s` is the ceiling of the square root of `n`: the least `s` with `s * s >= n`.
pub open spec fn is_ceil_sqrt(n: int, s: int) -> bool {
    &&& 0 <= s
    &&& s * s >= n
    &&& (s == 0 || (s - 1) * (s - 1) < n)
}

/// The ceiling of the square root of `n >= 0`.
pub open spec fn ceil_sqrt(n: int) -> int {
    choose|s: int| is_ceil_sqrt(n, s)
}

/// The ceiling of a square root is unique.
pub proof fn lemma_ceil_sqrt_unique(n: int, s: int)
    requires
        is_ceil_sqrt(n, s),
    ensures
        ceil_sqrt(n) == s,
{
    let t = ceil_sqrt(n);
    assert(is_ceil_sqrt(n, t));
    if t < s {
        assert(false) by (nonlinear_arith)
            requires
                0 <= t <= s - 1,
                t * t >= n,
                (s - 1) * (s - 1) < n,
        ;
    }
    if s < t {
        assert(false) by (nonlinear_arith)
            requires
                0 <= s <= t - 1,
                s * s >= n,
                (t - 1) * (t - 1) < n,
        ;
    }
}

/// Number of full rows trimmed from the `s * s` square when it holds `count` cells.
pub open spec fn rows_removed(count: int, s: int) -> int {
    (s * s - count) / s
}

/// The packing `(width, height)` of `count` cells: the width is the ceiling
/// of the square root of `count`, the height that width less the rows that
/// stay empty.
pub open spec fn packed(count: int) -> (int, int) {
    (ceil_sqrt(count), ceil_sqrt(count) - rows_removed(count, ceil_sqrt(count)))
}

/// Why an input cannot be packed or encoded.
#[derive(Clone, Copy, Debug, PartialEq, Eq, Structural)]
pub enum PackError {
    /// The packer was asked for a grid of zero cells.
    InvalidInput,
    /// The population has no graph, or none of its graphs has a node.
    EmptyInput,
    /// An edge names a node outside its graph, or a node has more edges than
    /// the declared maximum.
    InvalidTopology,
    /// The field, or a buffer over it, is larger than can be addressed.
    DimensionOverflow,
}

/// Least `s` with `s * s >= n`.
fn integer_ceil_sqrt(n: u32) -> (s: u32)
    ensures
        is_ceil_sqrt(n as int, s as int),
        s <= 65536,
{
    let mut lo: u64 = 0;
    let mut hi: u64 = 65536;
    assert(hi * hi >= n) by (nonlinear_arith)
        requires
            hi == 65536,
            n <= u32::MAX,
    ;
    while lo < hi
        invariant
            lo <= hi <= 65536,
            hi * hi >= n,
            lo == 0 || (lo - 1) * (lo - 1) < n,
        decreases hi - lo,
    {
        let mid: u64 = lo + (hi - lo) / 2;
        assert(mid * mid <= 65536 * 65536) by (nonlinear_arith)
            requires
                mid <= 65536,
        ;
        if mid * mid >= n as u64 {
            hi = mid;
        } else {
            lo = mid + 1;
        }
    }
    hi as u32
}

/// Proof that trimming `rows_removed` rows keeps room for `count` cells, and
/// that one row more would not.
pub proof fn lemma_pack_bounds(count: int, s: int)
    requires
        count >= 1,
        is_ceil_sqrt(count, s),
    ensures
        s >= 1,
        0 <= rows_removed(count, s) < s,
        s * (s - rows_removed(count, s)) >= count,
        s * (s - rows_removed(count, s) - 1) < count,
{
    assert(s >= 1) by (nonlinear_arith)
        requires
            count >= 1,
            s >= 0,
            s * s >= count,
    ;
    let e = s * s - count;
    let r = e / s;
    assert(0 <= e < 2 * s - 1) by (nonlinear_arith)
        requires
            e == s * s - count,
            s * s >= count,
            (s - 1) * (s - 1) < count,
    ;
    assert(0 <= r < s && s * r <= e < s * (r + 1)) by (nonlinear_arith)
        requires
            s >= 1,
            0 <= e < 2 * s - 1,
            r == e / s,
    ;
    assert(s * (s - r) == s * s - s * r && s * (s - r - 1) == s * s - s * (r + 1))
        by (nonlinear_arith);
}

/// Packs `elements` cells into a grid `(width, height)`: the width is the
/// ceiling of the square root of `elements`, and from the resulting square
/// every fully empty trailing row is trimmed. Zero cells cannot be packed.
pub fn pack_2d(elements: u32) -> (r: Result<(u32, u32), PackError>)
    ensures
        elements == 0 ==> r == Err::<(u32, u32), PackError>(PackError::InvalidInput),
        elements >= 1 ==> (r matches Ok((w, h)) && (w as int, h as int) == packed(elements as int)),
        r matches Ok((w, h)) ==> {
            &&& is_ceil_sqrt(elements as int, w as int)
            &&& 1 <= h <= w <= 65536
            &&& w * h >= elements
            &&& w * (h - 1) < elements
        },
{
    if elements == 0 {
        return Err(PackError::InvalidInput);
    }
    let square_size = integer_ceil_sqrt(elements);
    proof {
        lemma_pack_bounds(elements as int, square_size as int);
        lemma_ceil_sqrt_unique(elements as int, square_size as int);
    }
    assert(square_size as u64 * square_size as u64 <= 65536 * 65536) by (nonlinear_arith)
        requires
            square_size <= 65536,
    ;
    let sq: u64 = square_size as u64 * square_size as u64;
    let excess_area: u64 = sq - elements as u64;
    let rows_to_remove: u64 = excess_area / square_size as u64;
    let width = square_size;
    let height = square_size - rows_to_remove as u32;
    Ok((width, height))
}

} // verus!
