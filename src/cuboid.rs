//! Linear (y, z, x) indexing of cuboids and the arithmetic facts about it.

use vstd::prelude::*;
use crate::pos::Coord;

verus! {

/// The linear index of offset `d` in a cuboid `sx` wide and `sz` long, laid out
/// y-major, then z, then x.
pub open spec fn cuboid_index(sx: int, sz: int, d: Coord) -> int {
    (d.1 * sz + d.2) * sx + d.0
}

/// The offset that linear index `k` stands for.
pub open spec fn cuboid_offset(sx: int, sz: int, k: int) -> Coord {
    (k % sx, (k / sx) / sz, (k / sx) % sz)
}

/// Whether `d` lies in a cuboid of the given size with its low corner at 0.
pub open spec fn in_extent(d: Coord, size: Coord) -> bool {
    0 <= d.0 < size.0 && 0 <= d.1 < size.1 && 0 <= d.2 < size.2
}

pub open spec fn coord_add(a: Coord, b: Coord) -> Coord {
    (a.0 + b.0, a.1 + b.1, a.2 + b.2)
}

pub open spec fn coord_sub(a: Coord, b: Coord) -> Coord {
    (a.0 - b.0, a.1 - b.1, a.2 - b.2)
}

pub open spec fn volume(size: Coord) -> int {
    size.0 * size.1 * size.2
}

pub proof fn lemma_index_offset(sx: int, sz: int, d: Coord)
    requires
        0 <= d.0 < sx,
        0 <= d.2 < sz,
        0 <= d.1,
    ensures
        cuboid_offset(sx, sz, cuboid_index(sx, sz, d)) == d,
        cuboid_index(sx, sz, d) >= 0,
{
    let k = cuboid_index(sx, sz, d);
    let row = d.1 * sz + d.2;
    assert(row >= 0) by (nonlinear_arith)
        requires
            row == d.1 * sz + d.2,
            0 <= d.1,
            0 <= d.2 < sz,
    ;
    assert(k >= 0) by (nonlinear_arith)
        requires
            k == row * sx + d.0,
            row >= 0,
            0 <= d.0 < sx,
    ;
    vstd::arithmetic::div_mod::lemma_fundamental_div_mod_converse(k, sx, row, d.0);
    vstd::arithmetic::div_mod::lemma_fundamental_div_mod_converse(row, sz, d.1, d.2);
}

pub proof fn lemma_offset_index(sx: int, sz: int, k: int)
    requires
        sx > 0,
        sz > 0,
        k >= 0,
    ensures
        cuboid_index(sx, sz, cuboid_offset(sx, sz, k)) == k,
        0 <= cuboid_offset(sx, sz, k).0 < sx,
        0 <= cuboid_offset(sx, sz, k).2 < sz,
        0 <= cuboid_offset(sx, sz, k).1,
{
    vstd::arithmetic::div_mod::lemma_fundamental_div_mod(k, sx);
    vstd::arithmetic::div_mod::lemma_fundamental_div_mod(k / sx, sz);
    vstd::arithmetic::div_mod::lemma_div_pos_is_pos(k, sx);
    vstd::arithmetic::div_mod::lemma_div_pos_is_pos(k / sx, sz);
    vstd::arithmetic::div_mod::lemma_mod_pos_bound(k, sx);
    vstd::arithmetic::div_mod::lemma_mod_pos_bound(k / sx, sz);
    let q = k / sx;
    assert(k == sx * q + k % sx);
    assert(q == sz * (q / sz) + q % sz);
    assert(k == (q / sz * sz + q % sz) * sx + k % sx) by (nonlinear_arith)
        requires
            k == sx * q + k % sx,
            q == sz * (q / sz) + q % sz,
    ;
}

/// An offset inside the extent has an index below the volume, and an index
/// below the volume decodes to an offset inside the extent.
pub proof fn lemma_index_bound(size: Coord, d: Coord)
    requires
        size.0 > 0,
        size.2 > 0,
        0 <= d.0 < size.0,
        0 <= d.2 < size.2,
        0 <= d.1,
    ensures
        (d.1 < size.1) == (cuboid_index(size.0, size.2, d) < volume(size)),
{
    let sx = size.0;
    let sy = size.1;
    let sz = size.2;
    if d.1 < sy {
        assert((d.1 * sz + d.2) * sx + d.0 < sx * sy * sz) by (nonlinear_arith)
            requires
                0 <= d.0 < sx,
                0 <= d.2 < sz,
                0 <= d.1 < sy,
        ;
    } else {
        assert((d.1 * sz + d.2) * sx + d.0 >= sx * sy * sz) by (nonlinear_arith)
            requires
                0 <= d.0 < sx,
                0 <= d.2 < sz,
                d.1 >= sy,
                sx > 0,
                sz > 0,
        ;
    }
}

/// Advancing x (and carrying into z, then y) advances the index by one.
pub proof fn lemma_index_step(sx: int, sz: int, d: Coord)
    requires
        0 <= d.0 < sx,
        0 <= d.2 < sz,
    ensures
        d.0 + 1 < sx ==> cuboid_index(sx, sz, (d.0 + 1, d.1, d.2)) == cuboid_index(sx, sz, d) + 1,
        d.0 + 1 == sx && d.2 + 1 < sz ==> cuboid_index(sx, sz, (0, d.1, d.2 + 1))
            == cuboid_index(sx, sz, d) + 1,
        d.0 + 1 == sx && d.2 + 1 == sz ==> cuboid_index(sx, sz, (0, d.1 + 1, 0))
            == cuboid_index(sx, sz, d) + 1,
{
    assert((d.1 * sz + d.2 + 1) * sx == (d.1 * sz + d.2) * sx + sx) by (nonlinear_arith);
    assert(((d.1 + 1) * sz) * sx == (d.1 * sz + sz) * sx) by (nonlinear_arith);
}

} // verus!
