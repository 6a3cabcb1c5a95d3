//! Fills and counts over every cell of a selection.

use vstd::prelude::*;
use crate::clipboard::{extent, hi_corner, lemma_sides_bounded, lo_corner, selection_fits, MAX_VOLUME};
use crate::cuboid::{
    coord_add, coord_sub, cuboid_index, cuboid_offset, in_extent, lemma_index_bound,
    lemma_index_offset, lemma_index_step, lemma_offset_index, volume,
};
use crate::operation::{WorldEditOperation, record_chunks, total_count, tracks};
use crate::pattern::WorldEditPattern;
use crate::pos::{BlockPos, Coord, chunk_of};
use crate::world::Plot;

verus! {

/// Whether some part of `p` is the block `id`.
pub open spec fn pattern_has(p: Seq<crate::pattern::WorldEditPatternPart>, id: u32) -> bool {
    exists|i: int| 0 <= i < p.len() && (#[trigger] p[i]).block_id == id
}

/// Whether a cell of the selection is one a fill rewrites: inside the plot,
/// and, under a mask, holding one of the mask's blocks.
pub open spec fn fill_target(
    before: Plot,
    lo: Coord,
    size: Coord,
    mask: Option<Seq<crate::pattern::WorldEditPatternPart>>,
    c: Coord,
) -> bool {
    &&& before.in_bounds(c)
    &&& in_extent(coord_sub(c, lo), size)
    &&& match mask {
        Some(m) => pattern_has(m, before.cell(c)),
        None => true,
    }
}

/// Whether `after` is `before` with every targeted cell rewritten: to 0
/// without a pattern, else to one of the pattern's blocks.
pub open spec fn fills(
    before: Plot,
    after: Plot,
    lo: Coord,
    size: Coord,
    pattern: Option<Seq<crate::pattern::WorldEditPatternPart>>,
    mask: Option<Seq<crate::pattern::WorldEditPatternPart>>,
) -> bool {
    &&& after.wf()
    &&& after.x == before.x
    &&& after.z == before.z
    &&& after.block_entities == before.block_entities
    &&& forall|c: Coord|
        #![trigger after.cell(c)]
        if fill_target(before, lo, size, mask, c) {
            match pattern {
                Some(p) => pattern_has(p, after.cell(c)),
                None => after.cell(c) == 0,
            }
        } else {
            after.cell(c) == before.cell(c)
        }
}

/// How many of the first `k` cells of the cuboid at `lo` (in y, z, x order)
/// hold another id in `after` than in `before`.
pub open spec fn count_changed(before: Plot, after: Plot, lo: Coord, size: Coord, k: int) -> int
    decreases k,
{
    if k <= 0 {
        0
    } else {
        count_changed(before, after, lo, size, k - 1) + if after.cell(
            coord_add(lo, cuboid_offset(size.0, size.2, k - 1)),
        ) != before.cell(coord_add(lo, cuboid_offset(size.0, size.2, k - 1))) {
            1int
        } else {
            0int
        }
    }
}

pub proof fn lemma_count_changed_frame(before: Plot, a1: Plot, a2: Plot, lo: Coord, size: Coord, k: int)
    requires
        forall|j: int|
            0 <= j < k ==> a1.cell(coord_add(lo, cuboid_offset(size.0, size.2, j))) == a2.cell(
                coord_add(lo, cuboid_offset(size.0, size.2, j)),
            ),
    ensures
        count_changed(before, a1, lo, size, k) == count_changed(before, a2, lo, size, k),
    decreases k,
{
    if k > 0 {
        lemma_count_changed_frame(before, a1, a2, lo, size, k - 1);
    }
}

/// Rewrites the cells of the selection spanned by the two corners: with a
/// mask, only the cells whose block it lists; with a pattern, each to a block
/// drawn from it, else to 0. Each change is counted in `operation`, whose
/// cuboid is the selection. Returns the number of cells whose id changed.
pub fn fill_region(
    plot: &mut Plot,
    first_pos: BlockPos,
    second_pos: BlockPos,
    pattern: Option<&WorldEditPattern>,
    mask: Option<&WorldEditPattern>,
    operation: &mut WorldEditOperation,
) -> (changed: u64)
    requires
        old(plot).wf(),
        selection_fits(first_pos, second_pos),
        total_count(old(operation).records@) == 0,
        old(operation).wf(),
        old(operation).start.at() == lo_corner(first_pos, second_pos),
        old(operation).end.at() == hi_corner(first_pos, second_pos),
        match pattern {
            Some(p) => p.wf(),
            None => true,
        },
    ensures
        fills(
            *old(plot),
            *final(plot),
            lo_corner(first_pos, second_pos),
            extent(first_pos, second_pos),
            match pattern {
                Some(p) => Some(p.parts@),
                None => None,
            },
            match mask {
                Some(m) => Some(m.parts@),
                None => None,
            },
        ),
        final(plot).dirty() == old(plot).dirty(),
        changed == total_count(final(operation).records@),
        changed == count_changed(
            *old(plot),
            *final(plot),
            lo_corner(first_pos, second_pos),
            extent(first_pos, second_pos),
            volume(extent(first_pos, second_pos)),
        ),
        final(operation).start == old(operation).start,
        final(operation).end == old(operation).end,
        final(operation).wf(),
        record_chunks(final(operation).records@) == record_chunks(old(operation).records@),
{
    let ghost plot0 = *old(plot);
    let ghost lo = lo_corner(first_pos, second_pos);
    let ghost size = extent(first_pos, second_pos);
    let ghost pat = match pattern {
        Some(p) => Some(p.parts@),
        None => None,
    };
    let ghost msk = match mask {
        Some(m) => Some(m.parts@),
        None => None,
    };
    let start_pos = first_pos.min(second_pos);
    let end_pos = first_pos.max(second_pos);
    proof {
        lemma_sides_bounded(size);
    }
    let size_x = (end_pos.x as i64 - start_pos.x as i64 + 1) as u32;
    let size_y = (end_pos.y as i64 - start_pos.y as i64 + 1) as u32;
    let size_z = (end_pos.z as i64 - start_pos.z as i64 + 1) as u32;
    proof {
        assert(size_x as int * size_y as int <= volume(size)) by (nonlinear_arith)
            requires size_z >= 1, volume(size) == size_x as int * size_y as int * size_z as int;
        assert(cuboid_index(size_x as int, size_z as int, (0, 0, 0)) == 0) by (nonlinear_arith);
    }
    let n = (size_x as usize) * (size_y as usize) * (size_z as usize);
    let mut i: usize = 0;
    let mut dx: u32 = 0;
    let mut dy: u32 = 0;
    let mut dz: u32 = 0;
    while i < n
        invariant
            plot.wf(),
            plot.x == plot0.x,
            plot.z == plot0.z,
            plot.block_entities == plot0.block_entities,
            plot.dirty() == plot0.dirty(),
            n == volume(size),
            n <= MAX_VOLUME,
            size == (size_x as int, size_y as int, size_z as int),
            size_x <= MAX_VOLUME && size_y <= MAX_VOLUME && size_z <= MAX_VOLUME,
            lo == start_pos.at(),
            end_pos.x == start_pos.x + size_x - 1,
            end_pos.y == start_pos.y + size_y - 1,
            end_pos.z == start_pos.z + size_z - 1,
            i <= n,
            dx < size_x,
            dz < size_z,
            i == cuboid_index(size_x as int, size_z as int, (dx as int, dy as int, dz as int)),
            total_count(operation.records@) <= i,
            total_count(operation.records@) == count_changed(plot0, *plot, lo, size, i as int),
            operation.start == old(operation).start,
            operation.end == old(operation).end,
            operation.wf(),
            operation.start.at() == lo,
            operation.end.at() == end_pos.at(),
            record_chunks(operation.records@) == record_chunks(old(operation).records@),
            match pattern {
                Some(p) => p.wf() && pat == Some(p.parts@),
                None => pat.is_none(),
            },
            match mask {
                Some(m) => msk == Some(m.parts@),
                None => msk.is_none(),
            },
            forall|c: Coord|
                #![trigger plot.cell(c)]
                if fill_target(plot0, lo, size, msk, c) && cuboid_index(
                    size_x as int,
                    size_z as int,
                    coord_sub(c, lo),
                ) < i {
                    match pat {
                        Some(p) => pattern_has(p, plot.cell(c)),
                        None => plot.cell(c) == 0,
                    }
                } else {
                    plot.cell(c) == plot0.cell(c)
                },
        decreases n - i,
    {
        let ghost d = (dx as int, dy as int, dz as int);
        let ghost before = *plot;
        proof {
            lemma_index_bound(size, d);
            lemma_index_offset(size_x as int, size_z as int, d);
            lemma_index_step(size_x as int, size_z as int, d);
        }
        let pos = BlockPos::new(start_pos.x + dx as i32, start_pos.y + dy as i32, start_pos.z + dz as i32);
        let current = plot.get_block_raw(pos);
        let selected = match mask {
            Some(m) => m.matches(current),
            None => true,
        };
        proof {
            assert(pos.at() == coord_add(lo, d));
            vstd::arithmetic::div_mod::lemma_div_is_ordered(start_pos.x as int, pos.x as int, 16);
            vstd::arithmetic::div_mod::lemma_div_is_ordered(pos.x as int, end_pos.x as int, 16);
            vstd::arithmetic::div_mod::lemma_div_is_ordered(start_pos.z as int, pos.z as int, 16);
            vstd::arithmetic::div_mod::lemma_div_is_ordered(pos.z as int, end_pos.z as int, 16);
            assert(tracks(operation.records@, chunk_of(pos.x as int), chunk_of(pos.z as int)));
            lemma_index_offset(size_x as int, size_z as int, coord_sub(pos.at(), lo));
            assert(before.cell(pos.at()) == plot0.cell(pos.at()));
        }
        if selected {
            let id = match pattern {
                Some(p) => p.pick(),
                None => 0,
            };
            if plot.set_block_raw(pos, id) {
                operation.update_block(pos);
            }
        }
        proof {
            assert forall|j: int| 0 <= j < i implies plot.cell(
                coord_add(lo, cuboid_offset(size_x as int, size_z as int, j)),
            ) == before.cell(coord_add(lo, cuboid_offset(size_x as int, size_z as int, j))) by {
                lemma_offset_index(size_x as int, size_z as int, j);
                assert(cuboid_offset(size_x as int, size_z as int, j) != d);
            }
            lemma_count_changed_frame(plot0, *plot, before, lo, size, i as int);
            assert(cuboid_offset(size_x as int, size_z as int, i as int) == d);
        }
        proof {
            assert forall|c: Coord| #![trigger plot.cell(c)]
                if fill_target(plot0, lo, size, msk, c) && cuboid_index(
                    size_x as int,
                    size_z as int,
                    coord_sub(c, lo),
                ) < i + 1 {
                    match pat {
                        Some(p) => pattern_has(p, plot.cell(c)),
                        None => plot.cell(c) == 0,
                    }
                } else {
                    plot.cell(c) == plot0.cell(c)
                } by {
                let e = coord_sub(c, lo);
                if in_extent(e, size) {
                    lemma_index_offset(size_x as int, size_z as int, e);
                }
                assert(before.cell(c) == plot.cell(c) || c == pos.at());
                if c == pos.at() {
                    assert(e == d);
                    assert(before.cell(c) == plot0.cell(c));
                }
            }
        }
        i = i + 1;
        dx = dx + 1;
        if dx == size_x {
            dx = 0;
            dz = dz + 1;
            if dz == size_z {
                dz = 0;
                dy = dy + 1;
            }
        }
    }
    proof {
        assert forall|c: Coord| #![trigger plot.cell(c)]
            if fill_target(plot0, lo, size, msk, c) {
                match pat {
                    Some(p) => pattern_has(p, plot.cell(c)),
                    None => plot.cell(c) == 0,
                }
            } else {
                plot.cell(c) == plot0.cell(c)
            } by {
            let e = coord_sub(c, lo);
            if in_extent(e, size) {
                lemma_index_offset(size_x as int, size_z as int, e);
                lemma_index_bound(size, e);
            }
        }
    }
    operation.blocks_updated()
}

/// How many of the first `k` cells of the cuboid at `lo` (in y, z, x
/// order) hold one of the mask's blocks.
pub open spec fn count_matching(
    plot: Plot,
    lo: Coord,
    size: Coord,
    mask: Seq<crate::pattern::WorldEditPatternPart>,
    k: int,
) -> int
    decreases k,
{
    if k <= 0 {
        0
    } else {
        count_matching(plot, lo, size, mask, k - 1) + if pattern_has(
            mask,
            plot.cell(coord_add(lo, cuboid_offset(size.0, size.2, k - 1))),
        ) {
            1int
        } else {
            0int
        }
    }
}

/// The number of cells of the selection that hold one of the mask's blocks.
pub fn count_region(plot: &Plot, first_pos: BlockPos, second_pos: BlockPos, mask: &WorldEditPattern) -> (r: u64)
    requires
        plot.wf(),
        selection_fits(first_pos, second_pos),
    ensures
        r == count_matching(
            *plot,
            lo_corner(first_pos, second_pos),
            extent(first_pos, second_pos),
            mask.parts@,
            volume(extent(first_pos, second_pos)),
        ),
{
    let ghost lo = lo_corner(first_pos, second_pos);
    let ghost size = extent(first_pos, second_pos);
    let start_pos = first_pos.min(second_pos);
    let end_pos = first_pos.max(second_pos);
    proof {
        lemma_sides_bounded(size);
    }
    let size_x = (end_pos.x as i64 - start_pos.x as i64 + 1) as u32;
    let size_y = (end_pos.y as i64 - start_pos.y as i64 + 1) as u32;
    let size_z = (end_pos.z as i64 - start_pos.z as i64 + 1) as u32;
    proof {
        assert(size_x as int * size_y as int <= volume(size)) by (nonlinear_arith)
            requires size_z >= 1, volume(size) == size_x as int * size_y as int * size_z as int;
        assert(cuboid_index(size_x as int, size_z as int, (0, 0, 0)) == 0) by (nonlinear_arith);
    }
    let n = (size_x as usize) * (size_y as usize) * (size_z as usize);
    let mut i: usize = 0;
    let mut dx: u32 = 0;
    let mut dy: u32 = 0;
    let mut dz: u32 = 0;
    let mut count: u64 = 0;
    while i < n
        invariant
            plot.wf(),
            n == volume(size),
            n <= MAX_VOLUME,
            size == (size_x as int, size_y as int, size_z as int),
            size_x <= MAX_VOLUME && size_y <= MAX_VOLUME && size_z <= MAX_VOLUME,
            lo == start_pos.at(),
            end_pos.x == start_pos.x + size_x - 1,
            end_pos.y == start_pos.y + size_y - 1,
            end_pos.z == start_pos.z + size_z - 1,
            i <= n,
            dx < size_x,
            dz < size_z,
            i == cuboid_index(size_x as int, size_z as int, (dx as int, dy as int, dz as int)),
            count == count_matching(*plot, lo, size, mask.parts@, i as int),
            count <= i,
        decreases n - i,
    {
        let ghost d = (dx as int, dy as int, dz as int);
        proof {
            lemma_index_bound(size, d);
            lemma_index_offset(size_x as int, size_z as int, d);
            lemma_index_step(size_x as int, size_z as int, d);
        }
        let pos = BlockPos::new(start_pos.x + dx as i32, start_pos.y + dy as i32, start_pos.z + dz as i32);
        if mask.matches(plot.get_block_raw(pos)) {
            count = count + 1;
        }
        i = i + 1;
        dx = dx + 1;
        if dx == size_x {
            dx = 0;
            dz = dz + 1;
            if dz == size_z {
                dz = 0;
                dy = dy + 1;
            }
        }
    }
    count
}

} // verus!
