//! Region snapshots: capture, paste, and the undo history built on them.

use vstd::prelude::*;
use crate::cuboid::{
    coord_add, cuboid_index, cuboid_offset, in_extent, lemma_index_bound, lemma_index_offset,
    lemma_index_step, lemma_offset_index, coord_sub, volume,
};
use crate::pos::{BlockPos, Coord, coord_max, coord_min, fits_pos};
use crate::storage::PalettedBitBuffer;
use crate::world::{BlockEntityMap, Plot, entity_map, lemma_entity_map_keys};
use crate::operation::{footprint_chunks, mark_region, marks_footprint};

verus! {

/// The most cells one selection may hold: cell counts and relative offsets
/// are kept in 32 bits.
pub const MAX_VOLUME: u32 = 2147483647;

/// The low corner of the cuboid spanned by two corners.
pub open spec fn lo_corner(a: BlockPos, b: BlockPos) -> Coord {
    (coord_min(a.x as int, b.x as int), coord_min(a.y as int, b.y as int), coord_min(a.z as int, b.z as int))
}

/// The high corner of the cuboid spanned by two corners.
pub open spec fn hi_corner(a: BlockPos, b: BlockPos) -> Coord {
    (coord_max(a.x as int, b.x as int), coord_max(a.y as int, b.y as int), coord_max(a.z as int, b.z as int))
}

/// The size of the cuboid spanned by two corners.
pub open spec fn extent(a: BlockPos, b: BlockPos) -> Coord {
    coord_add(coord_sub(hi_corner(a, b), lo_corner(a, b)), (1, 1, 1))
}

/// The low corner of the cuboid spanned by two corners, as a position.
pub open spec fn lo_block(a: BlockPos, b: BlockPos) -> BlockPos {
    BlockPos {
        x: if a.x <= b.x { a.x } else { b.x },
        y: if a.y <= b.y { a.y } else { b.y },
        z: if a.z <= b.z { a.z } else { b.z },
    }
}

/// Whether two corners span a cuboid small enough to snapshot.
pub open spec fn selection_fits(a: BlockPos, b: BlockPos) -> bool {
    volume(extent(a, b)) <= MAX_VOLUME
}

/// What a snapshot of the cuboid at `lo` with `size` holds of the entities in `m`,
/// keyed relative to `lo`.
pub open spec fn captured_entities(m: Map<Coord, Seq<u8>>, lo: Coord, size: Coord) -> Map<Coord, Seq<u8>> {
    Map::new(
        |c: Coord| in_extent(c, size) && m.contains_key(coord_add(c, lo)),
        |c: Coord| m[coord_add(c, lo)],
    )
}

/// The entities of `m` moved by `off`.
pub open spec fn shifted_entities(m: Map<Coord, Seq<u8>>, off: Coord) -> Map<Coord, Seq<u8>> {
    Map::new(|c: Coord| m.contains_key(coord_sub(c, off)), |c: Coord| m[coord_sub(c, off)])
}

/// A rectangular extract of the world: cell ids in y, z, x order, the block
/// entities of its cells keyed by relative position, and the offset from the
/// anchor it was taken at to its low corner.
pub struct WorldEditClipboard {
    pub offset_x: i32,
    pub offset_y: i32,
    pub offset_z: i32,
    pub size_x: u32,
    pub size_y: u32,
    pub size_z: u32,
    pub data: PalettedBitBuffer,
    pub block_entities: BlockEntityMap,
}

impl WorldEditClipboard {
    pub open spec fn size(&self) -> Coord {
        (self.size_x as int, self.size_y as int, self.size_z as int)
    }

    pub open spec fn offset(&self) -> Coord {
        (self.offset_x as int, self.offset_y as int, self.offset_z as int)
    }

    pub open spec fn wf(&self) -> bool {
        &&& self.size_x <= MAX_VOLUME
        &&& self.size_y <= MAX_VOLUME
        &&& self.size_z <= MAX_VOLUME
        &&& volume(self.size()) <= MAX_VOLUME
        &&& self.data.wf()
        &&& self.data@.len() == volume(self.size())
        &&& forall|c: Coord| #[trigger]
            self.block_entities@.contains_key(c) ==> in_extent(c, self.size())
    }

    /// The id held at relative position `d`.
    pub open spec fn cell(&self, d: Coord) -> u32 {
        self.data@[cuboid_index(self.size_x as int, self.size_z as int, d)]
    }

    /// An independent copy.
    pub fn duplicate(&self) -> (r: WorldEditClipboard)
        requires
            self.wf(),
        ensures
            r.wf(),
            r.size() == self.size(),
            r.offset() == self.offset(),
            r.data@ == self.data@,
            r.block_entities@ == self.block_entities@,
    {
        WorldEditClipboard {
            offset_x: self.offset_x,
            offset_y: self.offset_y,
            offset_z: self.offset_z,
            size_x: self.size_x,
            size_y: self.size_y,
            size_z: self.size_z,
            data: self.data.duplicate(),
            block_entities: self.block_entities.duplicate(),
        }
    }
}

/// Whether `cb` is the snapshot of the cuboid spanned by `first_pos` and
/// `second_pos` in `plot`, anchored at `origin`: same size, every cell and
/// every block entity of the cuboid, keyed relative to the low corner.
pub open spec fn captures(
    cb: WorldEditClipboard,
    plot: Plot,
    origin: BlockPos,
    first_pos: BlockPos,
    second_pos: BlockPos,
) -> bool {
    &&& cb.wf()
    &&& cb.size() == extent(first_pos, second_pos)
    &&& cb.offset() == coord_sub(origin.at(), lo_corner(first_pos, second_pos))
    &&& forall|d: Coord|
        #![trigger cb.cell(d)]
        in_extent(d, cb.size()) ==> cb.cell(d) == plot.cell(
            coord_add(lo_corner(first_pos, second_pos), d),
        )
    &&& cb.block_entities@ == captured_entities(
        plot.block_entities@,
        lo_corner(first_pos, second_pos),
        cb.size(),
    )
}

/// Snapshots the cuboid spanned by `first_pos` and `second_pos`, with its
/// offset taken relative to `origin`.
pub fn create_clipboard(
    plot: &Plot,
    origin: BlockPos,
    first_pos: BlockPos,
    second_pos: BlockPos,
) -> (cb: WorldEditClipboard)
    requires
        plot.wf(),
        selection_fits(first_pos, second_pos),
        fits_pos(coord_sub(origin.at(), lo_corner(first_pos, second_pos))),
    ensures
        captures(cb, *plot, origin, first_pos, second_pos),
{
    let start_pos = first_pos.min(second_pos);
    let end_pos = first_pos.max(second_pos);
    let ghost lo = lo_corner(first_pos, second_pos);
    let ghost size = extent(first_pos, second_pos);
    proof {
        assert(size.0 >= 1 && size.1 >= 1 && size.2 >= 1);
        assert(size.0 <= MAX_VOLUME && size.1 <= MAX_VOLUME && size.2 <= MAX_VOLUME) by (nonlinear_arith)
            requires
                size.0 >= 1,
                size.1 >= 1,
                size.2 >= 1,
                size.0 * size.1 * size.2 <= MAX_VOLUME,
        ;
    }
    let size_x = (end_pos.x as i64 - start_pos.x as i64 + 1) as u32;
    let size_y = (end_pos.y as i64 - start_pos.y as i64 + 1) as u32;
    let size_z = (end_pos.z as i64 - start_pos.z as i64 + 1) as u32;
    proof {
        assert(size_x as int * size_y as int <= volume(size)) by (nonlinear_arith)
            requires size_z >= 1, volume(size) == size_x as int * size_y as int * size_z as int;
        assert(size_x <= MAX_VOLUME && size_y <= MAX_VOLUME && size_z <= MAX_VOLUME) by (nonlinear_arith)
            requires
                size_x >= 1,
                size_y >= 1,
                size_z >= 1,
                size_x as int * size_y as int * size_z as int <= MAX_VOLUME,
        ;
    }
    let n = (size_x as usize) * (size_y as usize) * (size_z as usize);
    let mut data = PalettedBitBuffer::with_entries(n);
    let mut i: usize = 0;
    let mut dx: u32 = 0;
    let mut dy: u32 = 0;
    let mut dz: u32 = 0;
    proof {
        assert(cuboid_index(size_x as int, size_z as int, (0, 0, 0)) == 0) by (nonlinear_arith);
    }
    while i < n
        invariant
            plot.wf(),
            n == volume(size),
            size == (size_x as int, size_y as int, size_z as int),
            lo == start_pos.at(),
            size_x >= 1 && size_y >= 1 && size_z >= 1,
            size_x <= MAX_VOLUME && size_y <= MAX_VOLUME && size_z <= MAX_VOLUME,
            end_pos.x == start_pos.x + size_x - 1,
            end_pos.y == start_pos.y + size_y - 1,
            end_pos.z == start_pos.z + size_z - 1,
            i <= n,
            dx < size_x,
            dz < size_z,
            i == cuboid_index(size_x as int, size_z as int, (dx as int, dy as int, dz as int)),
            data.wf(),
            data@.len() == n,
            forall|k: int|
                0 <= k < i ==> #[trigger] data@[k] == plot.cell(
                    coord_add(lo, cuboid_offset(size_x as int, size_z as int, k)),
                ),
        decreases n - i,
    {
        let ghost d = (dx as int, dy as int, dz as int);
        proof {
            lemma_index_bound(size, d);
            lemma_index_offset(size_x as int, size_z as int, d);
            lemma_index_step(size_x as int, size_z as int, d);
        }
        let pos = BlockPos::new(start_pos.x + dx as i32, start_pos.y + dy as i32, start_pos.z + dz as i32);
        let id = plot.get_block_raw(pos);
        data.set_entry(i, id);
        i = i + 1;
        dx = dx + 1;
        if dx == size_x {
            dx = 0;
            dz = dz + 1;
            if dz == size_z {
                dz = 0;
                dy = dy + 1;
            }
        }
    }
    let mut block_entities = BlockEntityMap::new();
    let count = plot.block_entities.len();
    let mut j: usize = 0;
    proof {
        plot.block_entities.lemma_records();
    }
    while j < count
        invariant
            count == plot.block_entities.records().len(),
            j <= count,
            lo == start_pos.at(),
            size == (size_x as int, size_y as int, size_z as int),
            hi_corner(first_pos, second_pos) == end_pos.at(),
            size_x <= MAX_VOLUME && size_y <= MAX_VOLUME && size_z <= MAX_VOLUME,
            end_pos.x == start_pos.x + size_x - 1,
            end_pos.y == start_pos.y + size_y - 1,
            end_pos.z == start_pos.z + size_z - 1,
            block_entities@ == captured_entities(
                entity_map(plot.block_entities.records().subrange(0, j as int)),
                lo,
                size,
            ),
        decreases count - j,
    {
        let pos = plot.block_entities.record_pos(j);
        let ghost prefix = plot.block_entities.records().subrange(0, j as int);
        let ghost next = plot.block_entities.records().subrange(0, j + 1);
        proof {
            assert(next.drop_last() =~= prefix);
        }
        if start_pos.x <= pos.x && pos.x <= end_pos.x && start_pos.y <= pos.y && pos.y <= end_pos.y
            && start_pos.z <= pos.z && pos.z <= end_pos.z {
            let entity = plot.block_entities.record_entity(j);
            let rel = BlockPos::new(pos.x - start_pos.x, pos.y - start_pos.y, pos.z - start_pos.z);
            block_entities.insert(rel, entity);
            proof {
                assert(block_entities@ =~= captured_entities(entity_map(next), lo, size));
            }
        } else {
            proof {
                assert(block_entities@ =~= captured_entities(entity_map(next), lo, size));
            }
        }
        j = j + 1;
    }
    proof {
        assert(plot.block_entities.records().subrange(0, count as int) =~= plot.block_entities.records());
        assert forall|d: Coord| #![trigger data@[cuboid_index(size_x as int, size_z as int, d)]]
            in_extent(d, size) implies data@[cuboid_index(size_x as int, size_z as int, d)]
            == plot.cell(coord_add(lo, d)) by {
            lemma_index_offset(size_x as int, size_z as int, d);
            lemma_index_bound(size, d);
        }
    }
    WorldEditClipboard {
        offset_x: origin.x - start_pos.x,
        offset_y: origin.y - start_pos.y,
        offset_z: origin.z - start_pos.z,
        size_x,
        size_y,
        size_z,
        data,
        block_entities,
    }
}

/// No side of a well-formed snapshot is longer than its volume bound.
pub proof fn lemma_sides_bounded(size: Coord)
    requires
        size.0 >= 1,
        size.1 >= 1,
        size.2 >= 1,
        volume(size) <= MAX_VOLUME,
    ensures
        size.0 <= MAX_VOLUME,
        size.1 <= MAX_VOLUME,
        size.2 <= MAX_VOLUME,
{
    assert(size.0 <= MAX_VOLUME && size.1 <= MAX_VOLUME && size.2 <= MAX_VOLUME) by (nonlinear_arith)
        requires
            size.0 >= 1,
            size.1 >= 1,
            size.2 >= 1,
            size.0 * size.1 * size.2 <= MAX_VOLUME,
    ;
}

/// A snapshot with no cells has a side of length 0, so no offset lies in its
/// extent and it holds no block entity.
pub proof fn lemma_empty_snapshot(cb: WorldEditClipboard)
    requires
        cb.wf(),
        volume(cb.size()) == 0,
    ensures
        forall|e: Coord| !#[trigger] in_extent(e, cb.size()),
        cb.block_entities@ == Map::<Coord, Seq<u8>>::empty(),
{
    let size = cb.size();
    assert(size.0 == 0 || size.1 == 0 || size.2 == 0) by (nonlinear_arith)
        requires
            size.0 * size.1 * size.2 == 0,
    ;
    assert(cb.block_entities@ =~= Map::<Coord, Seq<u8>>::empty());
}

/// Two corners always span at least one cell.
pub proof fn lemma_extent_nonempty(a: BlockPos, b: BlockPos)
    ensures
        volume(extent(a, b)) > 0,
{
    let size = extent(a, b);
    assert(size.0 >= 1 && size.1 >= 1 && size.2 >= 1);
    assert(size.0 * size.1 * size.2 > 0) by (nonlinear_arith)
        requires
            size.0 >= 1,
            size.1 >= 1,
            size.2 >= 1,
    ;
}

/// A snapshot with cells has every side at least 1 long.
pub proof fn lemma_nonempty_snapshot(cb: WorldEditClipboard)
    requires
        cb.wf(),
        volume(cb.size()) > 0,
    ensures
        cb.size_x >= 1 && cb.size_y >= 1 && cb.size_z >= 1,
{
    let size = cb.size();
    assert(size.0 != 0 && size.1 != 0 && size.2 != 0) by (nonlinear_arith)
        requires
            size.0 * size.1 * size.2 > 0,
    ;
}

/// Where a snapshot's low corner lands when it is pasted at `pos`.
pub open spec fn paste_origin(cb: WorldEditClipboard, pos: BlockPos) -> Coord {
    coord_sub(pos.at(), cb.offset())
}

/// The high corner of the cuboid a paste at `dest` covers.
pub open spec fn paste_far(cb: WorldEditClipboard, dest: Coord) -> Coord {
    coord_add(dest, coord_sub(cb.size(), (1, 1, 1)))
}

/// Whether pasting at `pos` keeps every written position in the `i32` range.
pub open spec fn paste_fits(cb: WorldEditClipboard, pos: BlockPos) -> bool {
    fits_pos(paste_origin(cb, pos)) && fits_pos(paste_far(cb, paste_origin(cb, pos)))
}

/// The id a cell holds after the snapshot is pasted with its low corner at
/// `dest`. Cells outside the plot stay 0; with `ignore_air`, snapshot cells
/// holding 0 leave the world's cell alone.
pub open spec fn pasted_cell(
    plot: Plot,
    cb: WorldEditClipboard,
    dest: Coord,
    ignore_air: bool,
    c: Coord,
) -> u32 {
    if plot.in_bounds(c) && in_extent(coord_sub(c, dest), cb.size()) && !(ignore_air && cb.cell(
        coord_sub(c, dest),
    ) == 0) {
        cb.cell(coord_sub(c, dest))
    } else {
        plot.cell(c)
    }
}

/// Whether `after` is `before` with `cb` pasted at `pos`: every cell as
/// `pasted_cell` gives it, and the snapshot's block entities moved into place
/// over the world's own.
pub open spec fn pastes(
    before: Plot,
    cb: WorldEditClipboard,
    pos: BlockPos,
    ignore_air: bool,
    after: Plot,
) -> bool {
    &&& after.wf()
    &&& after.x == before.x
    &&& after.z == before.z
    &&& forall|c: Coord|
        #![trigger after.cell(c)]
        after.cell(c) == pasted_cell(before, cb, paste_origin(cb, pos), ignore_air, c)
    &&& after.block_entities@ == before.block_entities@.union_prefer_right(
        shifted_entities(cb.block_entities@, paste_origin(cb, pos)),
    )
}

/// Writes the snapshot into the world with its anchor at `pos`: the cells
/// first, then every chunk the destination touches is marked for re-delivery,
/// then the block entities, moved by the same offset.
pub fn paste_clipboard(plot: &mut Plot, cb: &WorldEditClipboard, pos: BlockPos, ignore_air: bool)
    requires
        old(plot).wf(),
        cb.wf(),
        paste_fits(*cb, pos),
    ensures
        pastes(*old(plot), *cb, pos, ignore_air, *final(plot)),
        final(plot).dirty().len() >= old(plot).dirty().len(),
        final(plot).dirty().subrange(0, old(plot).dirty().len() as int) == old(plot).dirty(),
        volume(cb.size()) > 0 ==> footprint_chunks(
            final(plot).dirty().subrange(old(plot).dirty().len() as int, final(plot).dirty().len() as int),
            paste_origin(*cb, pos),
            paste_far(*cb, paste_origin(*cb, pos)),
        ),
        volume(cb.size()) == 0 ==> *final(plot) == *old(plot),
{
    if cb.data.entries() == 0 {
        proof {
            lemma_empty_snapshot(*cb);
            assert(old(plot).block_entities@.union_prefer_right(
                shifted_entities(cb.block_entities@, paste_origin(*cb, pos)),
            ) =~= old(plot).block_entities@);
            assert(old(plot).dirty().subrange(0, old(plot).dirty().len() as int) =~= old(plot).dirty());
        }
        return;
    }
    proof {
        lemma_nonempty_snapshot(*cb);
    }
    let ghost dest = paste_origin(*cb, pos);
    let ghost size = cb.size();
    let ghost plot0 = *old(plot);
    let origin_x = (pos.x as i64 - cb.offset_x as i64) as i32;
    let origin_y = (pos.y as i64 - cb.offset_y as i64) as i32;
    let origin_z = (pos.z as i64 - cb.offset_z as i64) as i32;
    let size_x = cb.size_x;
    let size_z = cb.size_z;
    let n = cb.data.entries();
    let mut i: usize = 0;
    let mut dx: u32 = 0;
    let mut dy: u32 = 0;
    let mut dz: u32 = 0;
    proof {
        assert(cuboid_index(size_x as int, size_z as int, (0, 0, 0)) == 0) by (nonlinear_arith);
        lemma_sides_bounded(size);
    }
    while i < n
        invariant
            plot.wf(),
            cb.wf(),
            cb.size_x >= 1 && cb.size_y >= 1 && cb.size_z >= 1,
            plot.x == plot0.x,
            plot.z == plot0.z,
            plot.block_entities == plot0.block_entities,
            plot.dirty() == plot0.dirty(),
            dest == (origin_x as int, origin_y as int, origin_z as int),
            fits_pos(paste_far(*cb, dest)),
            size == cb.size(),
            size_x == cb.size_x,
            size_z == cb.size_z,
            n == volume(size),
            size.0 <= MAX_VOLUME && size.1 <= MAX_VOLUME && size.2 <= MAX_VOLUME,
            i <= n,
            dx < size_x,
            dz < size_z,
            i == cuboid_index(size_x as int, size_z as int, (dx as int, dy as int, dz as int)),
            forall|c: Coord|
                #![trigger plot.cell(c)]
                plot.cell(c) == if plot0.in_bounds(c) && in_extent(coord_sub(c, dest), size)
                    && cuboid_index(size_x as int, size_z as int, coord_sub(c, dest)) < i && !(
                ignore_air && cb.cell(coord_sub(c, dest)) == 0) {
                    cb.cell(coord_sub(c, dest))
                } else {
                    plot0.cell(c)
                },
        decreases n - i,
    {
        let ghost d = (dx as int, dy as int, dz as int);
        let ghost before = *plot;
        proof {
            lemma_index_bound(size, d);
            lemma_index_offset(size_x as int, size_z as int, d);
            lemma_index_step(size_x as int, size_z as int, d);
        }
        let entry = cb.data.get_entry(i);
        if !(ignore_air && entry == 0) {
            let target = BlockPos::new(origin_x + dx as i32, origin_y + dy as i32, origin_z + dz as i32);
            plot.set_block_raw(target, entry);
        }
        proof {
            assert forall|c: Coord| #![trigger plot.cell(c)]
                plot.cell(c) == if plot0.in_bounds(c) && in_extent(coord_sub(c, dest), size)
                    && cuboid_index(size_x as int, size_z as int, coord_sub(c, dest)) < i + 1 && !(
                ignore_air && cb.cell(coord_sub(c, dest)) == 0) {
                    cb.cell(coord_sub(c, dest))
                } else {
                    plot0.cell(c)
                } by {
                let e = coord_sub(c, dest);
                if in_extent(e, size) {
                    lemma_index_offset(size_x as int, size_z as int, e);
                }
                assert(before.cell(c) == if plot0.in_bounds(c) && in_extent(coord_sub(c, dest), size)
                    && cuboid_index(size_x as int, size_z as int, coord_sub(c, dest)) < i && !(
                ignore_air && cb.cell(coord_sub(c, dest)) == 0) {
                    cb.cell(coord_sub(c, dest))
                } else {
                    plot0.cell(c)
                });
            }
        }
        i = i + 1;
        dx = dx + 1;
        if dx == size_x {
            dx = 0;
            dz = dz + 1;
            if dz == size_z {
                dz = 0;
                dy = dy + 1;
            }
        }
    }
    proof {
        assert forall|c: Coord| #![trigger plot.cell(c)]
            plot.cell(c) == pasted_cell(plot0, *cb, dest, ignore_air, c) by {
            let e = coord_sub(c, dest);
            if in_extent(e, size) {
                lemma_index_bound(size, e);
            }
        }
    }
    let ghost cells_done = *plot;
    assert(forall|c: Coord| #![trigger cells_done.cell(c)] cells_done.cell(c) == pasted_cell(plot0, *cb, dest, ignore_air, c));
    let far = BlockPos::new(
        origin_x + (size_x - 1) as i32,
        origin_y + (cb.size_y - 1) as i32,
        origin_z + (size_z - 1) as i32,
    );
    mark_region(plot, BlockPos::new(origin_x, origin_y, origin_z), far);
    let ghost marked = *plot;
    let count = cb.block_entities.len();
    let mut j: usize = 0;
    proof {
        cb.block_entities.lemma_records();
        lemma_entity_map_keys(cb.block_entities.records());
    }
    while j < count
        invariant
            plot.wf(),
            cb.wf(),
            plot.x == plot0.x,
            plot.z == plot0.z,
            plot.dirty() == marked.dirty(),
            forall|c: Coord| #![auto] plot.cell(c) == cells_done.cell(c),
            dest == (origin_x as int, origin_y as int, origin_z as int),
            fits_pos(paste_far(*cb, dest)),
            count == cb.block_entities.records().len(),
            cb.block_entities@ == entity_map(cb.block_entities.records()),
            forall|k: int| 0 <= k < cb.block_entities.records().len() ==> cb.block_entities@.contains_key(
                #[trigger] cb.block_entities.records()[k].0.at(),
            ),
            j <= count,
            plot.block_entities@ == plot0.block_entities@.union_prefer_right(
                shifted_entities(entity_map(cb.block_entities.records().subrange(0, j as int)), dest),
            ),
        decreases count - j,
    {
        let rel = cb.block_entities.record_pos(j);
        let entity = cb.block_entities.record_entity(j);
        let ghost prefix = cb.block_entities.records().subrange(0, j as int);
        let ghost next = cb.block_entities.records().subrange(0, j + 1);
        proof {
            assert(next.drop_last() =~= prefix);
            assert(cb.block_entities@.contains_key(cb.block_entities.records()[j as int].0.at()));
        }
        let target = BlockPos::new(origin_x + rel.x, origin_y + rel.y, origin_z + rel.z);
        plot.set_block_entity(target, entity);
        proof {
            assert(plot.block_entities@ =~= plot0.block_entities@.union_prefer_right(
                shifted_entities(entity_map(next), dest),
            ));
        }
        j = j + 1;
    }
    proof {
        assert(cb.block_entities.records().subrange(0, count as int) =~= cb.block_entities.records());
        assert forall|c: Coord| #![trigger plot.cell(c)]
            plot.cell(c) == pasted_cell(plot0, *cb, dest, ignore_air, c) by {
            assert(plot.cell(c) == cells_done.cell(c));
            assert(cells_done.cell(c) == pasted_cell(plot0, *cb, dest, ignore_air, c));
        }
    }
}

/// Capturing a cuboid and pasting the snapshot at the anchor it was captured
/// at, without skipping empty cells, gives back every cell and every block
/// entity of the world as it was.
pub proof fn lemma_capture_paste_round_trip(
    before: Plot,
    cb: WorldEditClipboard,
    after: Plot,
    origin: BlockPos,
    first_pos: BlockPos,
    second_pos: BlockPos,
)
    requires
        before.wf(),
        captures(cb, before, origin, first_pos, second_pos),
        pastes(before, cb, origin, false, after),
    ensures
        forall|c: Coord| #![trigger after.cell(c)] after.cell(c) == before.cell(c),
        after.block_entities@ == before.block_entities@,
{
    let lo = lo_corner(first_pos, second_pos);
    assert(paste_origin(cb, origin) == lo);
    assert forall|c: Coord| #![trigger after.cell(c)] after.cell(c) == before.cell(c) by {
        let d = coord_sub(c, lo);
        if in_extent(d, cb.size()) {
            assert(cb.cell(d) == before.cell(coord_add(lo, d)));
            assert(coord_add(lo, d) == c);
        }
    }
    assert(after.block_entities@ =~= before.block_entities@);
}

/// The order of the two corners does not matter: snapshots of the cuboid
/// they span agree in size, offset, every cell and every block entity.
pub proof fn lemma_capture_corner_order(
    cb1: WorldEditClipboard,
    cb2: WorldEditClipboard,
    plot: Plot,
    origin: BlockPos,
    first_pos: BlockPos,
    second_pos: BlockPos,
)
    requires
        captures(cb1, plot, origin, first_pos, second_pos),
        captures(cb2, plot, origin, second_pos, first_pos),
    ensures
        cb1.size() == cb2.size(),
        cb1.offset() == cb2.offset(),
        cb1.data@ == cb2.data@,
        cb1.block_entities@ == cb2.block_entities@,
{
    let size = cb1.size();
    assert(lo_corner(first_pos, second_pos) == lo_corner(second_pos, first_pos));
    assert(extent(first_pos, second_pos) == extent(second_pos, first_pos));
    assert forall|k: int| 0 <= k < cb1.data@.len() implies cb1.data@[k] == cb2.data@[k] by {
        lemma_offset_index(size.0, size.2, k);
        let d = cuboid_offset(size.0, size.2, k);
        lemma_index_bound(size, d);
        assert(cb1.cell(d) == cb2.cell(d));
    }
    assert(cb1.data@ =~= cb2.data@);
    assert(cb1.block_entities@ =~= cb2.block_entities@);
}

/// A prior state kept for undo: the snapshot, the anchor to paste it back at,
/// and the plot it was taken in.
pub struct WorldEditUndo {
    pub clipboard: WorldEditClipboard,
    pub pos: BlockPos,
    pub plot_x: i32,
    pub plot_z: i32,
}

impl WorldEditUndo {
    pub open spec fn wf(&self) -> bool {
        self.clipboard.wf() && volume(self.clipboard.size()) > 0 && paste_fits(self.clipboard, self.pos)
    }
}

/// Whether every entry of an undo history can be replayed.
pub open spec fn history_wf(h: Seq<WorldEditUndo>) -> bool {
    forall|i: int| 0 <= i < h.len() ==> (#[trigger] h[i]).wf()
}

/// Snapshots the cuboid spanned by the two corners, anchored at its low
/// corner, and pushes it onto `history` with the plot's identity.
pub fn capture_undo(
    plot: &Plot,
    history: &mut Vec<WorldEditUndo>,
    first_pos: BlockPos,
    second_pos: BlockPos,
)
    requires
        plot.wf(),
        selection_fits(first_pos, second_pos),
        history_wf(old(history)@),
    ensures
        history_wf(final(history)@),
        final(history)@.len() == old(history)@.len() + 1,
        final(history)@.drop_last() == old(history)@,
        final(history)@.last().pos.at() == lo_corner(first_pos, second_pos),
        final(history)@.last().plot_x == plot.x,
        final(history)@.last().plot_z == plot.z,
        captures(final(history)@.last().clipboard, *plot, final(history)@.last().pos, first_pos, second_pos),
{
    let origin = first_pos.min(second_pos);
    let cb = create_clipboard(plot, origin, first_pos, second_pos);
    proof {
        lemma_sides_bounded(cb.size());
        lemma_extent_nonempty(first_pos, second_pos);
        assert(paste_origin(cb, origin) == origin.at());
    }
    let entry = WorldEditUndo { clipboard: cb, pos: origin, plot_x: plot.x, plot_z: plot.z };
    history.push(entry);
    proof {
        assert(history@.drop_last() =~= old(history)@);
    }
}

/// Why an undo was refused.
#[derive(Clone, Copy, Debug, PartialEq, Eq, Structural)]
pub enum UndoError {
    NothingToUndo,
    OutsideOfPlot,
}

/// Pops the latest entry and pastes it back exactly (empty cells included).
/// An entry taken in another plot is dropped and nothing is pasted.
pub fn undo(plot: &mut Plot, history: &mut Vec<WorldEditUndo>) -> (r: Result<(), UndoError>)
    requires
        old(plot).wf(),
        history_wf(old(history)@),
    ensures
        history_wf(final(history)@),
        old(history)@.len() == 0 ==> r == Err::<(), UndoError>(UndoError::NothingToUndo)
            && final(history)@ == old(history)@ && *final(plot) == *old(plot),
        old(history)@.len() > 0 ==> final(history)@ == old(history)@.drop_last(),
        old(history)@.len() > 0 && (old(history)@.last().plot_x != old(plot).x
            || old(history)@.last().plot_z != old(plot).z) ==> r == Err::<(), UndoError>(
            UndoError::OutsideOfPlot,
        ) && *final(plot) == *old(plot),
        old(history)@.len() > 0 && old(history)@.last().plot_x == old(plot).x
            && old(history)@.last().plot_z == old(plot).z ==> r is Ok && pastes(
            *old(plot),
            old(history)@.last().clipboard,
            old(history)@.last().pos,
            false,
            *final(plot),
        ) && marks_footprint(
            old(plot).dirty(),
            final(plot).dirty(),
            paste_origin(old(history)@.last().clipboard, old(history)@.last().pos),
            paste_far(
                old(history)@.last().clipboard,
                paste_origin(old(history)@.last().clipboard, old(history)@.last().pos),
            ),
        ),
        final(plot).wf(),
{
    match history.pop() {
        None => Err(UndoError::NothingToUndo),
        Some(entry) => {
            proof {
                assert(old(history)@[old(history)@.len() - 1].wf());
                assert(history@ =~= old(history)@.drop_last());
            }
            if entry.plot_x != plot.x || entry.plot_z != plot.z {
                return Err(UndoError::OutsideOfPlot);
            }
            paste_clipboard(plot, &entry.clipboard, entry.pos, false);
            Ok(())
        },
    }
}

/// Pasting over part of a captured cuboid and then replaying the captured
/// entry (as `undo` does) gives back every cell of the world, and every
/// block entity that the cuboid held before.
pub proof fn lemma_paste_then_undo(
    before: Plot,
    edited: Plot,
    restored: Plot,
    saved: WorldEditUndo,
    cb: WorldEditClipboard,
    pos: BlockPos,
    ignore_air: bool,
    first_pos: BlockPos,
    second_pos: BlockPos,
)
    requires
        before.wf(),
        saved.pos.at() == lo_corner(first_pos, second_pos),
        captures(saved.clipboard, before, saved.pos, first_pos, second_pos),
        cb.wf(),
        in_extent(coord_sub(paste_origin(cb, pos), lo_corner(first_pos, second_pos)), extent(first_pos, second_pos)),
        in_extent(coord_sub(paste_far(cb, paste_origin(cb, pos)), lo_corner(first_pos, second_pos)), extent(first_pos, second_pos)),
        pastes(before, cb, pos, ignore_air, edited),
        pastes(edited, saved.clipboard, saved.pos, false, restored),
    ensures
        forall|c: Coord| #![trigger restored.cell(c)] restored.cell(c) == before.cell(c),
        forall|c: Coord|
            #![trigger before.block_entities@.contains_key(c)]
            in_extent(coord_sub(c, lo_corner(first_pos, second_pos)), extent(first_pos, second_pos))
                && before.block_entities@.contains_key(c) ==> restored.block_entities@.contains_key(c)
                && restored.block_entities@[c] == before.block_entities@[c],
{
    let lo = lo_corner(first_pos, second_pos);
    let u = saved.clipboard;
    assert(paste_origin(u, saved.pos) == lo);
    assert forall|c: Coord| #![trigger restored.cell(c)] restored.cell(c) == before.cell(c) by {
        let d = coord_sub(c, lo);
        if in_extent(d, u.size()) {
            assert(u.cell(d) == before.cell(coord_add(lo, d)));
            assert(coord_add(lo, d) == c);
            assert(edited.in_bounds(c) == before.in_bounds(c));
            if !before.in_bounds(c) {
                assert(edited.cell(c) == before.cell(c));
            }
        } else {
            let e = coord_sub(c, paste_origin(cb, pos));
            assert(!in_extent(e, cb.size()));
            assert(edited.cell(c) == before.cell(c));
        }
    }
    assert forall|c: Coord|
        #![trigger before.block_entities@.contains_key(c)]
        in_extent(coord_sub(c, lo), extent(first_pos, second_pos))
            && before.block_entities@.contains_key(c) implies restored.block_entities@.contains_key(c)
            && restored.block_entities@[c] == before.block_entities@[c] by {
        let d = coord_sub(c, lo);
        assert(u.block_entities@.contains_key(d));
        assert(coord_sub(c, paste_origin(u, saved.pos)) == d);
        assert(coord_add(d, lo) == c);
        assert(shifted_entities(u.block_entities@, lo).contains_key(c));
    }
}

} // verus!
