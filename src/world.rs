//! A world partition (plot): its cells, block entities and dirtied chunks.

use vstd::prelude::*;
use crate::pos::{BlockPos, Coord};
use crate::storage::PalettedBitBuffer;

verus! {

/// Horizontal extent of a plot, in cells, along x and along z.
pub const PLOT_WIDTH: i32 = 128;

/// Vertical extent of a plot, in cells.
pub const PLOT_HEIGHT: i32 = 128;

/// Cells in a plot: `PLOT_WIDTH * PLOT_HEIGHT * PLOT_WIDTH`.
pub const PLOT_CELLS: usize = 2097152;

/// The largest plot coordinate (in absolute value) a plot can have: its
/// cells must keep `i32` coordinates.
pub const PLOT_COORD_LIMIT: i32 = 16777215;

/// Extended per-cell state (a sign's text, a container's items), kept as the
/// encoded bytes of its structured data.
pub struct BlockEntity {
    pub data: Vec<u8>,
}

impl BlockEntity {
    pub fn duplicate(&self) -> (r: BlockEntity)
        ensures
            r.data@ == self.data@,
    {
        let mut data: Vec<u8> = Vec::new();
        let mut i: usize = 0;
        while i < self.data.len()
            invariant
                i <= self.data.len(),
                data@ == self.data@.subrange(0, i as int),
            decreases self.data.len() - i,
        {
            data.push(self.data[i]);
            i = i + 1;
            proof {
                assert(data@ =~= self.data@.subrange(0, i as int));
            }
        }
        proof {
            assert(data@ =~= self.data@);
        }
        BlockEntity { data }
    }
}

/// The map that a list of (position, entity) records stands for: a later
/// record for a position replaces an earlier one.
pub open spec fn entity_map(s: Seq<(BlockPos, BlockEntity)>) -> Map<Coord, Seq<u8>>
    decreases s.len(),
{
    if s.len() == 0 {
        Map::empty()
    } else {
        entity_map(s.drop_last()).insert(s.last().0.at(), s.last().1.data@)
    }
}

/// Records after index `i` that never name `k` leave what the map holds at `k`
/// as the first `i` records have it.
pub proof fn lemma_entity_map_suffix_free(s: Seq<(BlockPos, BlockEntity)>, i: int, k: Coord)
    requires
        0 <= i <= s.len(),
        forall|j: int| i <= j < s.len() ==> s[j].0.at() != k,
    ensures
        entity_map(s).contains_key(k) == entity_map(s.subrange(0, i)).contains_key(k),
        entity_map(s).contains_key(k) ==> entity_map(s)[k] == entity_map(s.subrange(0, i))[k],
    decreases s.len(),
{
    if s.len() == i {
        assert(s.subrange(0, i) =~= s);
    } else {
        lemma_entity_map_suffix_free(s.drop_last(), i, k);
        assert(s.drop_last().subrange(0, i) =~= s.subrange(0, i));
    }
}

/// Every record's position is a key of the map the records stand for.
pub proof fn lemma_entity_map_keys(s: Seq<(BlockPos, BlockEntity)>)
    ensures
        forall|j: int| 0 <= j < s.len() ==> entity_map(s).contains_key(#[trigger] s[j].0.at()),
    decreases s.len(),
{
    if s.len() > 0 {
        lemma_entity_map_keys(s.drop_last());
        assert forall|j: int| 0 <= j < s.len() implies entity_map(s).contains_key(#[trigger] s[j].0.at()) by {
            if j < s.len() - 1 {
                assert(s.drop_last()[j] == s[j]);
            }
        }
    }
}

/// A sparse map from positions to block entities.
pub struct BlockEntityMap {
    entries: Vec<(BlockPos, BlockEntity)>,
}

impl View for BlockEntityMap {
    type V = Map<Coord, Seq<u8>>;

    closed spec fn view(&self) -> Map<Coord, Seq<u8>> {
        entity_map(self.entries@)
    }
}

impl BlockEntityMap {
    /// The records in the order they were inserted.
    pub closed spec fn records(&self) -> Seq<(BlockPos, BlockEntity)> {
        self.entries@
    }

    pub proof fn lemma_records(&self)
        ensures
            self@ == entity_map(self.records()),
    {
    }

    pub fn new() -> (r: BlockEntityMap)
        ensures
            r@ == Map::<Coord, Seq<u8>>::empty(),
            r.records().len() == 0,
    {
        BlockEntityMap { entries: Vec::new() }
    }

    pub fn len(&self) -> (r: usize)
        ensures
            r == self.records().len(),
    {
        self.entries.len()
    }

    /// The position of the record at `i`, in insertion order.
    pub fn record_pos(&self, i: usize) -> (r: BlockPos)
        requires
            i < self.records().len(),
        ensures
            r == self.records()[i as int].0,
    {
        self.entries[i].0
    }

    /// A copy of the entity of the record at `i`.
    pub fn record_entity(&self, i: usize) -> (r: BlockEntity)
        requires
            i < self.records().len(),
        ensures
            r.data@ == self.records()[i as int].1.data@,
    {
        self.entries[i].1.duplicate()
    }

    pub fn insert(&mut self, pos: BlockPos, entity: BlockEntity)
        ensures
            final(self)@ == old(self)@.insert(pos.at(), entity.data@),
            final(self).records() == old(self).records().push((pos, entity)),
    {
        self.entries.push((pos, entity));
        proof {
            assert(self.entries@.drop_last() =~= old(self).entries@);
        }
    }

    pub fn get(&self, pos: BlockPos) -> (r: Option<BlockEntity>)
        ensures
            r.is_some() == self@.contains_key(pos.at()),
            r.is_some() ==> r.unwrap().data@ == self@[pos.at()],
    {
        let mut i: usize = self.entries.len();
        while i > 0
            invariant
                i <= self.entries.len(),
                forall|j: int| i <= j < self.entries@.len() ==> self.entries@[j].0.at() != pos.at(),
            decreases i,
        {
            let ghost prefix = self.entries@.subrange(0, i as int);
            proof {
                assert(prefix.drop_last() =~= self.entries@.subrange(0, i - 1));
            }
            if self.entries[i - 1].0 == pos {
                proof {
                    lemma_entity_map_suffix_free(self.entries@, i as int, pos.at());
                }
                return Some(self.entries[i - 1].1.duplicate());
            }
            i = i - 1;
        }
        proof {
            lemma_entity_map_suffix_free(self.entries@, 0, pos.at());
        }
        None
    }

    /// An independent map with the same records.
    pub fn duplicate(&self) -> (r: BlockEntityMap)
        ensures
            r@ == self@,
            r.records().len() == self.records().len(),
    {
        let mut out = BlockEntityMap::new();
        let mut i: usize = 0;
        while i < self.entries.len()
            invariant
                i <= self.entries.len(),
                out@ == entity_map(self.entries@.subrange(0, i as int)),
                out.records().len() == i,
            decreases self.entries.len() - i,
        {
            let e = self.entries[i].1.duplicate();
            out.insert(self.entries[i].0, e);
            proof {
                assert(self.entries@.subrange(0, i + 1).drop_last() =~= self.entries@.subrange(
                    0,
                    i as int,
                ));
            }
            i = i + 1;
        }
        proof {
            assert(self.entries@.subrange(0, i as int) =~= self.entries@);
        }
        out
    }
}

/// One rectangular world partition: its cells, its block entities, and the
/// chunks that edits have marked for re-delivery to observers.
pub struct Plot {
    pub x: i32,
    pub z: i32,
    pub blocks: PalettedBitBuffer,
    pub block_entities: BlockEntityMap,
    pub dirty_chunks: Vec<(i32, i32)>,
}

pub open spec fn plot_cells() -> int {
    PLOT_WIDTH as int * PLOT_HEIGHT as int * PLOT_WIDTH as int
}

/// Whether (x, z) lies in the plot with plot coordinates (plot_x, plot_z).
pub open spec fn in_plot_bounds_spec(plot_x: int, plot_z: int, x: int, z: int) -> bool {
    plot_x * PLOT_WIDTH <= x < plot_x * PLOT_WIDTH + PLOT_WIDTH && plot_z * PLOT_WIDTH <= z
        < plot_z * PLOT_WIDTH + PLOT_WIDTH
}

impl Plot {
    pub closed spec fn wf(&self) -> bool {
        &&& self.blocks.wf()
        &&& self.blocks@.len() == plot_cells()
        &&& -PLOT_COORD_LIMIT <= self.x <= PLOT_COORD_LIMIT
        &&& -PLOT_COORD_LIMIT <= self.z <= PLOT_COORD_LIMIT
    }

    pub open spec fn in_bounds(&self, c: Coord) -> bool {
        in_plot_bounds_spec(self.x as int, self.z as int, c.0, c.2) && 0 <= c.1 < PLOT_HEIGHT
    }

    pub open spec fn local_index(&self, c: Coord) -> int {
        (c.1 * PLOT_WIDTH + (c.2 - self.z * PLOT_WIDTH)) * PLOT_WIDTH + (c.0 - self.x
            * PLOT_WIDTH)
    }

    /// The block-state id at a position; every cell outside the plot reads as 0.
    pub closed spec fn cell(&self, c: Coord) -> u32 {
        if self.in_bounds(c) {
            self.blocks@[self.local_index(c)]
        } else {
            0
        }
    }

    pub closed spec fn dirty(&self) -> Seq<(i32, i32)> {
        self.dirty_chunks@
    }

    pub fn new(x: i32, z: i32) -> (r: Plot)
        requires
            -PLOT_COORD_LIMIT <= x <= PLOT_COORD_LIMIT,
            -PLOT_COORD_LIMIT <= z <= PLOT_COORD_LIMIT,
        ensures
            r.wf(),
            r.x == x,
            r.z == z,
            forall|c: Coord| r.cell(c) == 0,
            r.block_entities@ == Map::<Coord, Seq<u8>>::empty(),
            r.dirty().len() == 0,
    {
        let blocks = PalettedBitBuffer::with_entries(PLOT_CELLS);
        Plot { x, z, blocks, block_entities: BlockEntityMap::new(), dirty_chunks: Vec::new() }
    }

    /// Whether the column (x, z) lies in plot (plot_x, plot_z).
    pub fn in_plot_bounds(plot_x: i32, plot_z: i32, x: i32, z: i32) -> (r: bool)
        ensures
            r == in_plot_bounds_spec(plot_x as int, plot_z as int, x as int, z as int),
    {
        assert(PLOT_WIDTH == 128);
        let min_x = plot_x as i64 * 128;
        let min_z = plot_z as i64 * 128;
        min_x <= x as i64 && (x as i64) < min_x + PLOT_WIDTH as i64 && min_z <= z as i64
            && (z as i64) < min_z + PLOT_WIDTH as i64
    }

    fn index_of(&self, pos: BlockPos) -> (r: Option<usize>)
        requires
            self.wf(),
        ensures
            r.is_some() == self.in_bounds(pos.at()),
            r.is_some() ==> r.unwrap() == self.local_index(pos.at()) && r.unwrap()
                < plot_cells(),
    {
        let lx = pos.x as i64 - self.x as i64 * 128;
        let lz = pos.z as i64 - self.z as i64 * 128;
        if lx < 0 || lx >= PLOT_WIDTH as i64 || lz < 0 || lz >= PLOT_WIDTH as i64 || pos.y < 0
            || pos.y >= PLOT_HEIGHT {
            None
        } else {
            Some(((pos.y as i64 * PLOT_WIDTH as i64 + lz) * PLOT_WIDTH as i64 + lx) as usize)
        }
    }

    pub fn get_block_raw(&self, pos: BlockPos) -> (r: u32)
        requires
            self.wf(),
        ensures
            r == self.cell(pos.at()),
    {
        match self.index_of(pos) {
            Some(i) => self.blocks.get_entry(i),
            None => 0,
        }
    }

    /// Writes a cell; reports whether its id changed. Positions outside the
    /// plot are left alone.
    pub fn set_block_raw(&mut self, pos: BlockPos, id: u32) -> (r: bool)
        requires
            old(self).wf(),
        ensures
            final(self).wf(),
            final(self).x == old(self).x,
            final(self).z == old(self).z,
            final(self).block_entities == old(self).block_entities,
            final(self).dirty() == old(self).dirty(),
            forall|c: Coord|
                #![trigger final(self).cell(c)]
                final(self).cell(c) == if c == pos.at() && old(self).in_bounds(c) {
                    id
                } else {
                    old(self).cell(c)
                },
            r == (old(self).in_bounds(pos.at()) && old(self).cell(pos.at()) != id),
    {
        match self.index_of(pos) {
            Some(i) => {
                let prev = self.blocks.get_entry(i);
                self.blocks.set_entry(i, id);
                proof {
                    assert forall|c: Coord| #![trigger self.cell(c)]
                        self.cell(c) == if c == pos.at() && old(self).in_bounds(c) {
                            id
                        } else {
                            old(self).cell(c)
                        } by {
                        if self.in_bounds(c) && c != pos.at() {
                            assert(self.local_index(c) != i);
                        }
                    }
                }
                prev != id
            },
            None => false,
        }
    }

    pub fn get_block_entity(&self, pos: BlockPos) -> (r: Option<BlockEntity>)
        ensures
            r.is_some() == self.block_entities@.contains_key(pos.at()),
            r.is_some() ==> r.unwrap().data@ == self.block_entities@[pos.at()],
    {
        self.block_entities.get(pos)
    }

    pub fn set_block_entity(&mut self, pos: BlockPos, entity: BlockEntity)
        requires
            old(self).wf(),
        ensures
            final(self).wf(),
            final(self).x == old(self).x,
            final(self).z == old(self).z,
            forall|c: Coord| #![auto] final(self).cell(c) == old(self).cell(c),
            final(self).block_entities@ == old(self).block_entities@.insert(
                pos.at(),
                entity.data@,
            ),
            final(self).dirty() == old(self).dirty(),
    {
        self.block_entities.insert(pos, entity);
    }

    /// Marks the chunk column that holds (x, z) for re-delivery.
    pub fn mark_chunk_dirty(&mut self, chunk_x: i32, chunk_z: i32)
        requires
            old(self).wf(),
        ensures
            final(self).wf(),
            final(self).x == old(self).x,
            final(self).z == old(self).z,
            forall|c: Coord| #![auto] final(self).cell(c) == old(self).cell(c),
            final(self).block_entities == old(self).block_entities,
            final(self).dirty() == old(self).dirty().push((chunk_x, chunk_z)),
    {
        self.dirty_chunks.push((chunk_x, chunk_z));
    }

    /// Hands out the chunks marked for re-delivery, in the order they were
    /// marked, and forgets them.
    pub fn take_dirty_chunks(&mut self) -> (r: Vec<(i32, i32)>)
        requires
            old(self).wf(),
        ensures
            final(self).wf(),
            r@ == old(self).dirty(),
            final(self).dirty().len() == 0,
            final(self).x == old(self).x,
            final(self).z == old(self).z,
            forall|c: Coord| #![auto] final(self).cell(c) == old(self).cell(c),
            final(self).block_entities == old(self).block_entities,
    {
        let mut out: Vec<(i32, i32)> = Vec::new();
        std::mem::swap(&mut out, &mut self.dirty_chunks);
        out
    }
}

} // verus!
