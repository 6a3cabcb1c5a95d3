//! The region operation tracker: per-chunk mutation counts and re-delivery.

use vstd::prelude::*;
use crate::pos::{BlockPos, Coord, chunk_coord, chunk_of, coord_max, coord_min};
use crate::world::Plot;

verus! {

/// Mutations counted in one chunk column.
pub struct ChunkChangedRecord {
    pub chunk_x: i32,
    pub chunk_z: i32,
    pub block_count: u64,
}

/// The sum of the records' counts.
pub open spec fn total_count(s: Seq<ChunkChangedRecord>) -> int
    decreases s.len(),
{
    if s.len() == 0 {
        0
    } else {
        total_count(s.drop_last()) + s.last().block_count
    }
}

/// Whether some record is for chunk column (cx, cz).
pub open spec fn tracks(s: Seq<ChunkChangedRecord>, cx: int, cz: int) -> bool {
    exists|i: int| 0 <= i < s.len() && s[i].chunk_x == cx && s[i].chunk_z == cz
}

/// Whether no chunk column has two records.
pub open spec fn records_unique(s: Seq<ChunkChangedRecord>) -> bool {
    forall|i: int, j: int|
        0 <= i < j < s.len() ==> !(#[trigger] s[i].chunk_x == #[trigger] s[j].chunk_x && s[i].chunk_z
            == s[j].chunk_z)
}

/// The chunk columns of the records, in order.
pub open spec fn record_chunks(s: Seq<ChunkChangedRecord>) -> Seq<(i32, i32)> {
    Seq::new(s.len(), |i: int| (s[i].chunk_x, s[i].chunk_z))
}

/// Whether the records name exactly the chunk columns that the footprint of
/// the cuboid from `lo` to `hi` touches.
pub open spec fn covers_footprint(s: Seq<ChunkChangedRecord>, lo: Coord, hi: Coord) -> bool {
    &&& forall|i: int|
        0 <= i < s.len() ==> chunk_of(lo.0) <= #[trigger] s[i].chunk_x <= chunk_of(hi.0)
            && chunk_of(lo.2) <= s[i].chunk_z <= chunk_of(hi.2)
    &&& forall|cx: int, cz: int|
        chunk_of(lo.0) <= cx <= chunk_of(hi.0) && chunk_of(lo.2) <= cz <= chunk_of(hi.2)
            ==> #[trigger] tracks(s, cx, cz)
}

pub proof fn lemma_total_prefix(s: Seq<ChunkChangedRecord>, i: int)
    requires
        0 <= i < s.len(),
    ensures
        total_count(s.subrange(0, i + 1)) == total_count(s.subrange(0, i)) + s[i].block_count,
        total_count(s.subrange(0, i + 1)) <= total_count(s),
    decreases s.len(),
{
    assert(s.subrange(0, i + 1).drop_last() =~= s.subrange(0, i));
    if i + 1 < s.len() {
        lemma_total_prefix(s.drop_last(), i);
        assert(s.drop_last().subrange(0, i + 1) =~= s.subrange(0, i + 1));
        assert(s.drop_last().subrange(0, i) =~= s.subrange(0, i));
    } else {
        assert(s.subrange(0, i + 1) =~= s);
    }
}

pub proof fn lemma_total_nonneg(s: Seq<ChunkChangedRecord>)
    ensures
        total_count(s) >= 0,
    decreases s.len(),
{
    if s.len() > 0 {
        lemma_total_nonneg(s.drop_last());
    }
}

pub proof fn lemma_total_update(s: Seq<ChunkChangedRecord>, j: int, r: ChunkChangedRecord)
    requires
        0 <= j < s.len(),
    ensures
        total_count(s.update(j, r)) == total_count(s) - s[j].block_count + r.block_count,
    decreases s.len(),
{
    if j + 1 < s.len() {
        lemma_total_update(s.drop_last(), j, r);
        assert(s.update(j, r).drop_last() =~= s.drop_last().update(j, r));
    } else {
        assert(s.update(j, r).drop_last() =~= s.drop_last());
    }
}

/// Tracks one region-bounded edit: the cuboid it spans and a mutation count
/// for each chunk column that the cuboid's footprint touches.
pub struct WorldEditOperation {
    pub records: Vec<ChunkChangedRecord>,
    pub start: BlockPos,
    pub end: BlockPos,
}

impl WorldEditOperation {
    pub open spec fn wf(&self) -> bool {
        &&& covers_footprint(self.records@, self.start.at(), self.end.at())
        &&& records_unique(self.records@)
        &&& self.start.x <= self.end.x
        &&& self.start.y <= self.end.y
        &&& self.start.z <= self.end.z
    }

    pub fn new(first_pos: BlockPos, second_pos: BlockPos) -> (r: WorldEditOperation)
        ensures
            r.wf(),
            r.start.x == coord_min(first_pos.x as int, second_pos.x as int),
            r.start.y == coord_min(first_pos.y as int, second_pos.y as int),
            r.start.z == coord_min(first_pos.z as int, second_pos.z as int),
            r.end.x == coord_max(first_pos.x as int, second_pos.x as int),
            r.end.y == coord_max(first_pos.y as int, second_pos.y as int),
            r.end.z == coord_max(first_pos.z as int, second_pos.z as int),
            total_count(r.records@) == 0,
            forall|i: int| 0 <= i < r.records@.len() ==> (#[trigger] r.records@[i]).block_count == 0,
    {
        let start = first_pos.min(second_pos);
        let end = first_pos.max(second_pos);
        let cx_lo = chunk_coord(start.x);
        let cx_hi = chunk_coord(end.x);
        let cz_lo = chunk_coord(start.z);
        let cz_hi = chunk_coord(end.z);
        proof {
            vstd::arithmetic::div_mod::lemma_div_is_ordered(start.x as int, end.x as int, 16);
            vstd::arithmetic::div_mod::lemma_div_is_ordered(start.z as int, end.z as int, 16);
        }
        let mut records: Vec<ChunkChangedRecord> = Vec::new();
        let mut cx: i32 = cx_lo;
        while cx <= cx_hi
            invariant
                cx_lo <= cx <= cx_hi + 1,
                cx_hi < 134217728,
                cz_lo <= cz_hi,
                cx_lo == chunk_of(start.x as int),
                cx_hi == chunk_of(end.x as int),
                cz_lo == chunk_of(start.z as int),
                cz_hi == chunk_of(end.z as int),
                total_count(records@) == 0,
                records_unique(records@),
                forall|i: int| 0 <= i < records@.len() ==> (#[trigger] records@[i]).block_count == 0,
                forall|i: int|
                    0 <= i < records@.len() ==> cx_lo <= #[trigger] records@[i].chunk_x < cx
                        && cz_lo <= records@[i].chunk_z <= cz_hi,
                forall|a: int, b: int|
                    cx_lo <= a < cx && cz_lo <= b <= cz_hi ==> #[trigger] tracks(records@, a, b),
            decreases cx_hi + 1 - cx,
        {
            let mut cz: i32 = cz_lo;
            while cz <= cz_hi
                invariant
                    cx_lo <= cx <= cx_hi,
                    cz_lo <= cz <= cz_hi + 1,
                    cx_hi < 134217728,
                    cz_hi < 134217728,
                    total_count(records@) == 0,
                    records_unique(records@),
                    forall|i: int| 0 <= i < records@.len() ==> (#[trigger] records@[i]).block_count == 0,
                    forall|i: int|
                        0 <= i < records@.len() ==> cx_lo <= #[trigger] records@[i].chunk_x <= cx
                            && cz_lo <= records@[i].chunk_z <= cz_hi,
                    forall|i: int|
                        0 <= i < records@.len() ==> (#[trigger] records@[i]).chunk_x < cx || records@[i].chunk_z < cz,
                    forall|a: int, b: int|
                        cx_lo <= a < cx && cz_lo <= b <= cz_hi ==> #[trigger] tracks(records@, a, b),
                    forall|b: int| cz_lo <= b < cz ==> #[trigger] tracks(records@, cx as int, b),
                decreases cz_hi + 1 - cz,
            {
                let ghost before = records@;
                records.push(ChunkChangedRecord { chunk_x: cx, chunk_z: cz, block_count: 0 });
                proof {
                    assert(records@.drop_last() =~= before);
                    assert(total_count(records@) == total_count(before) + 0);
                    assert forall|i: int, j: int|
                        0 <= i < j < records@.len() implies !(#[trigger] records@[i].chunk_x == #[trigger] records@[j].chunk_x
                            && records@[i].chunk_z == records@[j].chunk_z) by {
                        if j < before.len() {
                            assert(records@[i] == before[i] && records@[j] == before[j]);
                        } else {
                            assert(records@[i] == before[i]);
                        }
                    }
                    assert forall|a: int, b: int| tracks(before, a, b) implies #[trigger] tracks(records@, a, b) by {
                        let i = choose|i: int| 0 <= i < before.len() && before[i].chunk_x == a && before[i].chunk_z == b;
                        assert(records@[i] == before[i]);
                    }
                    assert(records@[records@.len() - 1].chunk_x == cx);
                    assert(tracks(records@, cx as int, cz as int));
                }
                cz = cz + 1;
            }
            cx = cx + 1;
        }
        WorldEditOperation { records, start, end }
    }

    /// Counts one mutation at `block_pos`, if its chunk column is tracked.
    pub fn update_block(&mut self, block_pos: BlockPos)
        requires
            total_count(old(self).records@) < u64::MAX,
        ensures
            final(self).start == old(self).start,
            final(self).end == old(self).end,
            record_chunks(final(self).records@) == record_chunks(old(self).records@),
            old(self).wf() ==> final(self).wf(),
            !tracks(old(self).records@, chunk_of(block_pos.x as int), chunk_of(block_pos.z as int))
                ==> final(self).records@ == old(self).records@,
            tracks(old(self).records@, chunk_of(block_pos.x as int), chunk_of(block_pos.z as int)) ==> exists|j: int|
                0 <= j < old(self).records@.len() && old(self).records@[j].chunk_x == chunk_of(block_pos.x as int)
                    && old(self).records@[j].chunk_z == chunk_of(block_pos.z as int) && #[trigger] final(self).records@
                    == old(self).records@.update(
                    j,
                    ChunkChangedRecord {
                        chunk_x: old(self).records@[j].chunk_x,
                        chunk_z: old(self).records@[j].chunk_z,
                        block_count: (old(self).records@[j].block_count + 1) as u64,
                    },
                ),
            total_count(final(self).records@) == total_count(old(self).records@) + if tracks(
                old(self).records@,
                chunk_of(block_pos.x as int),
                chunk_of(block_pos.z as int),
            ) {
                1int
            } else {
                0int
            },
    {
        let chunk_x = chunk_coord(block_pos.x);
        let chunk_z = chunk_coord(block_pos.z);
        let mut i: usize = 0;
        while i < self.records.len()
            invariant
                self.records@ == old(self).records@,
                self.start == old(self).start,
                self.end == old(self).end,
                total_count(old(self).records@) < u64::MAX,
                chunk_x as int == chunk_of(block_pos.x as int),
                chunk_z as int == chunk_of(block_pos.z as int),
                i <= self.records@.len(),
                forall|j: int|
                    0 <= j < i ==> !(#[trigger] self.records@[j].chunk_x == chunk_x
                        && self.records@[j].chunk_z == chunk_z),
            decreases self.records.len() - i,
        {
            if self.records[i].chunk_x == chunk_x && self.records[i].chunk_z == chunk_z {
                proof {
                    lemma_total_prefix(self.records@, i as int);
                    lemma_total_nonneg(self.records@.subrange(0, i as int));
                }
                let count = self.records[i].block_count;
                assert(count < u64::MAX);
                let ghost before = self.records@;
                self.records.set(i, ChunkChangedRecord { chunk_x, chunk_z, block_count: count + 1 });
                proof {
                    lemma_total_update(before, i as int, self.records@[i as int]);
                    assert(before[i as int].chunk_x == chunk_x && before[i as int].chunk_z == chunk_z);
                    assert(tracks(before, chunk_x as int, chunk_z as int));
                    assert(record_chunks(self.records@) =~= record_chunks(before));
                    assert forall|a: int, b: int| tracks(before, a, b) == tracks(self.records@, a, b) by {
                        if tracks(before, a, b) {
                            let j = choose|j: int| 0 <= j < before.len() && before[j].chunk_x == a && before[j].chunk_z == b;
                            assert(self.records@[j].chunk_x == a);
                        }
                        if tracks(self.records@, a, b) {
                            let j = choose|j: int| 0 <= j < self.records@.len() && self.records@[j].chunk_x == a && self.records@[j].chunk_z == b;
                            assert(before[j].chunk_x == a);
                        }
                    }
                    assert forall|j: int| 0 <= j < before.len() implies #[trigger] self.records@[j].chunk_x
                        == before[j].chunk_x && self.records@[j].chunk_z == before[j].chunk_z by {}
                    let lo = self.start.at();
                    let hi = self.end.at();
                    if covers_footprint(before, lo, hi) {
                        assert forall|j: int| 0 <= j < self.records@.len() implies chunk_of(lo.0) <= #[trigger] self.records@[j].chunk_x <= chunk_of(hi.0)
                            && chunk_of(lo.2) <= self.records@[j].chunk_z <= chunk_of(hi.2) by {
                            assert(before[j].chunk_x == self.records@[j].chunk_x);
                        }
                        assert forall|a: int, b: int| chunk_of(lo.0) <= a <= chunk_of(hi.0) && chunk_of(lo.2) <= b <= chunk_of(hi.2)
                            implies #[trigger] tracks(self.records@, a, b) by {
                            assert(tracks(before, a, b));
                        }
                    }
                    if covers_footprint(self.records@, lo, hi) {
                        assert forall|a: int, b: int| chunk_of(lo.0) <= a <= chunk_of(hi.0) && chunk_of(lo.2) <= b <= chunk_of(hi.2)
                            implies #[trigger] tracks(before, a, b) by {
                            assert(tracks(self.records@, a, b));
                        }
                        assert forall|j: int| 0 <= j < before.len() implies chunk_of(lo.0) <= #[trigger] before[j].chunk_x <= chunk_of(hi.0)
                            && chunk_of(lo.2) <= before[j].chunk_z <= chunk_of(hi.2) by {
                            assert(before[j].chunk_x == self.records@[j].chunk_x);
                        }
                    }
                }
                return;
            }
            i = i + 1;
        }
        proof {
            if tracks(self.records@, chunk_x as int, chunk_z as int) {
                let j = choose|j: int| 0 <= j < self.records@.len() && self.records@[j].chunk_x == chunk_x && self.records@[j].chunk_z == chunk_z;
                assert(!(self.records@[j].chunk_x == chunk_x && self.records@[j].chunk_z == chunk_z));
            }
        }
    }

    /// The number of mutations counted over all tracked chunks.
    pub fn blocks_updated(&self) -> (r: u64)
        requires
            total_count(self.records@) <= u64::MAX,
        ensures
            r == total_count(self.records@),
    {
        let mut sum: u64 = 0;
        let mut i: usize = 0;
        while i < self.records.len()
            invariant
                i <= self.records@.len(),
                sum == total_count(self.records@.subrange(0, i as int)),
                total_count(self.records@) <= u64::MAX,
            decreases self.records.len() - i,
        {
            proof {
                lemma_total_prefix(self.records@, i as int);
            }
            sum = sum + self.records[i].block_count;
            i = i + 1;
        }
        proof {
            assert(self.records@.subrange(0, i as int) =~= self.records@);
        }
        sum
    }

    /// The inclusive x extent of the cuboid.
    pub fn x_range(&self) -> (r: (i32, i32))
        ensures
            r == (self.start.x, self.end.x),
    {
        (self.start.x, self.end.x)
    }

    /// The inclusive y extent of the cuboid.
    pub fn y_range(&self) -> (r: (i32, i32))
        ensures
            r == (self.start.y, self.end.y),
    {
        (self.start.y, self.end.y)
    }

    /// The inclusive z extent of the cuboid.
    pub fn z_range(&self) -> (r: (i32, i32))
        ensures
            r == (self.start.z, self.end.z),
    {
        (self.start.z, self.end.z)
    }
}

/// Whether `s` names exactly the chunk columns that the footprint of the cuboid
/// from `lo` to `hi` touches (each at least once).
pub open spec fn footprint_chunks(s: Seq<(i32, i32)>, lo: Coord, hi: Coord) -> bool {
    &&& forall|i: int|
        0 <= i < s.len() ==> chunk_of(lo.0) <= (#[trigger] s[i]).0 <= chunk_of(hi.0) && chunk_of(lo.2)
            <= s[i].1 <= chunk_of(hi.2)
    &&& forall|cx: i32, cz: i32|
        chunk_of(lo.0) <= cx <= chunk_of(hi.0) && chunk_of(lo.2) <= cz <= chunk_of(hi.2)
            ==> #[trigger] s.contains((cx, cz))
}

/// Whether `after` is `before` followed by the chunk columns of the footprint
/// of the cuboid from `lo` to `hi`.
pub open spec fn marks_footprint(before: Seq<(i32, i32)>, after: Seq<(i32, i32)>, lo: Coord, hi: Coord) -> bool {
    &&& after.len() >= before.len()
    &&& after.subrange(0, before.len() as int) == before
    &&& footprint_chunks(after.subrange(before.len() as int, after.len() as int), lo, hi)
}

/// Whether `s` names every chunk column of the footprint of the cuboid from
/// `lo` to `hi`.
pub open spec fn dirty_covers(s: Seq<(i32, i32)>, lo: Coord, hi: Coord) -> bool {
    forall|cx: i32, cz: i32|
        chunk_of(lo.0) <= cx <= chunk_of(hi.0) && chunk_of(lo.2) <= cz <= chunk_of(hi.2)
            ==> #[trigger] s.contains((cx, cz))
}

/// Appending chunk columns keeps every footprint covered, and covers the
/// footprint the appended ones name.
pub proof fn lemma_covers_append(s: Seq<(i32, i32)>, t: Seq<(i32, i32)>, lo: Coord, hi: Coord, lo2: Coord, hi2: Coord)
    requires
        footprint_chunks(t, lo2, hi2),
    ensures
        dirty_covers(s, lo, hi) ==> dirty_covers(s + t, lo, hi),
        dirty_covers(s + t, lo2, hi2),
{
    if dirty_covers(s, lo, hi) {
        assert forall|cx: i32, cz: i32|
            chunk_of(lo.0) <= cx <= chunk_of(hi.0) && chunk_of(lo.2) <= cz <= chunk_of(hi.2)
            implies #[trigger] (s + t).contains((cx, cz)) by {
            assert(s.contains((cx, cz)));
            let i = choose|i: int| 0 <= i < s.len() && s[i] == (cx, cz);
            assert((s + t)[i] == (cx, cz));
        }
    }
    assert forall|cx: i32, cz: i32|
        chunk_of(lo2.0) <= cx <= chunk_of(hi2.0) && chunk_of(lo2.2) <= cz <= chunk_of(hi2.2)
        implies #[trigger] (s + t).contains((cx, cz)) by {
        assert(t.contains((cx, cz)));
        let i = choose|i: int| 0 <= i < t.len() && t[i] == (cx, cz);
        assert((s + t)[s.len() + i] == (cx, cz));
    }
}

/// Sending an operation that covers a footprint marks that footprint.
pub proof fn lemma_send_marks(before: Seq<(i32, i32)>, s: Seq<ChunkChangedRecord>, lo: Coord, hi: Coord)
    requires
        covers_footprint(s, lo, hi),
    ensures
        marks_footprint(before, before + record_chunks(s), lo, hi),
{
    lemma_record_chunks(s, lo, hi);
    let after = before + record_chunks(s);
    assert(after.subrange(0, before.len() as int) =~= before);
    assert(after.subrange(before.len() as int, after.len() as int) =~= record_chunks(s));
}

pub proof fn lemma_record_chunks(s: Seq<ChunkChangedRecord>, lo: Coord, hi: Coord)
    requires
        covers_footprint(s, lo, hi),
    ensures
        footprint_chunks(record_chunks(s), lo, hi),
{
    let r = record_chunks(s);
    assert forall|i: int| 0 <= i < r.len() implies chunk_of(lo.0) <= (#[trigger] r[i]).0 <= chunk_of(hi.0)
        && chunk_of(lo.2) <= r[i].1 <= chunk_of(hi.2) by {
        assert(s[i].chunk_x == r[i].0);
    }
    assert forall|cx: i32, cz: i32|
        chunk_of(lo.0) <= cx <= chunk_of(hi.0) && chunk_of(lo.2) <= cz <= chunk_of(hi.2)
        implies #[trigger] r.contains((cx, cz)) by {
        assert(tracks(s, cx as int, cz as int));
        let i = choose|i: int| 0 <= i < s.len() && s[i].chunk_x == cx && s[i].chunk_z == cz;
        assert(r[i] == (cx, cz));
    }
}

/// Marks for re-delivery every chunk column that the footprint of the cuboid
/// from `lo` to `hi` touches.
pub fn mark_region(plot: &mut Plot, lo: BlockPos, hi: BlockPos)
    requires
        old(plot).wf(),
        lo.x <= hi.x,
        lo.z <= hi.z,
    ensures
        final(plot).wf(),
        final(plot).x == old(plot).x,
        final(plot).z == old(plot).z,
        forall|c: Coord| #![auto] final(plot).cell(c) == old(plot).cell(c),
        final(plot).block_entities == old(plot).block_entities,
        final(plot).dirty().len() >= old(plot).dirty().len(),
        final(plot).dirty().subrange(0, old(plot).dirty().len() as int) == old(plot).dirty(),
        footprint_chunks(
            final(plot).dirty().subrange(old(plot).dirty().len() as int, final(plot).dirty().len() as int),
            lo.at(),
            hi.at(),
        ),
{
    let operation = WorldEditOperation::new(lo, hi);
    worldedit_send_operation(plot, &operation);
    proof {
        lemma_record_chunks(operation.records@, lo.at(), hi.at());
        let n = old(plot).dirty().len() as int;
        assert(plot.dirty().subrange(0, n) =~= old(plot).dirty());
        assert(plot.dirty().subrange(n, plot.dirty().len() as int) =~= record_chunks(operation.records@));
    }
}

/// Marks every chunk column the operation tracks for re-delivery, whatever its
/// count.
pub fn worldedit_send_operation(plot: &mut Plot, operation: &WorldEditOperation)
    requires
        old(plot).wf(),
    ensures
        final(plot).wf(),
        final(plot).x == old(plot).x,
        final(plot).z == old(plot).z,
        forall|c: Coord| #![auto] final(plot).cell(c) == old(plot).cell(c),
        final(plot).block_entities == old(plot).block_entities,
        final(plot).dirty() == old(plot).dirty() + record_chunks(operation.records@),
{
    let mut i: usize = 0;
    while i < operation.records.len()
        invariant
            plot.wf(),
            plot.x == old(plot).x,
            plot.z == old(plot).z,
            forall|c: Coord| #![auto] plot.cell(c) == old(plot).cell(c),
            plot.block_entities == old(plot).block_entities,
            i <= operation.records@.len(),
            plot.dirty() == old(plot).dirty() + record_chunks(operation.records@).subrange(0, i as int),
        decreases operation.records.len() - i,
    {
        plot.mark_chunk_dirty(operation.records[i].chunk_x, operation.records[i].chunk_z);
        i = i + 1;
        proof {
            assert(plot.dirty() =~= old(plot).dirty() + record_chunks(operation.records@).subrange(0, i as int));
        }
    }
    proof {
        assert(record_chunks(operation.records@).subrange(0, i as int) =~= record_chunks(operation.records@));
    }
}

} // verus!
