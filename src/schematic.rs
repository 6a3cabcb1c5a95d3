//! The schematic importer: palette names, cell data and block entities.

use vstd::prelude::*;
use crate::clipboard::{WorldEditClipboard, MAX_VOLUME};
use crate::cuboid::{in_extent, volume};
use crate::grammar::{CharClass, in_class, lemma_run_end, lemma_run_end_bounds, run_end, scan};
use crate::pattern::{copy_range, has_minecraft_prefix, minecraft_prefix, to_chars};
use crate::pos::{BlockPos, Coord};
use crate::registry::{BlockRegistry, BlockState, first_named, kind_listed, set_property_spec};
use crate::storage::PalettedBitBuffer;
use crate::varint::{lemma_varint_advances, lemma_varint_round_trip, lemma_varint_shift, read_varint, varint_at, varint_from};
use crate::wire::varint_bytes;
use crate::world::{BlockEntity, BlockEntityMap};
use crate::wire::write_bytes;

verus! {

/// The block an unresolved palette name falls back to: the empty block.
pub const EMPTY_BLOCK: u32 = 0;

/// One block-entity record of a schematic: its `Pos` list, its `Id` (the
/// kind of block entity) and its other data, encoded.
pub struct SchematicBlockEntity {
    pub pos: Vec<i32>,
    pub id: String,
    pub data: Vec<u8>,
}

/// The fields of a schematic document, as plain values: `Width`, `Height`
/// and `Length`, the `Palette` (name and file-local id), the stored
/// `WEOffsetX/Y/Z`, the `BlockData` bytes and the `BlockEntities`.
pub struct SchematicData {
    pub width: i16,
    pub height: i16,
    pub length: i16,
    pub palette: Vec<(String, i32)>,
    pub we_offset_x: i32,
    pub we_offset_y: i32,
    pub we_offset_z: i32,
    pub block_data: Vec<u8>,
    pub block_entities: Vec<SchematicBlockEntity>,
}

/// Whether `minecraft:` followed by a name character starts at `p`.
pub open spec fn palette_name_at(s: Seq<char>, p: int) -> bool {
    0 <= p && p + 10 < s.len() && s.subrange(p, p + 10) == minecraft_prefix() && in_class(
        CharClass::LowerName,
        s[p + 10],
    )
}

/// The leftmost place at or after `p` where a palette name starts.
pub open spec fn find_palette_name(s: Seq<char>, p: int) -> Option<int>
    decreases s.len() - p,
{
    if p < 0 || p >= s.len() {
        None
    } else if palette_name_at(s, p) {
        Some(p)
    } else {
        find_palette_name(s, p + 1)
    }
}

/// The span of the `[...]` property list right after a palette name that
/// ends at `e`, if there is one.
pub open spec fn palette_props(s: Seq<char>, e: int) -> Option<(int, int)> {
    if 0 <= e < s.len() && s[e] == '[' {
        let q = run_end(s, e + 1, CharClass::LowerProperty);
        if q > e + 1 && q < s.len() && s[q] == ']' {
            Some((e + 1, q))
        } else {
            None
        }
    } else {
        None
    }
}

/// The pieces of a property list between `,` and `=` separators.
pub open spec fn split_props(s: Seq<char>) -> Seq<Seq<char>>
    decreases s.len(),
{
    let c = run_end(s, 0, CharClass::NotPropertySeparator);
    if c < 0 || c >= s.len() {
        seq![s]
    } else {
        seq![s.subrange(0, c)] + split_props(s.subrange(c + 1, s.len() as int))
    }
}

/// State `cur` with the properties `toks[k] = toks[k + 1]`, ... set in turn.
pub open spec fn apply_pairs(states: Seq<BlockState>, cur: int, toks: Seq<Seq<char>>, k: int) -> int
    decreases toks.len() - k,
{
    if k < 0 || k + 1 >= toks.len() {
        cur
    } else {
        apply_pairs(states, set_property_spec(states, cur, toks[k], toks[k + 1]), toks, k + 2)
    }
}

/// The block-state id a palette name resolves to: the leftmost
/// `minecraft:<name>[<props>]` in it, the name looked up in the registry
/// (the empty block where it is unknown) and each listed property set in
/// turn. `None` where no such name occurs or the properties do not pair up.
pub open spec fn resolve_palette_name(reg: BlockRegistry, s: Seq<char>) -> Option<u32> {
    match find_palette_name(s, 0) {
        None => None,
        Some(p) => {
            let lo = p + 10;
            let hi = run_end(s, lo, CharClass::LowerName);
            let toks = match palette_props(s, hi) {
                Some(span) => split_props(s.subrange(span.0, span.1)),
                None => seq![],
            };
            if toks.len() % 2 == 1 {
                None
            } else {
                match first_named(reg.states@, s.subrange(lo, hi), 0) {
                    None => Some(EMPTY_BLOCK),
                    Some(i) => Some(reg.states@[apply_pairs(reg.states@, i, toks, 0)].id),
                }
            }
        },
    }
}

pub open spec fn char_views(v: Seq<Vec<char>>) -> Seq<Seq<char>> {
    v.map_values(|c: Vec<char>| c@)
}

fn split_props_exec(chars: &Vec<char>) -> (r: Vec<Vec<char>>)
    ensures
        char_views(r@) == split_props(chars@),
{
    let mut out: Vec<Vec<char>> = Vec::new();
    let mut start: usize = 0;
    let ghost all = split_props(chars@);
    proof {
        assert(chars@.subrange(0, chars@.len() as int) =~= chars@);
        assert(all =~= char_views(out@) + split_props(chars@.subrange(0, chars@.len() as int)));
    }
    loop
        invariant_except_break
            all == char_views(out@) + split_props(chars@.subrange(start as int, chars@.len() as int)),
        invariant
            all == split_props(chars@),
            start <= chars@.len(),
        ensures
            all == char_views(out@),
        decreases chars@.len() - start,
    {
        let ghost rest = chars@.subrange(start as int, chars@.len() as int);
        let c = scan(chars, start, CharClass::NotPropertySeparator);
        proof {
            lemma_run_end_bounds(chars@, start as int, CharClass::NotPropertySeparator);
            assert forall|k: int| 0 <= k < c - start implies in_class(CharClass::NotPropertySeparator, #[trigger] rest[k]) by {
                assert(rest[k] == chars@[start + k]);
            }
            if c < chars@.len() {
                assert(rest[c - start] == chars@[c as int]);
            }
            lemma_run_end(rest, 0, c - start, CharClass::NotPropertySeparator);
        }
        let piece = copy_range(chars, start, c);
        let ghost before = char_views(out@);
        out.push(piece);
        proof {
            assert(rest.subrange(0, c - start) =~= chars@.subrange(start as int, c as int));
            assert(char_views(out@) =~= before.push(rest.subrange(0, c - start)));
            if c >= chars@.len() {
                assert(rest.subrange(0, c - start) =~= rest);
                assert(all =~= char_views(out@));
            } else {
                assert(rest.subrange(c - start + 1, rest.len() as int) =~= chars@.subrange(c + 1, chars@.len() as int));
                assert(all =~= char_views(out@) + split_props(chars@.subrange(c + 1, chars@.len() as int)));
            }
        }
        if c >= chars.len() {
            break;
        }
        start = c + 1;
    }
    out
}

fn find_palette_name_exec(chars: &Vec<char>) -> (r: Option<usize>)
    ensures
        match r {
            Some(p) => find_palette_name(chars@, 0) == Some(p as int) && p + 10 < chars@.len(),
            None => find_palette_name(chars@, 0).is_none(),
        },
{
    let mut p: usize = 0;
    while p < chars.len()
        invariant
            p <= chars@.len(),
            find_palette_name(chars@, 0) == find_palette_name(chars@, p as int),
        decreases chars.len() - p,
    {
        if chars.len() - p > 10 && has_minecraft_prefix(chars, p) && (('a' <= chars[p + 10] && chars[p + 10] <= 'z')
            || chars[p + 10] == '_') {
            return Some(p);
        }
        p = p + 1;
    }
    None
}

/// Resolves one palette name, as `resolve_palette_name` states.
pub fn resolve_palette_entry(registry: &BlockRegistry, name: &str) -> (r: Option<u32>)
    ensures
        r == resolve_palette_name(*registry, name@),
{
    let chars = to_chars(name);
    let p = match find_palette_name_exec(&chars) {
        Some(p) => p,
        None => return None,
    };
    let lo = p + 10;
    let hi = scan(&chars, lo, CharClass::LowerName);
    let mut toks: Vec<Vec<char>> = Vec::new();
    if hi < chars.len() && chars[hi] == '[' {
        let q = scan(&chars, hi + 1, CharClass::LowerProperty);
        if q > hi + 1 && q < chars.len() && chars[q] == ']' {
            let content = copy_range(&chars, hi + 1, q);
            toks = split_props_exec(&content);
        }
    }
    proof {
        assert(char_views(Seq::<Vec<char>>::empty()) =~= Seq::<Seq<char>>::empty());
    }
    if toks.len() % 2 == 1 {
        return None;
    }
    let mut cur = match registry.state_named(&chars, lo, hi) {
        Some(i) => i,
        None => return Some(EMPTY_BLOCK),
    };
    let ghost start = cur as int;
    let ghost tv = char_views(toks@);
    let mut k: usize = 0;
    while k < toks.len() && toks.len() - k > 1
        invariant
            k <= toks@.len(),
            tv == char_views(toks@),
            cur < registry.states@.len(),
            apply_pairs(registry.states@, start, tv, 0) == apply_pairs(registry.states@, cur as int, tv, k as int),
        decreases toks.len() - k,
    {
        cur = registry.set_property(cur, &toks[k], &toks[k + 1]);
        k = k + 2;
    }
    Some(registry.states[cur].id)
}

/// The palette as (file-local id, block-state id) pairs; `None` where a name
/// does not resolve.
pub open spec fn resolve_palette(reg: BlockRegistry, pal: Seq<(String, i32)>) -> Option<Seq<(u32, u32)>>
    decreases pal.len(),
{
    if pal.len() == 0 {
        Some(seq![])
    } else {
        match resolve_palette(reg, pal.drop_last()) {
            None => None,
            Some(r) => match resolve_palette_name(reg, pal.last().0@) {
                None => None,
                Some(id) => Some(r.push((pal.last().1 as u32, id))),
            },
        }
    }
}

/// The block-state id the palette gives file-local id `id` (a later entry
/// replaces an earlier one).
pub open spec fn palette_lookup(pal: Seq<(u32, u32)>, id: u32) -> Option<u32>
    decreases pal.len(),
{
    if pal.len() == 0 {
        None
    } else if pal.last().0 == id {
        Some(pal.last().1)
    } else {
        palette_lookup(pal.drop_last(), id)
    }
}

/// The block-state ids of `count` cells whose continuation-encoded
/// file-local ids start at `pos`, each mapped through the palette.
pub open spec fn decode_cells(data: Seq<u8>, pos: int, count: nat, pal: Seq<(u32, u32)>) -> Option<Seq<u32>>
    decreases count,
{
    if count == 0 {
        Some(seq![])
    } else {
        match varint_at(data, pos) {
            None => None,
            Some((raw, next)) => match palette_lookup(pal, raw) {
                None => None,
                Some(id) => match decode_cells(data, next, (count - 1) as nat, pal) {
                    None => None,
                    Some(rest) => Some(seq![id] + rest),
                },
            },
        }
    }
}

/// The block entities of the records that lie inside the extent and whose
/// kind the registry can rebuild, keyed by their `Pos` (a later record
/// replaces an earlier one).
pub open spec fn schematic_entities(recs: Seq<SchematicBlockEntity>, size: Coord, reg: BlockRegistry) -> Map<
    Coord,
    Seq<u8>,
>
    decreases recs.len(),
{
    if recs.len() == 0 {
        Map::empty()
    } else {
        let m = schematic_entities(recs.drop_last(), size, reg);
        let r = recs.last();
        let c = (r.pos@[0] as int, r.pos@[1] as int, r.pos@[2] as int);
        if in_extent(c, size) && kind_listed(reg.block_entity_kinds@, r.id@, 0) {
            m.insert(c, r.data@)
        } else {
            m
        }
    }
}

pub open spec fn schematic_size(doc: SchematicData) -> Coord {
    (doc.width as int, doc.height as int, doc.length as int)
}

/// Whether the document's shape can be decoded: sizes that are not negative
/// (a zero size gives an empty snapshot) within the volume bound, offsets
/// whose negation fits, and positions of three ints.
pub open spec fn schematic_shape_ok(doc: SchematicData) -> bool {
    &&& doc.width >= 0
    &&& doc.height >= 0
    &&& doc.length >= 0
    &&& volume(schematic_size(doc)) <= MAX_VOLUME
    &&& doc.we_offset_x != i32::MIN
    &&& doc.we_offset_y != i32::MIN
    &&& doc.we_offset_z != i32::MIN
    &&& forall|i: int| 0 <= i < doc.block_entities@.len() ==> (#[trigger] doc.block_entities@[i]).pos@.len() >= 3
}

fn palette_lookup_exec(pal: &Vec<(u32, u32)>, id: u32) -> (r: Option<u32>)
    ensures
        r == palette_lookup(pal@, id),
{
    let mut i: usize = pal.len();
    proof {
        assert(pal@.subrange(0, i as int) =~= pal@);
    }
    while i > 0
        invariant
            i <= pal@.len(),
            palette_lookup(pal@, id) == palette_lookup(pal@.subrange(0, i as int), id),
        decreases i,
    {
        proof {
            assert(pal@.subrange(0, i as int).drop_last() =~= pal@.subrange(0, i - 1));
        }
        if pal[i - 1].0 == id {
            return Some(pal[i - 1].1);
        }
        i = i - 1;
    }
    None
}

pub proof fn lemma_schematic_entities_in_extent(recs: Seq<SchematicBlockEntity>, size: Coord, reg: BlockRegistry)
    ensures
        forall|c: Coord| #[trigger] schematic_entities(recs, size, reg).contains_key(c) ==> in_extent(c, size),
    decreases recs.len(),
{
    if recs.len() > 0 {
        lemma_schematic_entities_in_extent(recs.drop_last(), size, reg);
        assert forall|c: Coord| #[trigger] schematic_entities(recs, size, reg).contains_key(c) implies in_extent(c, size) by {
            if !schematic_entities(recs.drop_last(), size, reg).contains_key(c) {
                let r = recs.last();
                assert(c == (r.pos@[0] as int, r.pos@[1] as int, r.pos@[2] as int));
            }
        }
    }
}

pub proof fn lemma_resolve_palette_prefix(reg: BlockRegistry, pal: Seq<(String, i32)>, k: int)
    requires
        0 <= k <= pal.len(),
        resolve_palette(reg, pal.subrange(0, k)).is_none(),
    ensures
        resolve_palette(reg, pal).is_none(),
    decreases pal.len() - k,
{
    if k < pal.len() {
        assert(pal.subrange(0, k + 1).drop_last() =~= pal.subrange(0, k));
        lemma_resolve_palette_prefix(reg, pal, k + 1);
    } else {
        assert(pal.subrange(0, k) =~= pal);
    }
}

/// The continuation encoding of each id in turn.
pub open spec fn encode_ids(ids: Seq<u32>) -> Seq<u8>
    decreases ids.len(),
{
    if ids.len() == 0 {
        seq![]
    } else {
        varint_bytes(ids[0] as nat) + encode_ids(ids.subrange(1, ids.len() as int))
    }
}

pub proof fn lemma_decode_cells_shift(pre: Seq<u8>, d: Seq<u8>, q: int, count: nat, pal: Seq<(u32, u32)>)
    requires
        q >= 0,
    ensures
        decode_cells(pre + d, pre.len() + q, count, pal) == decode_cells(d, q, count, pal),
    decreases count,
{
    if count > 0 {
        lemma_varint_shift(pre, d, q, 0, 0);
        lemma_varint_advances(d, q, 0, 0);
        if let Some((v, next)) = varint_from(d, q, 0, 0) {
            lemma_decode_cells_shift(pre, d, next, (count - 1) as nat, pal);
        }
    }
}

/// Decoding the encodings of some ids, whatever bytes follow, gives each id
/// mapped through the palette, in order, wherever the palette maps them all.
pub proof fn lemma_cells_round_trip(ids: Seq<u32>, rest: Seq<u8>, pal: Seq<(u32, u32)>)
    requires
        forall|k: int| 0 <= k < ids.len() ==> (#[trigger] palette_lookup(pal, ids[k])).is_some(),
    ensures
        decode_cells(encode_ids(ids) + rest, 0, ids.len(), pal) == Some(
            Seq::new(ids.len(), |k: int| palette_lookup(pal, ids[k]).unwrap()),
        ),
    decreases ids.len(),
{
    let want = Seq::new(ids.len(), |k: int| palette_lookup(pal, ids[k]).unwrap());
    if ids.len() == 0 {
        assert(want =~= Seq::<u32>::empty());
    } else {
        let tail = ids.subrange(1, ids.len() as int);
        let head = varint_bytes(ids[0] as nat);
        let after = encode_ids(tail) + rest;
        let data = encode_ids(ids) + rest;
        assert(data =~= head + after);
        lemma_varint_round_trip(ids[0], after);
        assert(forall|k: int| 0 <= k < tail.len() ==> tail[k] == ids[k + 1]);
        assert forall|k: int| 0 <= k < tail.len() implies (#[trigger] palette_lookup(pal, tail[k])).is_some() by {
            assert(tail[k] == ids[k + 1]);
        }
        lemma_cells_round_trip(tail, rest, pal);
        lemma_decode_cells_shift(head, after, 0, (ids.len() - 1) as nat, pal);
        assert(head.len() + 0 == head.len());
        let tail_want = Seq::new(tail.len(), |k: int| palette_lookup(pal, tail[k]).unwrap());
        assert(seq![palette_lookup(pal, ids[0]).unwrap()] + tail_want =~= want);
    }
}

/// A well-shaped document whose `BlockData` encodes one file-local id per cell
/// (y-major, then z, then x), each listed in its palette, decodes to exactly
/// the palette's block for each of those ids, in the same order: what
/// `load_from_schematic` then holds in its clipboard.
pub proof fn lemma_schematic_round_trip(doc: SchematicData, reg: BlockRegistry, ids: Seq<u32>, rest: Seq<u8>)
    requires
        schematic_shape_ok(doc),
        resolve_palette(reg, doc.palette@) is Some,
        ids.len() == volume(schematic_size(doc)),
        doc.block_data@ == encode_ids(ids) + rest,
        forall|k: int|
            0 <= k < ids.len() ==> (#[trigger] palette_lookup(resolve_palette(reg, doc.palette@).unwrap(), ids[k])) is Some,
    ensures
        decode_cells(doc.block_data@, 0, volume(schematic_size(doc)) as nat, resolve_palette(reg, doc.palette@).unwrap())
            == Some(
            Seq::new(ids.len(), |k: int| palette_lookup(resolve_palette(reg, doc.palette@).unwrap(), ids[k]).unwrap()),
        ),
{
    lemma_cells_round_trip(ids, rest, resolve_palette(reg, doc.palette@).unwrap());
}

pub open spec fn prepend_cells(done: Seq<u32>, rest: Option<Seq<u32>>) -> Option<Seq<u32>> {
    match rest {
        None => None,
        Some(r) => Some(done + r),
    }
}

/// Decodes a schematic document into a clipboard: sizes from `Width`,
/// `Height` and `Length`, the offset from the negated `WEOffset` fields, each
/// cell's id from the continuation-encoded `BlockData` (y-major, then z, then
/// x) through the resolved palette, and the block entities that lie inside the
/// extent and whose kind the registry can rebuild. `None` where any part is
/// missing or malformed.
pub fn load_from_schematic(doc: &SchematicData, registry: &BlockRegistry) -> (r: Option<WorldEditClipboard>)
    ensures
        r.is_some() <==> schematic_shape_ok(*doc) && resolve_palette(*registry, doc.palette@).is_some()
            && decode_cells(
            doc.block_data@,
            0,
            volume(schematic_size(*doc)) as nat,
            resolve_palette(*registry, doc.palette@).unwrap(),
        ).is_some(),
        match r {
            Some(cb) => {
                &&& cb.wf()
                &&& cb.size() == schematic_size(*doc)
                &&& cb.offset() == (-doc.we_offset_x, -doc.we_offset_y, -doc.we_offset_z)
                &&& cb.data@ == decode_cells(
                    doc.block_data@,
                    0,
                    volume(schematic_size(*doc)) as nat,
                    resolve_palette(*registry, doc.palette@).unwrap(),
                ).unwrap()
                &&& cb.block_entities@ == schematic_entities(doc.block_entities@, schematic_size(*doc), *registry)
            },
            None => true,
        },
{
    let ghost size = schematic_size(*doc);
    if doc.width < 0 || doc.height < 0 || doc.length < 0 {
        return None;
    }
    let size_x = doc.width as u32;
    let size_y = doc.height as u32;
    let size_z = doc.length as u32;
    proof {
        assert(size_x as int * size_y as int <= 0x4000_0000) by (nonlinear_arith)
            requires size_x <= 0x8000, size_y <= 0x8000;
        assert(size_x as int * size_y as int * size_z as int <= 0x2_0000_0000_0000) by (nonlinear_arith)
            requires size_x as int * size_y as int <= 0x4000_0000, size_z <= 0x8000;
    }
    let cells = size_x as u64 * size_y as u64 * size_z as u64;
    if cells > MAX_VOLUME as u64 {
        return None;
    }
    if doc.we_offset_x == i32::MIN || doc.we_offset_y == i32::MIN || doc.we_offset_z == i32::MIN {
        return None;
    }
    let mut e: usize = 0;
    while e < doc.block_entities.len()
        invariant
            e <= doc.block_entities@.len(),
            forall|i: int| 0 <= i < e ==> (#[trigger] doc.block_entities@[i]).pos@.len() >= 3,
        decreases doc.block_entities.len() - e,
    {
        if doc.block_entities[e].pos.len() < 3 {
            return None;
        }
        e = e + 1;
    }
    let mut palette: Vec<(u32, u32)> = Vec::new();
    let mut p: usize = 0;
    proof {
        assert(doc.palette@.subrange(0, 0) =~= Seq::<(String, i32)>::empty());
    }
    while p < doc.palette.len()
        invariant
            p <= doc.palette@.len(),
            resolve_palette(*registry, doc.palette@.subrange(0, p as int)) == Some(palette@),
        decreases doc.palette.len() - p,
    {
        proof {
            assert(doc.palette@.subrange(0, p + 1).drop_last() =~= doc.palette@.subrange(0, p as int));
        }
        match resolve_palette_entry(registry, doc.palette[p].0.as_str()) {
            None => {
                proof {
                    lemma_resolve_palette_prefix(*registry, doc.palette@, p + 1);
                }
                return None;
            },
            Some(id) => {
                palette.push((doc.palette[p].1 as u32, id));
            },
        }
        p = p + 1;
    }
    proof {
        assert(doc.palette@.subrange(0, p as int) =~= doc.palette@);
    }
    let n = cells as usize;
    assert(schematic_shape_ok(*doc));
    let mut data = PalettedBitBuffer::with_entries(n);
    let mut pos: usize = 0;
    let mut i: usize = 0;
    proof {
        assert(data@.subrange(0, 0) + Seq::<u32>::empty() =~= Seq::<u32>::empty());
        assert(prepend_cells(data@.subrange(0, 0), decode_cells(doc.block_data@, 0, n as nat, palette@))
            =~= decode_cells(doc.block_data@, 0, n as nat, palette@));
    }
    while i < n
        invariant
            i <= n,
            n as int == volume(size),
            size == schematic_size(*doc),
            schematic_shape_ok(*doc),
            resolve_palette(*registry, doc.palette@) == Some(palette@),
            data.wf(),
            data@.len() == n,
            decode_cells(doc.block_data@, 0, n as nat, palette@) == prepend_cells(
                data@.subrange(0, i as int),
                decode_cells(doc.block_data@, pos as int, (n - i) as nat, palette@),
            ),
        decreases n - i,
    {
        let (raw, next) = match read_varint(&doc.block_data, pos) {
            Some(found) => found,
            None => return None,
        };
        let id = match palette_lookup_exec(&palette, raw) {
            Some(id) => id,
            None => return None,
        };
        let ghost before = data@;
        data.set_entry(i, id);
        proof {
            assert(data@.subrange(0, i + 1) =~= before.subrange(0, i as int).push(id));
            let tail = decode_cells(doc.block_data@, next as int, (n - i - 1) as nat, palette@);
            if let Some(t) = tail {
                assert(before.subrange(0, i as int) + (seq![id] + t) =~= data@.subrange(0, i + 1) + t);
            }
        }
        pos = next;
        i = i + 1;
    }
    proof {
        assert(data@.subrange(0, n as int) + Seq::<u32>::empty() =~= data@);
    }
    let mut block_entities = BlockEntityMap::new();
    let mut j: usize = 0;
    while j < doc.block_entities.len()
        invariant
            j <= doc.block_entities@.len(),
            size == (size_x as int, size_y as int, size_z as int),
            forall|i: int| 0 <= i < doc.block_entities@.len() ==> (#[trigger] doc.block_entities@[i]).pos@.len() >= 3,
            block_entities@ == schematic_entities(doc.block_entities@.subrange(0, j as int), size, *registry),
        decreases doc.block_entities.len() - j,
    {
        let record = &doc.block_entities[j];
        assert(record.pos@.len() >= 3);
        let x = record.pos[0];
        let y = record.pos[1];
        let z = record.pos[2];
        proof {
            assert(doc.block_entities@.subrange(0, j + 1).drop_last() =~= doc.block_entities@.subrange(0, j as int));
        }
        if 0 <= x && (x as i64) < size_x as i64 && 0 <= y && (y as i64) < size_y as i64 && 0 <= z && (z as i64)
            < size_z as i64 && registry.knows_block_entity(&record.id) {
            let mut bytes: Vec<u8> = Vec::new();
            write_bytes(&mut bytes, &record.data);
            block_entities.insert(BlockPos::new(x, y, z), BlockEntity { data: bytes });
        }
        j = j + 1;
    }
    proof {
        assert(doc.block_entities@.subrange(0, j as int) =~= doc.block_entities@);
        lemma_schematic_entities_in_extent(doc.block_entities@, size, *registry);
    }
    Some(
        WorldEditClipboard {
            offset_x: -doc.we_offset_x,
            offset_y: -doc.we_offset_y,
            offset_z: -doc.we_offset_z,
            size_x,
            size_y,
            size_z,
            data,
            block_entities,
        },
    )
}

} // verus!
