//! Client-bound packets and their exact payloads.

use vstd::prelude::*;
use crate::wire::{
    be_bytes, bool_byte, string_bytes, utf8, varint_bytes, position_value, write_bool,
    write_byte, write_bytes, write_int, write_long, write_position, write_short, write_string,
    write_unsigned_byte, write_uuid, write_varint, write_varint_u64,
};

verus! {

/// An encoded packet: its id and its payload bytes.
pub struct PacketEncoder {
    pub data: Vec<u8>,
    pub packet_id: u32,
}

impl PacketEncoder {
    pub fn new(data: Vec<u8>, packet_id: u32) -> (r: PacketEncoder)
        ensures
            r.data@ == data@,
            r.packet_id == packet_id,
    {
        PacketEncoder { data, packet_id }
    }
}

/// The bytes of a string field.
pub open spec fn str_field(s: String) -> Seq<u8> {
    string_bytes(utf8(s@))
}

pub open spec fn str_fits(s: String) -> bool {
    utf8(s@).len() <= i32::MAX
}

pub open spec fn uuid_bytes(v: u128) -> Seq<u8> {
    be_bytes((v / 0x1_0000_0000_0000_0000) as nat, 8) + be_bytes((v % 0x1_0000_0000_0000_0000) as nat, 8)
}

pub open spec fn varint_i32(v: i32) -> Seq<u8> {
    varint_bytes(v as u32 as nat)
}

pub open spec fn int_bytes(v: i32) -> Seq<u8> {
    be_bytes(v as u32 as nat, 4)
}

pub open spec fn long_bytes(v: i64) -> Seq<u8> {
    be_bytes(v as u64 as nat, 8)
}

pub open spec fn short_bytes(v: i16) -> Seq<u8> {
    be_bytes(v as u16 as nat, 2)
}

pub open spec fn byte_bytes(v: i8) -> Seq<u8> {
    be_bytes(v as u8 as nat, 1)
}

pub open spec fn ubyte_bytes(v: u8) -> Seq<u8> {
    be_bytes(v as nat, 1)
}

/// A packet sent from the server to a client.
pub trait ClientBoundPacket: Sized {
    /// The packet's id.
    spec fn id_spec(&self) -> u32;

    /// Whether every length the packet writes fits its field.
    spec fn encodable(&self) -> bool;

    /// The packet's payload bytes.
    spec fn payload(&self) -> Seq<u8>;

    fn encode(self) -> (r: PacketEncoder)
        requires
            self.encodable(),
        ensures
            r.packet_id == self.id_spec(),
            r.data@ == self.payload(),
    ;
}

pub struct C00Response {
    pub json_response: String,
}

impl ClientBoundPacket for C00Response {
    open spec fn id_spec(&self) -> u32 {
        0x00
    }

    open spec fn encodable(&self) -> bool {
        str_fits(self.json_response)
    }

    open spec fn payload(&self) -> Seq<u8> {
        str_field(self.json_response)
    }

    fn encode(self) -> (r: PacketEncoder) {
        let mut buf: Vec<u8> = Vec::new();
        write_string(&mut buf, self.json_response.as_str());
        proof {
            assert(buf@ =~= self.payload());
        }
        PacketEncoder::new(buf, 0x00)
    }
}

pub struct C00DisconnectLogin {
    pub reason: String,
}

impl ClientBoundPacket for C00DisconnectLogin {
    open spec fn id_spec(&self) -> u32 {
        0x00
    }

    open spec fn encodable(&self) -> bool {
        str_fits(self.reason)
    }

    open spec fn payload(&self) -> Seq<u8> {
        str_field(self.reason)
    }

    fn encode(self) -> (r: PacketEncoder) {
        let mut buf: Vec<u8> = Vec::new();
        write_string(&mut buf, self.reason.as_str());
        proof {
            assert(buf@ =~= self.payload());
        }
        PacketEncoder::new(buf, 0x00)
    }
}

pub struct C01Pong {
    pub payload: i64,
}

impl ClientBoundPacket for C01Pong {
    open spec fn id_spec(&self) -> u32 {
        0x01
    }

    open spec fn encodable(&self) -> bool {
        true
    }

    open spec fn payload(&self) -> Seq<u8> {
        long_bytes(self.payload)
    }

    fn encode(self) -> (r: PacketEncoder) {
        let mut buf: Vec<u8> = Vec::new();
        write_long(&mut buf, self.payload);
        proof {
            assert(buf@ =~= ClientBoundPacket::payload(&self));
        }
        PacketEncoder::new(buf, 0x01)
    }
}

pub struct C02LoginSuccess {
    pub uuid: u128,
    pub username: String,
}

impl ClientBoundPacket for C02LoginSuccess {
    open spec fn id_spec(&self) -> u32 {
        0x02
    }

    open spec fn encodable(&self) -> bool {
        str_fits(self.username)
    }

    open spec fn payload(&self) -> Seq<u8> {
        uuid_bytes(self.uuid) + str_field(self.username)
    }

    fn encode(self) -> (r: PacketEncoder) {
        let mut buf: Vec<u8> = Vec::new();
        write_uuid(&mut buf, self.uuid);
        write_string(&mut buf, self.username.as_str());
        proof {
            assert(buf@ =~= self.payload());
        }
        PacketEncoder::new(buf, 0x02)
    }
}

pub struct C03SetCompression {
    pub threshold: i32,
}

impl ClientBoundPacket for C03SetCompression {
    open spec fn id_spec(&self) -> u32 {
        0x03
    }

    open spec fn encodable(&self) -> bool {
        true
    }

    open spec fn payload(&self) -> Seq<u8> {
        varint_i32(self.threshold)
    }

    fn encode(self) -> (r: PacketEncoder) {
        let mut buf: Vec<u8> = Vec::new();
        write_varint(&mut buf, self.threshold);
        proof {
            assert(buf@ =~= self.payload());
        }
        PacketEncoder::new(buf, 0x03)
    }
}

pub struct C05EntityAnimation {
    pub entity_id: i32,
    pub animation: u8,
}

impl ClientBoundPacket for C05EntityAnimation {
    open spec fn id_spec(&self) -> u32 {
        0x05
    }

    open spec fn encodable(&self) -> bool {
        true
    }

    open spec fn payload(&self) -> Seq<u8> {
        varint_i32(self.entity_id) + ubyte_bytes(self.animation)
    }

    fn encode(self) -> (r: PacketEncoder) {
        let mut buf: Vec<u8> = Vec::new();
        write_varint(&mut buf, self.entity_id);
        write_unsigned_byte(&mut buf, self.animation);
        proof {
            assert(buf@ =~= self.payload());
        }
        PacketEncoder::new(buf, 0x05)
    }
}

pub struct C0BBlockChange {
    pub x: i32,
    pub y: i32,
    pub z: i32,
    pub block_id: i32,
}

impl ClientBoundPacket for C0BBlockChange {
    open spec fn id_spec(&self) -> u32 {
        0x0B
    }

    open spec fn encodable(&self) -> bool {
        true
    }

    open spec fn payload(&self) -> Seq<u8> {
        be_bytes(position_value(self.x, self.y, self.z) as nat, 8) + varint_i32(self.block_id)
    }

    fn encode(self) -> (r: PacketEncoder) {
        let mut buf: Vec<u8> = Vec::new();
        write_position(&mut buf, self.x, self.y, self.z);
        write_varint(&mut buf, self.block_id);
        proof {
            assert(buf@ =~= self.payload());
        }
        PacketEncoder::new(buf, 0x0B)
    }
}

pub struct C0EChatMessage {
    pub message: String,
    pub position: i8,
    pub sender: u128,
}

impl ClientBoundPacket for C0EChatMessage {
    open spec fn id_spec(&self) -> u32 {
        0x0E
    }

    open spec fn encodable(&self) -> bool {
        str_fits(self.message)
    }

    open spec fn payload(&self) -> Seq<u8> {
        str_field(self.message) + byte_bytes(self.position) + uuid_bytes(self.sender)
    }

    fn encode(self) -> (r: PacketEncoder) {
        let mut buf: Vec<u8> = Vec::new();
        write_string(&mut buf, self.message.as_str());
        write_byte(&mut buf, self.position);
        write_uuid(&mut buf, self.sender);
        proof {
            assert(buf@ =~= self.payload());
        }
        PacketEncoder::new(buf, 0x0E)
    }
}

pub struct C17PluginMessage {
    pub channel: String,
    pub data: Vec<u8>,
}

impl ClientBoundPacket for C17PluginMessage {
    open spec fn id_spec(&self) -> u32 {
        0x17
    }

    open spec fn encodable(&self) -> bool {
        str_fits(self.channel)
    }

    open spec fn payload(&self) -> Seq<u8> {
        str_field(self.channel) + self.data@
    }

    fn encode(self) -> (r: PacketEncoder) {
        let mut buf: Vec<u8> = Vec::new();
        write_string(&mut buf, self.channel.as_str());
        write_bytes(&mut buf, &self.data);
        proof {
            assert(buf@ =~= ClientBoundPacket::payload(&self));
        }
        PacketEncoder::new(buf, 0x17)
    }
}

pub struct C19Disconnect {
    pub reason: String,
}

impl ClientBoundPacket for C19Disconnect {
    open spec fn id_spec(&self) -> u32 {
        0x19
    }

    open spec fn encodable(&self) -> bool {
        str_fits(self.reason)
    }

    open spec fn payload(&self) -> Seq<u8> {
        str_field(self.reason)
    }

    fn encode(self) -> (r: PacketEncoder) {
        let mut buf: Vec<u8> = Vec::new();
        write_string(&mut buf, self.reason.as_str());
        proof {
            assert(buf@ =~= ClientBoundPacket::payload(&self));
        }
        PacketEncoder::new(buf, 0x19)
    }
}

pub struct C1CUnloadChunk {
    pub chunk_x: i32,
    pub chunk_z: i32,
}

impl ClientBoundPacket for C1CUnloadChunk {
    open spec fn id_spec(&self) -> u32 {
        0x1C
    }

    open spec fn encodable(&self) -> bool {
        true
    }

    open spec fn payload(&self) -> Seq<u8> {
        int_bytes(self.chunk_x) + int_bytes(self.chunk_z)
    }

    fn encode(self) -> (r: PacketEncoder) {
        let mut buf: Vec<u8> = Vec::new();
        write_int(&mut buf, self.chunk_x);
        write_int(&mut buf, self.chunk_z);
        proof {
            assert(buf@ =~= ClientBoundPacket::payload(&self));
        }
        PacketEncoder::new(buf, 0x1C)
    }
}

pub struct C1FKeepAlive {
    pub id: i64,
}

impl ClientBoundPacket for C1FKeepAlive {
    open spec fn id_spec(&self) -> u32 {
        0x1F
    }

    open spec fn encodable(&self) -> bool {
        true
    }

    open spec fn payload(&self) -> Seq<u8> {
        long_bytes(self.id)
    }

    fn encode(self) -> (r: PacketEncoder) {
        let mut buf: Vec<u8> = Vec::new();
        write_long(&mut buf, self.id);
        proof {
            assert(buf@ =~= ClientBoundPacket::payload(&self));
        }
        PacketEncoder::new(buf, 0x1F)
    }
}

pub struct C21Effect {
    pub effect_id: i32,
    pub x: i32,
    pub y: i32,
    pub z: i32,
    pub data: i32,
    pub disable_relative_volume: bool,
}

impl ClientBoundPacket for C21Effect {
    open spec fn id_spec(&self) -> u32 {
        0x21
    }

    open spec fn encodable(&self) -> bool {
        true
    }

    open spec fn payload(&self) -> Seq<u8> {
        int_bytes(self.effect_id) + be_bytes(position_value(self.x, self.y, self.z) as nat, 8) + int_bytes(self.data) + bool_byte(self.disable_relative_volume)
    }

    fn encode(self) -> (r: PacketEncoder) {
        let mut buf: Vec<u8> = Vec::new();
        write_int(&mut buf, self.effect_id);
        write_position(&mut buf, self.x, self.y, self.z);
        write_int(&mut buf, self.data);
        write_bool(&mut buf, self.disable_relative_volume);
        proof {
            assert(buf@ =~= ClientBoundPacket::payload(&self));
        }
        PacketEncoder::new(buf, 0x21)
    }
}

pub struct C2EOpenSignEditor {
    pub pos_x: i32,
    pub pos_y: i32,
    pub pos_z: i32,
}

impl ClientBoundPacket for C2EOpenSignEditor {
    open spec fn id_spec(&self) -> u32 {
        0x2E
    }

    open spec fn encodable(&self) -> bool {
        true
    }

    open spec fn payload(&self) -> Seq<u8> {
        be_bytes(position_value(self.pos_x, self.pos_y, self.pos_z) as nat, 8)
    }

    fn encode(self) -> (r: PacketEncoder) {
        let mut buf: Vec<u8> = Vec::new();
        write_position(&mut buf, self.pos_x, self.pos_y, self.pos_z);
        proof {
            assert(buf@ =~= ClientBoundPacket::payload(&self));
        }
        PacketEncoder::new(buf, 0x2E)
    }
}

pub struct C27EntityPosition {
    pub entity_id: i32,
    pub delta_x: i16,
    pub delta_y: i16,
    pub delta_z: i16,
    pub on_ground: bool,
}

impl ClientBoundPacket for C27EntityPosition {
    open spec fn id_spec(&self) -> u32 {
        0x27
    }

    open spec fn encodable(&self) -> bool {
        true
    }

    open spec fn payload(&self) -> Seq<u8> {
        varint_i32(self.entity_id) + short_bytes(self.delta_x) + short_bytes(self.delta_y) + short_bytes(self.delta_z) + bool_byte(self.on_ground)
    }

    fn encode(self) -> (r: PacketEncoder) {
        let mut buf: Vec<u8> = Vec::new();
        write_varint(&mut buf, self.entity_id);
        write_short(&mut buf, self.delta_x);
        write_short(&mut buf, self.delta_y);
        write_short(&mut buf, self.delta_z);
        write_bool(&mut buf, self.on_ground);
        proof {
            assert(buf@ =~= ClientBoundPacket::payload(&self));
        }
        PacketEncoder::new(buf, 0x27)
    }
}

pub struct C2AEntityMovement {
    pub entity_id: i32,
}

impl ClientBoundPacket for C2AEntityMovement {
    open spec fn id_spec(&self) -> u32 {
        0x2A
    }

    open spec fn encodable(&self) -> bool {
        true
    }

    open spec fn payload(&self) -> Seq<u8> {
        varint_i32(self.entity_id)
    }

    fn encode(self) -> (r: PacketEncoder) {
        let mut buf: Vec<u8> = Vec::new();
        write_varint(&mut buf, self.entity_id);
        proof {
            assert(buf@ =~= ClientBoundPacket::payload(&self));
        }
        PacketEncoder::new(buf, 0x2A)
    }
}

pub struct C3FHeldItemChange {
    pub slot: i8,
}

impl ClientBoundPacket for C3FHeldItemChange {
    open spec fn id_spec(&self) -> u32 {
        0x3F
    }

    open spec fn encodable(&self) -> bool {
        true
    }

    open spec fn payload(&self) -> Seq<u8> {
        byte_bytes(self.slot)
    }

    fn encode(self) -> (r: PacketEncoder) {
        let mut buf: Vec<u8> = Vec::new();
        write_byte(&mut buf, self.slot);
        proof {
            assert(buf@ =~= ClientBoundPacket::payload(&self));
        }
        PacketEncoder::new(buf, 0x3F)
    }
}

pub struct C40UpdateViewPosition {
    pub chunk_x: i32,
    pub chunk_z: i32,
}

impl ClientBoundPacket for C40UpdateViewPosition {
    open spec fn id_spec(&self) -> u32 {
        0x40
    }

    open spec fn encodable(&self) -> bool {
        true
    }

    open spec fn payload(&self) -> Seq<u8> {
        varint_i32(self.chunk_x) + varint_i32(self.chunk_z)
    }

    fn encode(self) -> (r: PacketEncoder) {
        let mut buf: Vec<u8> = Vec::new();
        write_varint(&mut buf, self.chunk_x);
        write_varint(&mut buf, self.chunk_z);
        proof {
            assert(buf@ =~= ClientBoundPacket::payload(&self));
        }
        PacketEncoder::new(buf, 0x40)
    }
}

pub struct C4ETimeUpdate {
    pub world_age: i64,
    pub time_of_day: i64,
}

impl ClientBoundPacket for C4ETimeUpdate {
    open spec fn id_spec(&self) -> u32 {
        0x4E
    }

    open spec fn encodable(&self) -> bool {
        true
    }

    open spec fn payload(&self) -> Seq<u8> {
        long_bytes(self.world_age) + long_bytes(self.time_of_day)
    }

    fn encode(self) -> (r: PacketEncoder) {
        let mut buf: Vec<u8> = Vec::new();
        write_long(&mut buf, self.world_age);
        write_long(&mut buf, self.time_of_day);
        proof {
            assert(buf@ =~= ClientBoundPacket::payload(&self));
        }
        PacketEncoder::new(buf, 0x4E)
    }
}

/// An item stack as a slot holds it; `nbt` is its encoded tag, if any.
pub struct SlotData {
    pub item_id: i32,
    pub item_count: i8,
    pub nbt: Option<Vec<u8>>,
}

/// The bytes of one slot: present flag, then item id, count and tag (a lone
/// end tag where it has none).
pub open spec fn slot_bytes(slot: Option<SlotData>) -> Seq<u8> {
    match slot {
        None => bool_byte(false),
        Some(item) => bool_byte(true) + varint_i32(item.item_id) + byte_bytes(item.item_count) + match item.nbt {
            Some(tag) => tag@,
            None => seq![0u8],
        },
    }
}

fn write_slot(buf: &mut Vec<u8>, slot: &Option<SlotData>)
    ensures
        final(buf)@ == old(buf)@ + slot_bytes(*slot),
{
    match slot {
        None => {
            write_bool(buf, false);
        },
        Some(item) => {
            write_bool(buf, true);
            write_varint(buf, item.item_id);
            write_byte(buf, item.item_count);
            match &item.nbt {
                Some(tag) => write_bytes(buf, tag),
                None => write_byte(buf, 0),
            }
        },
    }
    proof {
        reveal_with_fuel(be_bytes, 2);
        assert(final(buf)@ =~= old(buf)@ + slot_bytes(*slot));
    }
}

pub open spec fn slots_bytes(s: Seq<Option<SlotData>>) -> Seq<u8>
    decreases s.len(),
{
    if s.len() == 0 {
        seq![]
    } else {
        slots_bytes(s.drop_last()) + slot_bytes(s.last())
    }
}

pub struct C13WindowItems {
    pub window_id: u8,
    pub slot_data: Vec<Option<SlotData>>,
}

impl ClientBoundPacket for C13WindowItems {
    open spec fn id_spec(&self) -> u32 {
        0x13
    }

    open spec fn encodable(&self) -> bool {
        self.slot_data@.len() <= i16::MAX
    }

    open spec fn payload(&self) -> Seq<u8> {
        ubyte_bytes(self.window_id) + short_bytes(self.slot_data@.len() as i16) + slots_bytes(self.slot_data@)
    }

    fn encode(self) -> (r: PacketEncoder) {
        let mut buf: Vec<u8> = Vec::new();
        write_unsigned_byte(&mut buf, self.window_id);
        write_short(&mut buf, self.slot_data.len() as i16);
        let ghost head = buf@;
        let mut i: usize = 0;
        while i < self.slot_data.len()
            invariant
                i <= self.slot_data@.len(),
                buf@ == head + slots_bytes(self.slot_data@.subrange(0, i as int)),
            decreases self.slot_data.len() - i,
        {
            write_slot(&mut buf, &self.slot_data[i]);
            proof {
                assert(self.slot_data@.subrange(0, i + 1).drop_last() =~= self.slot_data@.subrange(0, i as int));
                assert(buf@ =~= head + slots_bytes(self.slot_data@.subrange(0, i + 1)));
            }
            i = i + 1;
        }
        proof {
            assert(self.slot_data@.subrange(0, i as int) =~= self.slot_data@);
            assert(buf@ =~= ClientBoundPacket::payload(&self));
        }
        PacketEncoder::new(buf, 0x13)
    }
}

pub open spec fn varints_bytes(s: Seq<i32>) -> Seq<u8>
    decreases s.len(),
{
    if s.len() == 0 {
        seq![]
    } else {
        varints_bytes(s.drop_last()) + varint_i32(s.last())
    }
}

pub struct C36DestroyEntities {
    pub entity_ids: Vec<i32>,
}

impl ClientBoundPacket for C36DestroyEntities {
    open spec fn id_spec(&self) -> u32 {
        0x36
    }

    open spec fn encodable(&self) -> bool {
        self.entity_ids@.len() <= i32::MAX
    }

    open spec fn payload(&self) -> Seq<u8> {
        varint_i32(self.entity_ids@.len() as i32) + varints_bytes(self.entity_ids@)
    }

    fn encode(self) -> (r: PacketEncoder) {
        let mut buf: Vec<u8> = Vec::new();
        write_varint(&mut buf, self.entity_ids.len() as i32);
        let ghost head = buf@;
        let mut i: usize = 0;
        while i < self.entity_ids.len()
            invariant
                i <= self.entity_ids@.len(),
                buf@ == head + varints_bytes(self.entity_ids@.subrange(0, i as int)),
            decreases self.entity_ids.len() - i,
        {
            write_varint(&mut buf, self.entity_ids[i]);
            proof {
                assert(self.entity_ids@.subrange(0, i + 1).drop_last() =~= self.entity_ids@.subrange(0, i as int));
                assert(buf@ =~= head + varints_bytes(self.entity_ids@.subrange(0, i + 1)));
            }
            i = i + 1;
        }
        proof {
            assert(self.entity_ids@.subrange(0, i as int) =~= self.entity_ids@);
            assert(buf@ =~= ClientBoundPacket::payload(&self));
        }
        PacketEncoder::new(buf, 0x36)
    }
}

/// One cell change inside a chunk section.
#[derive(Clone, Copy, Debug, PartialEq, Eq, Structural)]
pub struct C3BMultiBlockChangeRecord {
    pub x: u8,
    pub y: u8,
    pub z: u8,
    pub block_id: u32,
}

/// A record packed into one long: block id, then x, z and y.
pub open spec fn record_value(r: C3BMultiBlockChangeRecord) -> u64 {
    ((r.block_id as u64) << 12u64) | ((r.x as u64) << 8u64) | ((r.z as u64) << 4u64) | (r.y as u64)
}

pub open spec fn records_bytes(s: Seq<C3BMultiBlockChangeRecord>) -> Seq<u8>
    decreases s.len(),
{
    if s.len() == 0 {
        seq![]
    } else {
        records_bytes(s.drop_last()) + varint_bytes(record_value(s.last()) as nat)
    }
}

/// A chunk section's coordinates packed into one long.
pub open spec fn section_value(chunk_x: i32, chunk_z: i32, chunk_y: u32) -> i64 {
    (((chunk_x as i64) & 0x3FFFFF) << 42i64) | (((chunk_z as i64) & 0x3FFFFF) << 20i64) | ((
    chunk_y as i64) & 0xFFFFF)
}

pub struct C3BMultiBlockChange {
    pub chunk_x: i32,
    pub chunk_z: i32,
    pub chunk_y: u32,
    pub records: Vec<C3BMultiBlockChangeRecord>,
}

impl ClientBoundPacket for C3BMultiBlockChange {
    open spec fn id_spec(&self) -> u32 {
        0x3B
    }

    open spec fn encodable(&self) -> bool {
        self.records@.len() <= i32::MAX
    }

    open spec fn payload(&self) -> Seq<u8> {
        long_bytes(section_value(self.chunk_x, self.chunk_z, self.chunk_y)) + bool_byte(true) + varint_i32(
            self.records@.len() as i32,
        ) + records_bytes(self.records@)
    }

    fn encode(self) -> (r: PacketEncoder) {
        let mut buf: Vec<u8> = Vec::new();
        let pos = (((self.chunk_x as i64) & 0x3FFFFF) << 42i64) | (((self.chunk_z as i64) & 0x3FFFFF)
            << 20i64) | ((self.chunk_y as i64) & 0xFFFFF);
        write_long(&mut buf, pos);
        write_bool(&mut buf, true);
        write_varint(&mut buf, self.records.len() as i32);
        let ghost head = buf@;
        let mut i: usize = 0;
        while i < self.records.len()
            invariant
                i <= self.records@.len(),
                buf@ == head + records_bytes(self.records@.subrange(0, i as int)),
            decreases self.records.len() - i,
        {
            let record = self.records[i];
            let long = ((record.block_id as u64) << 12u64) | ((record.x as u64) << 8u64) | ((
            record.z as u64) << 4u64) | (record.y as u64);
            write_varint_u64(&mut buf, long);
            proof {
                assert(self.records@.subrange(0, i + 1).drop_last() =~= self.records@.subrange(0, i as int));
                assert(buf@ =~= head + records_bytes(self.records@.subrange(0, i + 1)));
            }
            i = i + 1;
        }
        proof {
            assert(self.records@.subrange(0, i as int) =~= self.records@);
            assert(buf@ =~= ClientBoundPacket::payload(&self));
        }
        PacketEncoder::new(buf, 0x3B)
    }
}

/// One entity metadata entry: index, type and the already-encoded value.
pub struct C44EntityMetadataEntry {
    pub index: u8,
    pub metadata_type: i32,
    pub value: Vec<u8>,
}

pub open spec fn metadata_bytes(s: Seq<C44EntityMetadataEntry>) -> Seq<u8>
    decreases s.len(),
{
    if s.len() == 0 {
        seq![]
    } else {
        metadata_bytes(s.drop_last()) + ubyte_bytes(s.last().index) + varint_i32(s.last().metadata_type)
            + s.last().value@
    }
}

pub struct C44EntityMetadata {
    pub entity_id: i32,
    pub metadata: Vec<C44EntityMetadataEntry>,
}

impl ClientBoundPacket for C44EntityMetadata {
    open spec fn id_spec(&self) -> u32 {
        0x44
    }

    open spec fn encodable(&self) -> bool {
        true
    }

    open spec fn payload(&self) -> Seq<u8> {
        varint_i32(self.entity_id) + metadata_bytes(self.metadata@) + byte_bytes(-1i8)
    }

    fn encode(self) -> (r: PacketEncoder) {
        let mut buf: Vec<u8> = Vec::new();
        write_varint(&mut buf, self.entity_id);
        let ghost head = buf@;
        let mut i: usize = 0;
        while i < self.metadata.len()
            invariant
                i <= self.metadata@.len(),
                buf@ == head + metadata_bytes(self.metadata@.subrange(0, i as int)),
            decreases self.metadata.len() - i,
        {
            let entry = &self.metadata[i];
            write_unsigned_byte(&mut buf, entry.index);
            write_varint(&mut buf, entry.metadata_type);
            write_bytes(&mut buf, &entry.value);
            proof {
                assert(self.metadata@.subrange(0, i + 1).drop_last() =~= self.metadata@.subrange(0, i as int));
                assert(buf@ =~= head + metadata_bytes(self.metadata@.subrange(0, i + 1)));
            }
            i = i + 1;
        }
        write_byte(&mut buf, -1);
        proof {
            assert(self.metadata@.subrange(0, i as int) =~= self.metadata@);
            assert(buf@ =~= ClientBoundPacket::payload(&self));
        }
        PacketEncoder::new(buf, 0x44)
    }
}

/// One equipment slot and the item in it.
pub struct C47EntityEquipmentEquipment {
    pub slot: i32,
    pub item: Option<SlotData>,
}

pub open spec fn equipment_bytes(s: Seq<C47EntityEquipmentEquipment>) -> Seq<u8>
    decreases s.len(),
{
    if s.len() == 0 {
        seq![]
    } else {
        equipment_bytes(s.drop_last()) + varint_i32(s.last().slot) + slot_bytes(s.last().item)
    }
}

pub struct C47EntityEquipment {
    pub entity_id: i32,
    pub equipment: Vec<C47EntityEquipmentEquipment>,
}

impl ClientBoundPacket for C47EntityEquipment {
    open spec fn id_spec(&self) -> u32 {
        0x47
    }

    open spec fn encodable(&self) -> bool {
        true
    }

    open spec fn payload(&self) -> Seq<u8> {
        varint_i32(self.entity_id) + equipment_bytes(self.equipment@)
    }

    fn encode(self) -> (r: PacketEncoder) {
        let mut buf: Vec<u8> = Vec::new();
        write_varint(&mut buf, self.entity_id);
        let ghost head = buf@;
        let mut i: usize = 0;
        while i < self.equipment.len()
            invariant
                i <= self.equipment@.len(),
                buf@ == head + equipment_bytes(self.equipment@.subrange(0, i as int)),
            decreases self.equipment.len() - i,
        {
            write_varint(&mut buf, self.equipment[i].slot);
            write_slot(&mut buf, &self.equipment[i].item);
            proof {
                assert(self.equipment@.subrange(0, i + 1).drop_last() =~= self.equipment@.subrange(0, i as int));
                assert(buf@ =~= head + equipment_bytes(self.equipment@.subrange(0, i + 1)));
            }
            i = i + 1;
        }
        proof {
            assert(self.equipment@.subrange(0, i as int) =~= self.equipment@);
            assert(buf@ =~= ClientBoundPacket::payload(&self));
        }
        PacketEncoder::new(buf, 0x47)
    }
}

/// Why a game-state change is sent.
#[derive(Clone, Copy, Debug, PartialEq, Eq, Structural)]
pub enum C1DChangeGameStateReason {
    ChangeGamemode,
}

/// One section of a chunk column: its block count, palette and packed cells.
pub struct C20ChunkDataSection {
    pub block_count: i16,
    pub bits_per_block: u8,
    pub palette: Option<Vec<i32>>,
    pub data_array: Vec<u64>,
}

/// A player's game mode.
#[derive(Clone, Copy, Debug, PartialEq, Eq, Structural)]
pub enum Gamemode {
    Survival,
    Creative,
    Adventure,
    Spectator,
}

pub open spec fn gamemode_id(g: Gamemode) -> u32 {
    match g {
        Gamemode::Survival => 0,
        Gamemode::Creative => 1,
        Gamemode::Adventure => 2,
        Gamemode::Spectator => 3,
    }
}

impl Gamemode {
    pub fn get_id(&self) -> (r: u32)
        ensures
            r == gamemode_id(*self),
    {
        match self {
            Gamemode::Survival => 0,
            Gamemode::Creative => 1,
            Gamemode::Adventure => 2,
            Gamemode::Spectator => 3,
        }
    }
}

/// A property of a listed player's profile (a skin texture, say).
pub struct C32PlayerInfoAddPlayerProperty {
    pub name: String,
    pub value: String,
    pub signature: Option<String>,
}

/// A player added to the player list.
pub struct C32PlayerInfoAddPlayer {
    pub uuid: u128,
    pub name: String,
    pub properties: Vec<C32PlayerInfoAddPlayerProperty>,
    pub gamemode: i32,
    pub ping: i32,
    pub display_name: Option<String>,
}

/// A change to the player list.
pub enum C32PlayerInfo {
    AddPlayer(Vec<C32PlayerInfoAddPlayer>),
    RemovePlayer(Vec<u128>),
    UpdateGamemode(u128, Gamemode),
}

pub open spec fn opt_str_fits(s: Option<String>) -> bool {
    match s {
        Some(v) => str_fits(v),
        None => true,
    }
}

/// An optional string: a present flag, then the string if there is one.
pub open spec fn opt_str_bytes(s: Option<String>) -> Seq<u8> {
    match s {
        Some(v) => bool_byte(true) + str_field(v),
        None => bool_byte(false),
    }
}

pub open spec fn property_fits(p: C32PlayerInfoAddPlayerProperty) -> bool {
    str_fits(p.name) && str_fits(p.value) && opt_str_fits(p.signature)
}

pub open spec fn properties_bytes(s: Seq<C32PlayerInfoAddPlayerProperty>) -> Seq<u8>
    decreases s.len(),
{
    if s.len() == 0 {
        seq![]
    } else {
        properties_bytes(s.drop_last()) + str_field(s.last().name) + str_field(s.last().value)
            + opt_str_bytes(s.last().signature)
    }
}

pub open spec fn player_fits(p: C32PlayerInfoAddPlayer) -> bool {
    &&& str_fits(p.name)
    &&& opt_str_fits(p.display_name)
    &&& p.properties@.len() <= i32::MAX
    &&& forall|i: int| 0 <= i < p.properties@.len() ==> property_fits(#[trigger] p.properties@[i])
}

pub open spec fn player_bytes(p: C32PlayerInfoAddPlayer) -> Seq<u8> {
    uuid_bytes(p.uuid) + str_field(p.name) + varint_i32(p.properties@.len() as i32) + properties_bytes(
        p.properties@,
    ) + varint_i32(p.gamemode) + varint_i32(p.ping) + opt_str_bytes(p.display_name)
}

pub open spec fn players_bytes(s: Seq<C32PlayerInfoAddPlayer>) -> Seq<u8>
    decreases s.len(),
{
    if s.len() == 0 {
        seq![]
    } else {
        players_bytes(s.drop_last()) + player_bytes(s.last())
    }
}

pub open spec fn uuids_bytes(s: Seq<u128>) -> Seq<u8>
    decreases s.len(),
{
    if s.len() == 0 {
        seq![]
    } else {
        uuids_bytes(s.drop_last()) + uuid_bytes(s.last())
    }
}

fn write_opt_string(buf: &mut Vec<u8>, s: &Option<String>)
    requires
        opt_str_fits(*s),
    ensures
        final(buf)@ == old(buf)@ + opt_str_bytes(*s),
{
    match s {
        Some(v) => {
            write_bool(buf, true);
            write_string(buf, v.as_str());
        },
        None => {
            write_bool(buf, false);
        },
    }
    proof {
        assert(final(buf)@ =~= old(buf)@ + opt_str_bytes(*s));
    }
}

fn write_player(buf: &mut Vec<u8>, p: &C32PlayerInfoAddPlayer)
    requires
        player_fits(*p),
    ensures
        final(buf)@ == old(buf)@ + player_bytes(*p),
{
    write_uuid(buf, p.uuid);
    write_string(buf, p.name.as_str());
    write_varint(buf, p.properties.len() as i32);
    let ghost head = buf@;
    let mut i: usize = 0;
    while i < p.properties.len()
        invariant
            player_fits(*p),
            i <= p.properties@.len(),
            buf@ == head + properties_bytes(p.properties@.subrange(0, i as int)),
        decreases p.properties.len() - i,
    {
        let prop = &p.properties[i];
        assert(property_fits(p.properties@[i as int]));
        write_string(buf, prop.name.as_str());
        write_string(buf, prop.value.as_str());
        write_opt_string(buf, &prop.signature);
        proof {
            assert(p.properties@.subrange(0, i + 1).drop_last() =~= p.properties@.subrange(0, i as int));
            assert(buf@ =~= head + properties_bytes(p.properties@.subrange(0, i + 1)));
        }
        i = i + 1;
    }
    write_varint(buf, p.gamemode);
    write_varint(buf, p.ping);
    write_opt_string(buf, &p.display_name);
    proof {
        assert(p.properties@.subrange(0, i as int) =~= p.properties@);
        assert(final(buf)@ =~= old(buf)@ + player_bytes(*p));
    }
}

impl ClientBoundPacket for C32PlayerInfo {
    open spec fn id_spec(&self) -> u32 {
        0x32
    }

    open spec fn encodable(&self) -> bool {
        match self {
            C32PlayerInfo::AddPlayer(ps) => ps@.len() <= i32::MAX && forall|i: int|
                0 <= i < ps@.len() ==> player_fits(#[trigger] ps@[i]),
            C32PlayerInfo::RemovePlayer(uuids) => uuids@.len() <= i32::MAX,
            C32PlayerInfo::UpdateGamemode(_, _) => true,
        }
    }

    open spec fn payload(&self) -> Seq<u8> {
        match self {
            C32PlayerInfo::AddPlayer(ps) => varint_i32(0) + varint_i32(ps@.len() as i32) + players_bytes(ps@),
            C32PlayerInfo::UpdateGamemode(uuid, gamemode) => varint_i32(1) + varint_i32(1) + uuid_bytes(*uuid)
                + varint_i32(gamemode_id(*gamemode) as i32),
            C32PlayerInfo::RemovePlayer(uuids) => varint_i32(4) + varint_i32(uuids@.len() as i32) + uuids_bytes(
                uuids@,
            ),
        }
    }

    fn encode(self) -> (r: PacketEncoder) {
        let mut buf: Vec<u8> = Vec::new();
        match &self {
            C32PlayerInfo::AddPlayer(ps) => {
                write_varint(&mut buf, 0);
                write_varint(&mut buf, ps.len() as i32);
                let ghost head = buf@;
                let mut i: usize = 0;
                while i < ps.len()
                    invariant
                        ps@.len() <= i32::MAX,
                        forall|k: int| 0 <= k < ps@.len() ==> player_fits(#[trigger] ps@[k]),
                        i <= ps@.len(),
                        buf@ == head + players_bytes(ps@.subrange(0, i as int)),
                    decreases ps.len() - i,
                {
                    write_player(&mut buf, &ps[i]);
                    proof {
                        assert(ps@.subrange(0, i + 1).drop_last() =~= ps@.subrange(0, i as int));
                        assert(buf@ =~= head + players_bytes(ps@.subrange(0, i + 1)));
                    }
                    i = i + 1;
                }
                proof {
                    assert(ps@.subrange(0, i as int) =~= ps@);
                }
            },
            C32PlayerInfo::UpdateGamemode(uuid, gamemode) => {
                write_varint(&mut buf, 1);
                write_varint(&mut buf, 1);
                write_uuid(&mut buf, *uuid);
                write_varint(&mut buf, gamemode.get_id() as i32);
            },
            C32PlayerInfo::RemovePlayer(uuids) => {
                write_varint(&mut buf, 4);
                write_varint(&mut buf, uuids.len() as i32);
                let ghost head = buf@;
                let mut i: usize = 0;
                while i < uuids.len()
                    invariant
                        i <= uuids@.len(),
                        buf@ == head + uuids_bytes(uuids@.subrange(0, i as int)),
                    decreases uuids.len() - i,
                {
                    write_uuid(&mut buf, uuids[i]);
                    proof {
                        assert(uuids@.subrange(0, i + 1).drop_last() =~= uuids@.subrange(0, i as int));
                        assert(buf@ =~= head + uuids_bytes(uuids@.subrange(0, i + 1)));
                    }
                    i = i + 1;
                }
                proof {
                    assert(uuids@.subrange(0, i as int) =~= uuids@);
                }
            },
        }
        proof {
            assert(buf@ =~= ClientBoundPacket::payload(&self));
        }
        PacketEncoder::new(buf, 0x32)
    }
}

} // verus!
