use worldedit::packets::{
    C00Response, C01Pong, C03SetCompression, C0BBlockChange, C13WindowItems, C1CUnloadChunk,
    C32PlayerInfo, C36DestroyEntities, C3BMultiBlockChange, C3BMultiBlockChangeRecord, C44EntityMetadata,
    C44EntityMetadataEntry, ClientBoundPacket, Gamemode, SlotData,
};

#[test]
fn pong_is_a_big_endian_long() {
    let p = C01Pong { payload: 0x0102030405060708 }.encode();
    assert_eq!(p.packet_id, 0x01);
    assert_eq!(p.data, vec![1, 2, 3, 4, 5, 6, 7, 8]);
}

#[test]
fn compression_threshold_is_a_varint() {
    let p = C03SetCompression { threshold: 256 }.encode();
    assert_eq!(p.packet_id, 0x03);
    assert_eq!(p.data, vec![0x80, 0x02]);
}

#[test]
fn response_is_a_prefixed_string() {
    let p = C00Response { json_response: "{}".to_string() }.encode();
    assert_eq!(p.data, vec![2, b'{', b'}']);
}

#[test]
fn unload_chunk_ints() {
    let p = C1CUnloadChunk { chunk_x: -1, chunk_z: 2 }.encode();
    assert_eq!(p.packet_id, 0x1C);
    assert_eq!(p.data, vec![0xFF, 0xFF, 0xFF, 0xFF, 0, 0, 0, 2]);
}

#[test]
fn block_change_packs_position() {
    let p = C0BBlockChange { x: 1, y: 2, z: 3, block_id: 5 }.encode();
    let long: u64 = (1u64 << 38) | (3u64 << 12) | 2;
    let mut want = long.to_be_bytes().to_vec();
    want.push(5);
    assert_eq!(p.data, want);
}

#[test]
fn window_items_slots() {
    let p = C13WindowItems {
        window_id: 0,
        slot_data: vec![None, Some(SlotData { item_id: 1, item_count: 64, nbt: None })],
    }
    .encode();
    assert_eq!(p.data, vec![0, 0, 2, 0, 1, 1, 64, 0]);
}

#[test]
fn destroy_entities_list() {
    let p = C36DestroyEntities { entity_ids: vec![1, 300] }.encode();
    assert_eq!(p.data, vec![2, 1, 0xAC, 0x02]);
}

#[test]
fn multi_block_change_records() {
    let p = C3BMultiBlockChange {
        chunk_x: 1,
        chunk_z: 0,
        chunk_y: 2,
        records: vec![C3BMultiBlockChangeRecord { x: 1, y: 2, z: 3, block_id: 1 }],
    }
    .encode();
    let pos: i64 = (1i64 << 42) | 2;
    let mut want = pos.to_be_bytes().to_vec();
    want.extend_from_slice(&[1, 1]);
    let record: u64 = (1 << 12) | (1 << 8) | (3 << 4) | 2;
    assert_eq!(record, 0x1132);
    want.extend_from_slice(&[0xB2, 0x22]);
    assert_eq!(p.data, want);
}

#[test]
fn entity_metadata_ends_with_marker() {
    let p = C44EntityMetadata {
        entity_id: 3,
        metadata: vec![C44EntityMetadataEntry { index: 0, metadata_type: 0, value: vec![9] }],
    }
    .encode();
    assert_eq!(p.data, vec![3, 0, 0, 9, 0xFF]);
}

#[test]
fn player_info_gamemode_update() {
    let p = C32PlayerInfo::UpdateGamemode(5, Gamemode::Creative).encode();
    let mut want = vec![1, 1];
    want.extend_from_slice(&5u128.to_be_bytes());
    want.push(1);
    assert_eq!(p.packet_id, 0x32);
    assert_eq!(p.data, want);
}
