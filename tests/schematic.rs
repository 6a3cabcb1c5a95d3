use worldedit::registry::{BlockRegistry, BlockState};
use worldedit::schematic::{load_from_schematic, resolve_palette_entry, SchematicBlockEntity, SchematicData};
use worldedit::pos::BlockPos;
use worldedit::varint::read_varint;
use worldedit::wire::write_varint;

fn state(name: &str, props: &[(&str, &str)], id: u32) -> BlockState {
    BlockState {
        name: name.to_string(),
        properties: props.iter().map(|(k, v)| (k.to_string(), v.to_string())).collect(),
        id,
    }
}

fn registry() -> BlockRegistry {
    BlockRegistry {
        block_entity_kinds: vec!["minecraft:sign".to_string()],
        states: vec![
            state("air", &[], 0),
            state("stone", &[], 1),
            state("dirt", &[], 2),
            state("lever", &[("facing", "north"), ("powered", "false")], 3),
            state("lever", &[("facing", "south"), ("powered", "false")], 4),
            state("lever", &[("facing", "south"), ("powered", "true")], 5),
            state("lever", &[("facing", "north"), ("powered", "true")], 6),
        ],
    }
}

fn doc(width: i16, height: i16, length: i16, palette: &[(&str, i32)], data: Vec<u8>) -> SchematicData {
    SchematicData {
        width,
        height,
        length,
        palette: palette.iter().map(|(n, i)| (n.to_string(), *i)).collect(),
        we_offset_x: 1,
        we_offset_y: -2,
        we_offset_z: 3,
        block_data: data,
        block_entities: Vec::new(),
    }
}

#[test]
fn palette_names_resolve() {
    let reg = registry();
    assert_eq!(resolve_palette_entry(&reg, "minecraft:stone"), Some(1));
    assert_eq!(resolve_palette_entry(&reg, "minecraft:lever[facing=south]"), Some(4));
    assert_eq!(resolve_palette_entry(&reg, "minecraft:lever[powered=true,facing=south]"), Some(5));
    assert_eq!(resolve_palette_entry(&reg, "minecraft:lever[powered=true]"), Some(6));
    assert_eq!(resolve_palette_entry(&reg, "minecraft:lever[facing=west]"), Some(3));
    assert_eq!(resolve_palette_entry(&reg, "minecraft:mystery"), Some(0));
    assert_eq!(resolve_palette_entry(&reg, "stone"), None);
    assert_eq!(resolve_palette_entry(&reg, "minecraft:lever[facing]"), None);
    assert_eq!(resolve_palette_entry(&reg, "xx minecraft:dirt"), Some(2));
}

#[test]
fn single_byte_ids_decode_in_order() {
    let d = doc(2, 2, 1, &[("minecraft:stone", 0), ("minecraft:dirt", 1), ("minecraft:air", 2)], vec![0, 1, 2, 1]);
    let cb = load_from_schematic(&d, &registry()).unwrap();
    assert_eq!((cb.size_x, cb.size_y, cb.size_z), (2, 2, 1));
    assert_eq!((cb.offset_x, cb.offset_y, cb.offset_z), (-1, 2, -3));
    let ids: Vec<u32> = (0..4).map(|i| cb.data.get_entry(i)).collect();
    assert_eq!(ids, vec![1, 2, 0, 2]);
}

#[test]
fn multi_byte_ids_decode() {
    let d = doc(2, 1, 1, &[("minecraft:stone", 300), ("minecraft:dirt", 1)], vec![0xAC, 0x02, 0x01]);
    let cb = load_from_schematic(&d, &registry()).unwrap();
    assert_eq!(cb.data.get_entry(0), 1);
    assert_eq!(cb.data.get_entry(1), 2);
}

#[test]
fn malformed_documents_give_nothing() {
    let reg = registry();
    assert!(load_from_schematic(&doc(2, 1, 1, &[("minecraft:stone", 0)], vec![0]), &reg).is_none());
    assert!(load_from_schematic(&doc(1, 1, 1, &[("minecraft:stone", 0)], vec![5]), &reg).is_none());
    assert!(load_from_schematic(&doc(1, 1, 1, &[("stone", 0)], vec![0]), &reg).is_none());
    assert!(load_from_schematic(&doc(-1, 1, 1, &[("minecraft:stone", 0)], vec![]), &reg).is_none());
    assert!(load_from_schematic(&doc(1, 1, 1, &[("minecraft:stone", 0)], vec![0x80, 0x80, 0x80, 0x80, 0x80, 0]), &reg).is_none());
    let mut bad = doc(1, 1, 1, &[("minecraft:stone", 0)], vec![0]);
    bad.block_entities.push(SchematicBlockEntity { pos: vec![0, 0], id: "minecraft:sign".to_string(), data: vec![] });
    assert!(load_from_schematic(&bad, &reg).is_none());
}

#[test]
fn zero_size_gives_empty_clipboard() {
    let reg = registry();
    let cb = load_from_schematic(&doc(0, 1, 1, &[("minecraft:stone", 0)], vec![]), &reg).unwrap();
    assert_eq!((cb.size_x, cb.size_y, cb.size_z), (0, 1, 1));
    assert_eq!(cb.data.entries(), 0);
    assert!(load_from_schematic(&doc(2, 0, 3, &[("minecraft:stone", 0)], vec![]), &reg).is_some());
}

#[test]
fn block_entities_inside_extent_are_kept() {
    let mut d = doc(2, 1, 1, &[("minecraft:stone", 0)], vec![0, 0]);
    let sign = "minecraft:sign".to_string();
    d.block_entities.push(SchematicBlockEntity { pos: vec![1, 0, 0], id: sign.clone(), data: vec![4, 2] });
    d.block_entities.push(SchematicBlockEntity { pos: vec![5, 0, 0], id: sign.clone(), data: vec![1] });
    d.block_entities.push(SchematicBlockEntity { pos: vec![0, 0, 0], id: "minecraft:mystery".to_string(), data: vec![3] });
    let cb = load_from_schematic(&d, &registry()).unwrap();
    assert_eq!(cb.block_entities.len(), 1);
    assert!(cb.block_entities.get(BlockPos::new(0, 0, 0)).is_none());
    assert_eq!(cb.block_entities.get(BlockPos::new(1, 0, 0)).unwrap().data, vec![4, 2]);
}

#[test]
fn varint_encoding_round_trips() {
    for v in [0i32, 1, 127, 128, 300, 2097151, i32::MAX, -1] {
        let mut buf = Vec::new();
        write_varint(&mut buf, v);
        buf.push(0x55);
        assert_eq!(read_varint(&buf, 0), Some((v as u32, buf.len() - 1)));
    }
    let mut buf = Vec::new();
    write_varint(&mut buf, 300);
    assert_eq!(buf, vec![0xAC, 0x02]);
    let mut buf = Vec::new();
    write_varint(&mut buf, -1);
    assert_eq!(buf, vec![0xFF, 0xFF, 0xFF, 0xFF, 0x0F]);
}
