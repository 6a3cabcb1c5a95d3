use worldedit::clipboard::{create_clipboard, paste_clipboard, undo, UndoError, WorldEditUndo, capture_undo};
use worldedit::operation::WorldEditOperation;
use worldedit::pos::{BlockFacing, BlockPos};
use worldedit::storage::PalettedBitBuffer;
use worldedit::world::{BlockEntity, Plot};

fn pos(x: i32, y: i32, z: i32) -> BlockPos {
    BlockPos::new(x, y, z)
}

fn sample_plot() -> Plot {
    let mut plot = Plot::new(0, 0);
    for x in 0..6 {
        for y in 0..4 {
            for z in 0..5 {
                plot.set_block_raw(pos(x, y, z), (x * 100 + y * 10 + z) as u32 + 1);
            }
        }
    }
    plot.set_block_entity(pos(2, 1, 3), BlockEntity { data: vec![7, 8, 9] });
    plot
}

#[test]
fn store_reads_back_writes() {
    let mut buf = PalettedBitBuffer::with_entries(10);
    assert_eq!(buf.entries(), 10);
    buf.set_entry(3, 70000);
    buf.set_entry(9, 1);
    assert_eq!(buf.get_entry(3), 70000);
    assert_eq!(buf.get_entry(9), 1);
    assert_eq!(buf.get_entry(0), 0);
}

#[test]
fn plot_cells_and_bounds() {
    let mut plot = Plot::new(1, -1);
    assert!(Plot::in_plot_bounds(1, -1, 128, -128));
    assert!(!Plot::in_plot_bounds(1, -1, 127, -128));
    assert!(plot.set_block_raw(pos(130, 5, -1), 9));
    assert!(!plot.set_block_raw(pos(130, 5, -1), 9));
    assert_eq!(plot.get_block_raw(pos(130, 5, -1)), 9);
    assert!(!plot.set_block_raw(pos(0, 5, 0), 9));
    assert_eq!(plot.get_block_raw(pos(0, 5, 0)), 0);
}

#[test]
fn capture_lays_cells_out_y_then_z_then_x() {
    let plot = sample_plot();
    let cb = create_clipboard(&plot, pos(0, 0, 0), pos(2, 1, 3), pos(1, 0, 2));
    assert_eq!((cb.size_x, cb.size_y, cb.size_z), (2, 2, 2));
    assert_eq!((cb.offset_x, cb.offset_y, cb.offset_z), (-1, 0, -2));
    let ids: Vec<u32> = (0..8).map(|i| cb.data.get_entry(i)).collect();
    assert_eq!(ids, vec![103, 203, 104, 204, 113, 213, 114, 214]);
    let entity = cb.block_entities.get(pos(1, 1, 1)).unwrap();
    assert_eq!(entity.data, vec![7, 8, 9]);
}

#[test]
fn capture_then_paste_restores_region() {
    let mut plot = sample_plot();
    let origin = pos(3, 2, 1);
    let cb = create_clipboard(&plot, origin, pos(4, 3, 4), pos(1, 0, 2));
    for x in 0..6 {
        for y in 0..4 {
            for z in 0..5 {
                plot.set_block_raw(pos(x, y, z), 0);
            }
        }
    }
    paste_clipboard(&mut plot, &cb, origin, false);
    for x in 1..5 {
        for y in 0..4 {
            for z in 2..5 {
                assert_eq!(plot.get_block_raw(pos(x, y, z)), (x * 100 + y * 10 + z) as u32 + 1);
            }
        }
    }
    assert_eq!(plot.get_block_raw(pos(0, 0, 0)), 0);
    assert_eq!(plot.get_block_entity(pos(2, 1, 3)).unwrap().data, vec![7, 8, 9]);
}

#[test]
fn paste_elsewhere_skipping_air() {
    let mut plot = Plot::new(0, 0);
    plot.set_block_raw(pos(0, 0, 0), 5);
    plot.set_block_raw(pos(11, 0, 0), 8);
    let cb = create_clipboard(&plot, pos(0, 0, 0), pos(0, 0, 0), pos(1, 0, 0));
    paste_clipboard(&mut plot, &cb, pos(10, 0, 0), true);
    assert_eq!(plot.get_block_raw(pos(10, 0, 0)), 5);
    assert_eq!(plot.get_block_raw(pos(11, 0, 0)), 8);
    paste_clipboard(&mut plot, &cb, pos(10, 0, 0), false);
    assert_eq!(plot.get_block_raw(pos(11, 0, 0)), 0);
    let dirty = plot.take_dirty_chunks();
    assert!(dirty.contains(&(0, 0)));
    assert!(plot.take_dirty_chunks().is_empty());
}

#[test]
fn undo_restores_and_checks_partition() {
    let mut plot = sample_plot();
    let mut history: Vec<WorldEditUndo> = Vec::new();
    capture_undo(&plot, &mut history, pos(0, 0, 0), pos(1, 1, 1));
    plot.set_block_raw(pos(1, 1, 1), 999);
    assert!(undo(&mut plot, &mut history).is_ok());
    assert_eq!(plot.get_block_raw(pos(1, 1, 1)), 112);
    assert!(history.is_empty());
    assert_eq!(undo(&mut plot, &mut history).err(), Some(UndoError::NothingToUndo));

    capture_undo(&plot, &mut history, pos(0, 0, 0), pos(1, 1, 1));
    let mut other = Plot::new(1, 0);
    assert_eq!(undo(&mut other, &mut history).err(), Some(UndoError::OutsideOfPlot));
    assert!(history.is_empty());
}

#[test]
fn operation_tracks_footprint_chunks() {
    let mut op = WorldEditOperation::new(pos(20, 0, -1), pos(0, 5, 17));
    assert_eq!(op.records.len(), 2 * 3);
    assert_eq!(op.x_range(), (0, 20));
    assert_eq!(op.y_range(), (0, 5));
    assert_eq!(op.z_range(), (-1, 17));
    op.update_block(pos(3, 0, 3));
    op.update_block(pos(17, 0, -1));
    op.update_block(pos(100, 0, 100));
    assert_eq!(op.blocks_updated(), 2);
}

#[test]
fn facing_offsets() {
    assert_eq!(BlockFacing::North.offset_pos(pos(1, 2, 3), 4), Some(pos(1, 2, -1)));
    assert_eq!(BlockFacing::Up.offset_pos(pos(1, 2, 3), 4), Some(pos(1, 6, 3)));
    assert_eq!(BlockFacing::East.offset_pos(pos(i32::MAX, 0, 0), 1), None);
}
