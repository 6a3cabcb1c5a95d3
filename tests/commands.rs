use worldedit::command::{parse_flags, resolve_command, CommandKind, FlagDescription, FlagError, ArgumentType};
use worldedit::pos::{BlockFacing, BlockPos};
use worldedit::registry::{BlockRegistry, BlockState};
use worldedit::session::{execute_command, Feedback, Player};
use worldedit::world::Plot;

fn registry() -> BlockRegistry {
    let names = ["air", "stone", "dirt"];
    BlockRegistry {
        block_entity_kinds: vec!["minecraft:sign".to_string()],
        states: names
            .iter()
            .enumerate()
            .map(|(i, n)| BlockState { name: n.to_string(), properties: vec![], id: i as u32 })
            .collect(),
    }
}

fn player_at(x: i32, y: i32, z: i32) -> Player {
    Player {
        first_position: None,
        second_position: None,
        position: BlockPos::new(x, y, z),
        facing: BlockFacing::East,
        worldedit_clipboard: None,
        worldedit_undo: Vec::new(),
    }
}

fn run(plot: &mut Plot, player: &mut Player, line: &str) -> Option<Feedback> {
    let mut tokens = line.split(' ');
    let command = tokens.next().unwrap();
    let args: Vec<String> = tokens.map(|t| t.to_string()).collect();
    execute_command(plot, player, command, &args, &registry())
}

fn strings(v: &[&str]) -> Vec<String> {
    v.iter().map(|s| s.to_string()).collect()
}

fn flag_descs() -> Vec<FlagDescription> {
    vec![
        FlagDescription { letter: 'a', argument_type: None, description: "all" },
        FlagDescription { letter: 's', argument_type: Some(ArgumentType::UnsignedInteger), description: "size" },
    ]
}

#[test]
fn lone_flag_is_accepted() {
    let (flags, rest) = parse_flags(&flag_descs(), &strings(&["-a"])).ok().unwrap();
    assert_eq!(flags, vec!['a']);
    assert!(rest.is_empty());
}

#[test]
fn flag_with_value_must_end_group() {
    assert_eq!(parse_flags(&flag_descs(), &strings(&["-sa", "3"])).err(), Some(FlagError::ArgumentNotLast));
    let (flags, rest) = parse_flags(&flag_descs(), &strings(&["x", "-as", "3", "y"])).ok().unwrap();
    assert_eq!(flags, vec!['a', 's']);
    assert_eq!(rest, strings(&["x", "y"]));
}

#[test]
fn undeclared_flag_is_unknown() {
    assert_eq!(parse_flags(&flag_descs(), &strings(&["-z"])).err(), Some(FlagError::UnknownFlag('z')));
}

#[test]
fn aliases_inject_tokens() {
    let (kind, injected) = resolve_command("va").unwrap();
    assert_eq!(kind, CommandKind::Paste);
    assert_eq!(injected, strings(&["-a"]));
    let (kind, injected) = resolve_command("set").unwrap();
    assert_eq!(kind, CommandKind::SetBlocks);
    assert!(injected.is_empty());
    assert!(resolve_command("teleport").is_none());
}

#[test]
fn unknown_command_is_not_handled() {
    let mut plot = Plot::new(0, 0);
    let mut player = player_at(0, 0, 0);
    assert!(run(&mut plot, &mut player, "fly").is_none());
}

#[test]
fn preconditions_stop_dispatch() {
    let mut plot = Plot::new(0, 0);
    let mut player = player_at(0, 0, 0);
    assert!(matches!(run(&mut plot, &mut player, "set stone"), Some(Feedback::SelectionMissing)));
    player.first_position = Some(BlockPos::new(-5, 0, 0));
    player.second_position = Some(BlockPos::new(1, 0, 0));
    assert!(matches!(run(&mut plot, &mut player, "set stone"), Some(Feedback::FirstPositionOutsidePlot)));
    player.first_position = Some(BlockPos::new(1, 0, 0));
    player.second_position = Some(BlockPos::new(1, 0, 500));
    assert!(matches!(run(&mut plot, &mut player, "set stone"), Some(Feedback::SecondPositionOutsidePlot)));
    assert!(matches!(run(&mut plot, &mut player, "paste"), Some(Feedback::ClipboardEmpty)));
    assert!(matches!(run(&mut plot, &mut player, "v"), Some(Feedback::ClipboardEmpty)));
}

#[test]
fn parse_errors_stop_dispatch() {
    let mut plot = Plot::new(0, 0);
    let mut player = player_at(0, 0, 0);
    player.first_position = Some(BlockPos::new(0, 0, 0));
    player.second_position = Some(BlockPos::new(1, 1, 1));
    assert!(matches!(run(&mut plot, &mut player, "set stone dirt"), Some(Feedback::TooManyArguments)));
    assert!(matches!(run(&mut plot, &mut player, "set stone -z"), Some(Feedback::UnknownFlag('z'))));
    assert!(matches!(run(&mut plot, &mut player, "set ??"), Some(Feedback::ArgumentError(_))));
    assert!(matches!(run(&mut plot, &mut player, "stack x"), Some(Feedback::ArgumentError(_))));
    assert!(matches!(run(&mut plot, &mut player, "stack 2 up"), Some(Feedback::ArgumentError(_))));
    assert!(matches!(run(&mut plot, &mut player, "load"), Some(Feedback::ArgumentError(_))));
    assert_eq!(plot.get_block_raw(BlockPos::new(0, 0, 0)), 0);
    assert!(player.worldedit_undo.is_empty());
}

#[test]
fn set_count_replace_and_undo() {
    let mut plot = Plot::new(0, 0);
    let mut player = player_at(0, 0, 0);
    assert!(matches!(run(&mut plot, &mut player, "pos1"), Some(Feedback::FirstPositionSet(_))));
    player.position = BlockPos::new(2, 1, 2);
    assert!(matches!(run(&mut plot, &mut player, "2"), Some(Feedback::SecondPositionSet(_))));
    assert!(matches!(run(&mut plot, &mut player, "set stone"), Some(Feedback::OperationCompleted(18))));
    assert!(matches!(run(&mut plot, &mut player, "count stone"), Some(Feedback::Counted(18))));
    assert!(matches!(run(&mut plot, &mut player, "replace stone =2"), Some(Feedback::OperationCompleted(18))));
    assert_eq!(plot.get_block_raw(BlockPos::new(1, 1, 1)), 2);
    assert!(matches!(run(&mut plot, &mut player, "undo"), Some(Feedback::Undone)));
    assert_eq!(plot.get_block_raw(BlockPos::new(1, 1, 1)), 1);
    assert!(matches!(run(&mut plot, &mut player, "undo"), Some(Feedback::Undone)));
    assert_eq!(plot.get_block_raw(BlockPos::new(1, 1, 1)), 0);
    assert!(matches!(run(&mut plot, &mut player, "undo"), Some(Feedback::NothingToUndo)));
    assert!(!plot.take_dirty_chunks().is_empty());
}

#[test]
fn undo_in_other_plot_drops_entry() {
    let mut plot = Plot::new(0, 0);
    let mut player = player_at(0, 0, 0);
    player.first_position = Some(BlockPos::new(0, 0, 0));
    player.second_position = Some(BlockPos::new(1, 1, 1));
    assert!(matches!(run(&mut plot, &mut player, "set dirt"), Some(Feedback::OperationCompleted(8))));
    assert_eq!(player.worldedit_undo.len(), 1);
    let mut other = Plot::new(2, 0);
    assert!(matches!(run(&mut other, &mut player, "undo"), Some(Feedback::UndoOutsidePlot)));
    assert!(player.worldedit_undo.is_empty());
    assert_eq!(plot.get_block_raw(BlockPos::new(0, 0, 0)), 2);
}

#[test]
fn copy_paste_and_paste_undo() {
    let mut plot = Plot::new(0, 0);
    let mut player = player_at(0, 0, 0);
    plot.set_block_raw(BlockPos::new(0, 0, 0), 1);
    plot.set_block_raw(BlockPos::new(1, 0, 0), 2);
    player.first_position = Some(BlockPos::new(0, 0, 0));
    player.second_position = Some(BlockPos::new(1, 0, 0));
    assert!(matches!(run(&mut plot, &mut player, "c"), Some(Feedback::Copied)));
    player.position = BlockPos::new(5, 3, 5);
    plot.set_block_raw(BlockPos::new(6, 3, 5), 9);
    assert!(matches!(run(&mut plot, &mut player, "paste"), Some(Feedback::Pasted)));
    assert_eq!(plot.get_block_raw(BlockPos::new(5, 3, 5)), 1);
    assert_eq!(plot.get_block_raw(BlockPos::new(6, 3, 5)), 2);
    assert!(matches!(run(&mut plot, &mut player, "undo"), Some(Feedback::Undone)));
    assert_eq!(plot.get_block_raw(BlockPos::new(5, 3, 5)), 0);
    assert_eq!(plot.get_block_raw(BlockPos::new(6, 3, 5)), 9);
}

#[test]
fn paste_alias_skips_air() {
    let mut plot = Plot::new(0, 0);
    let mut player = player_at(0, 0, 0);
    plot.set_block_raw(BlockPos::new(0, 0, 0), 1);
    player.first_position = Some(BlockPos::new(0, 0, 0));
    player.second_position = Some(BlockPos::new(1, 0, 0));
    assert!(matches!(run(&mut plot, &mut player, "copy"), Some(Feedback::Copied)));
    player.position = BlockPos::new(0, 4, 0);
    plot.set_block_raw(BlockPos::new(1, 4, 0), 7);
    assert!(matches!(run(&mut plot, &mut player, "va"), Some(Feedback::Pasted)));
    assert_eq!(plot.get_block_raw(BlockPos::new(0, 4, 0)), 1);
    assert_eq!(plot.get_block_raw(BlockPos::new(1, 4, 0)), 7);
}

#[test]
fn cut_clears_selection() {
    let mut plot = Plot::new(0, 0);
    let mut player = player_at(0, 0, 0);
    plot.set_block_raw(BlockPos::new(1, 1, 1), 2);
    player.first_position = Some(BlockPos::new(0, 0, 0));
    player.second_position = Some(BlockPos::new(2, 2, 2));
    assert!(matches!(run(&mut plot, &mut player, "x"), Some(Feedback::Cut)));
    assert_eq!(plot.get_block_raw(BlockPos::new(1, 1, 1)), 0);
    let cb = player.worldedit_clipboard.as_ref().unwrap();
    assert_eq!(cb.data.get_entry(13), 2);
}

#[test]
fn move_shifts_contents_and_selection() {
    let mut plot = Plot::new(0, 0);
    let mut player = player_at(0, 0, 0);
    plot.set_block_raw(BlockPos::new(0, 0, 0), 1);
    plot.set_block_raw(BlockPos::new(1, 0, 0), 2);
    player.first_position = Some(BlockPos::new(0, 0, 0));
    player.second_position = Some(BlockPos::new(1, 0, 0));
    assert!(matches!(run(&mut plot, &mut player, "move 3 -s"), Some(Feedback::Moved)));
    assert_eq!(plot.get_block_raw(BlockPos::new(0, 0, 0)), 0);
    assert_eq!(plot.get_block_raw(BlockPos::new(1, 0, 0)), 0);
    assert_eq!(plot.get_block_raw(BlockPos::new(3, 0, 0)), 1);
    assert_eq!(plot.get_block_raw(BlockPos::new(4, 0, 0)), 2);
    assert_eq!(player.first_position, Some(BlockPos::new(3, 0, 0)));
    assert_eq!(player.second_position, Some(BlockPos::new(4, 0, 0)));
}

#[test]
fn stack_repeats_selection() {
    let mut plot = Plot::new(0, 0);
    let mut player = player_at(0, 0, 0);
    player.facing = BlockFacing::Up;
    plot.set_block_raw(BlockPos::new(0, 0, 0), 1);
    plot.set_block_raw(BlockPos::new(0, 1, 0), 2);
    player.first_position = Some(BlockPos::new(0, 0, 0));
    player.second_position = Some(BlockPos::new(0, 1, 0));
    assert!(matches!(run(&mut plot, &mut player, "s 2"), Some(Feedback::Stacked)));
    let column: Vec<u32> = (0..7).map(|y| plot.get_block_raw(BlockPos::new(0, y, 0))).collect();
    assert_eq!(column, vec![1, 2, 1, 2, 1, 2, 0]);
}

#[test]
fn selection_commands() {
    let mut plot = Plot::new(0, 0);
    let mut player = player_at(3, 4, 5);
    run(&mut plot, &mut player, "1");
    assert_eq!(player.first_position, Some(BlockPos::new(3, 4, 5)));
    assert!(matches!(run(&mut plot, &mut player, "sel"), Some(Feedback::SelectionCleared)));
    assert_eq!(player.first_position, None);
    match run(&mut plot, &mut player, "load castle") {
        Some(Feedback::LoadSchematic(name)) => assert_eq!(name, "castle"),
        _ => panic!("expected a load request"),
    }
}

#[test]
fn oversized_selection_is_refused() {
    let mut plot = Plot::new(0, 0);
    let mut player = player_at(0, 0, 0);
    player.first_position = Some(BlockPos::new(0, i32::MIN, 0));
    player.second_position = Some(BlockPos::new(127, i32::MAX, 127));
    assert!(matches!(run(&mut plot, &mut player, "set stone"), Some(Feedback::SelectionTooLarge)));
    assert!(matches!(run(&mut plot, &mut player, "copy"), Some(Feedback::SelectionTooLarge)));
    assert!(player.worldedit_undo.is_empty());
    assert!(player.worldedit_clipboard.is_none());
}

#[test]
fn edits_past_the_coordinate_range_are_refused() {
    let mut plot = Plot::new(0, 0);
    let mut player = player_at(0, 0, 0);
    plot.set_block_raw(BlockPos::new(0, 0, 0), 1);
    player.first_position = Some(BlockPos::new(0, 0, 0));
    player.second_position = Some(BlockPos::new(0, 0, 0));
    assert!(matches!(run(&mut plot, &mut player, "move 4294967295"), Some(Feedback::OutOfRange)));
    player.facing = BlockFacing::Down;
    player.first_position = Some(BlockPos::new(0, i32::MIN + 1, 0));
    assert!(matches!(run(&mut plot, &mut player, "move 5"), Some(Feedback::SelectionTooLarge)));
    assert_eq!(plot.get_block_raw(BlockPos::new(0, 0, 0)), 1);
}

#[test]
fn move_can_be_undone() {
    let mut plot = Plot::new(0, 0);
    let mut player = player_at(0, 0, 0);
    plot.set_block_raw(BlockPos::new(0, 0, 0), 1);
    plot.set_block_raw(BlockPos::new(4, 0, 0), 2);
    player.first_position = Some(BlockPos::new(0, 0, 0));
    player.second_position = Some(BlockPos::new(1, 0, 0));
    assert!(matches!(run(&mut plot, &mut player, "move 3"), Some(Feedback::Moved)));
    assert_eq!(plot.get_block_raw(BlockPos::new(3, 0, 0)), 1);
    assert_eq!(plot.get_block_raw(BlockPos::new(4, 0, 0)), 0);
    assert!(matches!(run(&mut plot, &mut player, "undo"), Some(Feedback::Undone)));
    assert_eq!(plot.get_block_raw(BlockPos::new(0, 0, 0)), 1);
    assert_eq!(plot.get_block_raw(BlockPos::new(3, 0, 0)), 0);
    assert_eq!(plot.get_block_raw(BlockPos::new(4, 0, 0)), 2);
}

#[test]
fn set_counts_only_changed_cells() {
    let mut plot = Plot::new(0, 0);
    let mut player = player_at(0, 0, 0);
    plot.set_block_raw(BlockPos::new(0, 0, 0), 1);
    player.first_position = Some(BlockPos::new(0, 0, 0));
    player.second_position = Some(BlockPos::new(1, 0, 1));
    assert!(matches!(run(&mut plot, &mut player, "set stone"), Some(Feedback::OperationCompleted(3))));
    assert!(matches!(run(&mut plot, &mut player, "set stone"), Some(Feedback::OperationCompleted(0))));
}

#[test]
fn stack_past_range_changes_nothing() {
    let mut plot = Plot::new(0, 0);
    let mut player = player_at(0, 0, 0);
    player.facing = BlockFacing::Up;
    plot.set_block_raw(BlockPos::new(0, 0, 0), 1);
    player.first_position = Some(BlockPos::new(0, 0, 0));
    player.second_position = Some(BlockPos::new(0, 0, 0));
    assert!(matches!(run(&mut plot, &mut player, "stack 4294967295"), Some(Feedback::OutOfRange)));
    assert_eq!(plot.get_block_raw(BlockPos::new(0, 1, 0)), 0);
    assert!(matches!(run(&mut plot, &mut player, "undo"), Some(Feedback::NothingToUndo)));
}

#[test]
fn stack_can_be_undone() {
    let mut plot = Plot::new(0, 0);
    let mut player = player_at(0, 0, 0);
    player.facing = BlockFacing::South;
    plot.set_block_raw(BlockPos::new(0, 0, 0), 1);
    plot.set_block_raw(BlockPos::new(0, 0, 2), 7);
    player.first_position = Some(BlockPos::new(0, 0, 0));
    player.second_position = Some(BlockPos::new(0, 0, 0));
    assert!(matches!(run(&mut plot, &mut player, "stack 3"), Some(Feedback::Stacked)));
    let row: Vec<u32> = (0..5).map(|z| plot.get_block_raw(BlockPos::new(0, 0, z))).collect();
    assert_eq!(row, vec![1, 1, 1, 1, 0]);
    assert!(matches!(run(&mut plot, &mut player, "undo"), Some(Feedback::Undone)));
    let row: Vec<u32> = (0..5).map(|z| plot.get_block_raw(BlockPos::new(0, 0, z))).collect();
    assert_eq!(row, vec![1, 0, 7, 0, 0]);
}
