//! Per-user editing state, the command executors and command dispatch.

use vstd::prelude::*;
use crate::clipboard::{
    WorldEditClipboard, WorldEditUndo, capture_undo, captures, create_clipboard, extent, history_wf,
    captured_entities, hi_corner, lemma_empty_snapshot, lemma_extent_nonempty, lemma_nonempty_snapshot, lemma_sides_bounded, lo_corner, shifted_entities, paste_clipboard, paste_far, paste_fits, paste_origin, pastes,
    selection_fits, undo, UndoError, MAX_VOLUME,
};
use crate::command::{
    Argument, ArgumentParseError, ArgumentType, CommandKind, FlagError, WorldeditCommand, arg_parses, arg_token, command_argument_types, command_flags, parses_as,
    command_requires_clipboard, command_requires_positions, parse_argument, parse_flags,
    resolve_command, resolve_spec, split_flags, token_views,
};
use crate::cuboid::{coord_add, coord_sub, in_extent, volume};
use crate::operation::{
    WorldEditOperation, dirty_covers, lemma_covers_append, lemma_send_marks, marks_footprint, worldedit_send_operation,
};
use crate::pattern::WorldEditPattern;
use crate::pos::{BlockFacing, BlockPos, Coord, coord_max, coord_min, fits_pos};
use crate::region::{count_changed, count_matching, count_region, fill_region, fills};
use crate::registry::BlockRegistry;
use crate::world::{Plot, in_plot_bounds_spec};

verus! {

/// The world-editing state of one user.
pub struct Player {
    pub first_position: Option<BlockPos>,
    pub second_position: Option<BlockPos>,
    /// The cell the user stands in.
    pub position: BlockPos,
    /// The axis direction the user faces.
    pub facing: BlockFacing,
    pub worldedit_clipboard: Option<WorldEditClipboard>,
    pub worldedit_undo: Vec<WorldEditUndo>,
}

impl Player {
    pub open spec fn wf(&self) -> bool {
        &&& match self.worldedit_clipboard {
            Some(cb) => cb.wf(),
            None => true,
        }
        &&& history_wf(self.worldedit_undo@)
    }

    pub open spec fn has_selection(&self) -> bool {
        self.first_position.is_some() && self.second_position.is_some()
    }

    pub open spec fn first(&self) -> BlockPos {
        self.first_position.unwrap()
    }

    pub open spec fn second(&self) -> BlockPos {
        self.second_position.unwrap()
    }
}

/// What a command reports back to the user who ran it.
pub enum Feedback {
    SelectionMissing,
    FirstPositionOutsidePlot,
    SecondPositionOutsidePlot,
    ClipboardEmpty,
    FlagArgumentNotLast,
    UnknownFlag(char),
    TooManyArguments,
    ArgumentError(ArgumentParseError),
    /// The selection holds more cells than one edit may touch.
    SelectionTooLarge,
    /// The edit would reach past the coordinate range.
    OutOfRange,
    OperationCompleted(u64),
    Counted(u64),
    Copied,
    Cut,
    Moved,
    Pasted,
    Stacked,
    Undone,
    NothingToUndo,
    UndoOutsidePlot,
    SelectionCleared,
    FirstPositionSet(BlockPos),
    SecondPositionSet(BlockPos),
    /// The named schematic should be read and handed to `finish_load`.
    LoadSchematic(String),
    SchematicLoaded,
    SchematicLoadFailed,
}

/// The parsed arguments and flags of one command invocation.
pub struct CommandExecuteContext {
    pub arguments: Vec<Argument>,
    pub flags: Vec<char>,
}

impl CommandExecuteContext {
    pub fn has_flag(&self, c: char) -> (r: bool)
        ensures
            r == self.flags@.contains(c),
    {
        let mut i: usize = 0;
        while i < self.flags.len()
            invariant
                i <= self.flags@.len(),
                forall|j: int| 0 <= j < i ==> self.flags@[j] != c,
            decreases self.flags.len() - i,
        {
            if self.flags[i] == c {
                return true;
            }
            i = i + 1;
        }
        false
    }
}

/// The number of cells in the cuboid spanned by two corners.
pub fn selection_volume(a: BlockPos, b: BlockPos) -> (r: u128)
    ensures
        r == volume(extent(a, b)),
{
    let lo = a.min(b);
    let hi = a.max(b);
    let sx = (hi.x as i64 - lo.x as i64 + 1) as u128;
    let sy = (hi.y as i64 - lo.y as i64 + 1) as u128;
    let sz = (hi.z as i64 - lo.z as i64 + 1) as u128;
    proof {
        assert(sx * sy <= 0x1_0000_0000_0000_0000) by (nonlinear_arith)
            requires sx <= 0x1_0000_0000, sy <= 0x1_0000_0000;
        assert(sx * sy * sz <= 0x1_0000_0000_0000_0000_0000_0000) by (nonlinear_arith)
            requires sx * sy <= 0x1_0000_0000_0000_0000, sz <= 0x1_0000_0000;
    }
    sx * sy * sz
}

/// Whether `origin - lo_corner(a, b)` stays in the `i32` range.
pub fn offset_fits(origin: BlockPos, a: BlockPos, b: BlockPos) -> (r: bool)
    ensures
        r == fits_pos(coord_sub(origin.at(), lo_corner(a, b))),
{
    let lo = a.min(b);
    let dx = origin.x as i64 - lo.x as i64;
    let dy = origin.y as i64 - lo.y as i64;
    let dz = origin.z as i64 - lo.z as i64;
    i32::MIN as i64 <= dx && dx <= i32::MAX as i64 && i32::MIN as i64 <= dy && dy <= i32::MAX as i64
        && i32::MIN as i64 <= dz && dz <= i32::MAX as i64
}

/// Whether pasting `cb` at `pos` stays in the `i32` range.
pub fn paste_in_range(cb: &WorldEditClipboard, pos: BlockPos) -> (r: bool)
    requires
        cb.wf(),
    ensures
        r == paste_fits(*cb, pos),
{
    let ox = pos.x as i64 - cb.offset_x as i64;
    let oy = pos.y as i64 - cb.offset_y as i64;
    let oz = pos.z as i64 - cb.offset_z as i64;
    let fx = ox + cb.size_x as i64 - 1;
    let fy = oy + cb.size_y as i64 - 1;
    let fz = oz + cb.size_z as i64 - 1;
    let lo = i32::MIN as i64;
    let hi = i32::MAX as i64;
    lo <= ox && ox <= hi && lo <= oy && oy <= hi && lo <= oz && oz <= hi && lo <= fx && fx <= hi
        && lo <= fy && fy <= hi && lo <= fz && fz <= hi
}

/// What `execute_copy` does: its result and its effect on the plot and the user.
pub open spec fn copy_effect(plot_before: Plot, user_before: Player, user_after: Player, fb: Feedback) -> bool {
    &&& !(fb is ArgumentError)
    &&& user_after.wf()
    &&& !selection_fits(user_before.first(), user_before.second()) ==> fb == Feedback::SelectionTooLarge
            && user_after == user_before
    &&& selection_fits(user_before.first(), user_before.second()) && !fits_pos(
            coord_sub(user_before.position.at(), lo_corner(user_before.first(), user_before.second())),
        ) ==> fb == Feedback::OutOfRange && user_after == user_before
    &&& fb == Feedback::Copied <==> selection_fits(user_before.first(), user_before.second()) && fits_pos(
            coord_sub(user_before.position.at(), lo_corner(user_before.first(), user_before.second())),
        )
    &&& fb == Feedback::Copied ==> user_after.worldedit_clipboard.is_some() && captures(
            user_after.worldedit_clipboard.unwrap(),
            plot_before,
            user_before.position,
            user_before.first(),
            user_before.second(),
        ) && user_after.worldedit_undo == user_before.worldedit_undo
            && user_after.first_position == user_before.first_position
            && user_after.second_position == user_before.second_position
}

/// Copies the selection to the clipboard, anchored at the user's cell.
pub fn execute_copy(plot: &Plot, player: &mut Player) -> (fb: Feedback)
    requires
        plot.wf(),
        old(player).wf(),
        old(player).has_selection(),
    ensures
        copy_effect(*plot, *old(player), *final(player), fb),
{
    let first_pos = player.first_position.unwrap();
    let second_pos = player.second_position.unwrap();
    if selection_volume(first_pos, second_pos) > MAX_VOLUME as u128 {
        return Feedback::SelectionTooLarge;
    }
    if !offset_fits(player.position, first_pos, second_pos) {
        return Feedback::OutOfRange;
    }
    let clipboard = create_clipboard(plot, player.position, first_pos, second_pos);
    player.worldedit_clipboard = Some(clipboard);
    Feedback::Copied
}

/// Whether the user stands and faces where they did.
pub open spec fn same_position(before: Player, after: Player) -> bool {
    after.position == before.position && after.facing == before.facing
}

/// Whether `after` differs from `before` only in the positions and
/// clipboard of the user.
pub open spec fn same_history(before: Player, after: Player) -> bool {
    after.worldedit_undo == before.worldedit_undo && after.position == before.position
        && after.facing == before.facing
}

/// Whether `after`'s undo history is `before`'s with one entry pushed: the
/// snapshot of the cuboid spanned by `a` and `b` in `plot`.
pub open spec fn pushes_undo(before: Player, after: Player, plot: Plot, a: BlockPos, b: BlockPos) -> bool {
    &&& after.worldedit_undo@.len() == before.worldedit_undo@.len() + 1
    &&& after.worldedit_undo@.drop_last() == before.worldedit_undo@
    &&& after.worldedit_undo@.last().plot_x == plot.x
    &&& after.worldedit_undo@.last().plot_z == plot.z
    &&& after.worldedit_undo@.last().pos.at() == lo_corner(a, b)
    &&& captures(after.worldedit_undo@.last().clipboard, plot, after.worldedit_undo@.last().pos, a, b)
}

proof fn lemma_count_changed_eq(before: Plot, a1: Plot, a2: Plot, lo: Coord, size: Coord, k: int)
    requires
        forall|c: Coord| #![auto] a1.cell(c) == a2.cell(c),
    ensures
        count_changed(before, a1, lo, size, k) == count_changed(before, a2, lo, size, k),
    decreases k,
{
    if k > 0 {
        lemma_count_changed_eq(before, a1, a2, lo, size, k - 1);
    }
}

/// Sets every cell of the selection to 0 and marks its chunks for re-delivery.
pub fn clear_area(plot: &mut Plot, first_pos: BlockPos, second_pos: BlockPos)
    requires
        old(plot).wf(),
        selection_fits(first_pos, second_pos),
    ensures
        fills(*old(plot), *final(plot), lo_corner(first_pos, second_pos), extent(first_pos, second_pos), None, None),
        marks_footprint(old(plot).dirty(), final(plot).dirty(), lo_corner(first_pos, second_pos), hi_corner(first_pos, second_pos)),
{
    let mut operation = WorldEditOperation::new(first_pos, second_pos);
    fill_region(plot, first_pos, second_pos, None, None, &mut operation);
    let ghost mid = plot.dirty();
    worldedit_send_operation(plot, &operation);
    proof {
        lemma_send_marks(mid, operation.records@, lo_corner(first_pos, second_pos), hi_corner(first_pos, second_pos));
    }
}

/// Rewrites the selection from `pattern`, only where `mask` (if any) lists
/// the cell's block, after pushing an undo entry for the selection.
fn edit_region(
    plot: &mut Plot,
    player: &mut Player,
    pattern: &WorldEditPattern,
    mask: Option<&WorldEditPattern>,
) -> (fb: Feedback)
    requires
        old(plot).wf(),
        old(player).wf(),
        old(player).has_selection(),
        pattern.wf(),
    ensures
        final(plot).wf(),
        final(player).wf(),
        !selection_fits(old(player).first(), old(player).second()) ==> fb == Feedback::SelectionTooLarge
            && *final(player) == *old(player) && *final(plot) == *old(plot),
        selection_fits(old(player).first(), old(player).second()) ==> fb == Feedback::OperationCompleted(
            count_changed(
                *old(plot),
                *final(plot),
                lo_corner(old(player).first(), old(player).second()),
                extent(old(player).first(), old(player).second()),
                volume(extent(old(player).first(), old(player).second())),
            ) as u64,
        ) && marks_footprint(
            old(plot).dirty(),
            final(plot).dirty(),
            lo_corner(old(player).first(), old(player).second()),
            hi_corner(old(player).first(), old(player).second()),
        ) && pushes_undo(*old(player), *final(player), *old(plot), old(player).first(), old(player).second())
            && fills(
            *old(plot),
            *final(plot),
            lo_corner(old(player).first(), old(player).second()),
            extent(old(player).first(), old(player).second()),
            Some(pattern.parts@),
            match mask {
                Some(m) => Some(m.parts@),
                None => None,
            },
        ) && final(player).first_position == old(player).first_position
            && final(player).second_position == old(player).second_position
            && final(player).worldedit_clipboard == old(player).worldedit_clipboard,
{
    let first_pos = player.first_position.unwrap();
    let second_pos = player.second_position.unwrap();
    if selection_volume(first_pos, second_pos) > MAX_VOLUME as u128 {
        return Feedback::SelectionTooLarge;
    }
    capture_undo(plot, &mut player.worldedit_undo, first_pos, second_pos);
    let mut operation = WorldEditOperation::new(first_pos, second_pos);
    let changed = fill_region(plot, first_pos, second_pos, Some(pattern), mask, &mut operation);
    let ghost filled = *plot;
    worldedit_send_operation(plot, &operation);
    proof {
        lemma_send_marks(filled.dirty(), operation.records@, lo_corner(first_pos, second_pos), hi_corner(first_pos, second_pos));
        assert forall|c: Coord| #![auto] plot.cell(c) == filled.cell(c) by {}
        lemma_count_changed_eq(*old(plot), filled, *plot, lo_corner(first_pos, second_pos), extent(first_pos, second_pos), volume(extent(first_pos, second_pos)));
    }
    Feedback::OperationCompleted(changed)
}

/// What `execute_set` does: its result and its effect on the plot and the user.
pub open spec fn set_effect(plot_before: Plot, plot_after: Plot, user_before: Player, user_after: Player, pattern: WorldEditPattern, fb: Feedback) -> bool {
    &&& !(fb is ArgumentError)
    &&& plot_after.wf()
    &&& user_after.wf()
    &&& !selection_fits(user_before.first(), user_before.second()) ==> fb == Feedback::SelectionTooLarge
            && user_after == user_before && plot_after == plot_before
    &&& selection_fits(user_before.first(), user_before.second()) ==> fb == Feedback::OperationCompleted(
            count_changed(
                plot_before,
                plot_after,
                lo_corner(user_before.first(), user_before.second()),
                extent(user_before.first(), user_before.second()),
                volume(extent(user_before.first(), user_before.second())),
            ) as u64,
        ) && marks_footprint(
            plot_before.dirty(),
            plot_after.dirty(),
            lo_corner(user_before.first(), user_before.second()),
            hi_corner(user_before.first(), user_before.second()),
        ) && pushes_undo(user_before, user_after, plot_before, user_before.first(), user_before.second())
            && fills(
            plot_before,
            plot_after,
            lo_corner(user_before.first(), user_before.second()),
            extent(user_before.first(), user_before.second()),
            Some(pattern.parts@),
            None,
        )
}

/// Sets every cell of the selection to a block drawn from the pattern.
pub fn execute_set(plot: &mut Plot, player: &mut Player, pattern: &WorldEditPattern) -> (fb: Feedback)
    requires
        old(plot).wf(),
        old(player).wf(),
        old(player).has_selection(),
        pattern.wf(),
    ensures
        set_effect(*old(plot), *final(plot), *old(player), *final(player), *pattern, fb),
{
    edit_region(plot, player, pattern, None)
}

/// What `execute_replace` does: its result and its effect on the plot and the user.
pub open spec fn replace_effect(plot_before: Plot, plot_after: Plot, user_before: Player, user_after: Player, mask: WorldEditPattern, pattern: WorldEditPattern, fb: Feedback) -> bool {
    &&& !(fb is ArgumentError)
    &&& plot_after.wf()
    &&& user_after.wf()
    &&& !selection_fits(user_before.first(), user_before.second()) ==> fb == Feedback::SelectionTooLarge
            && user_after == user_before && plot_after == plot_before
    &&& selection_fits(user_before.first(), user_before.second()) ==> fb == Feedback::OperationCompleted(
            count_changed(
                plot_before,
                plot_after,
                lo_corner(user_before.first(), user_before.second()),
                extent(user_before.first(), user_before.second()),
                volume(extent(user_before.first(), user_before.second())),
            ) as u64,
        ) && marks_footprint(
            plot_before.dirty(),
            plot_after.dirty(),
            lo_corner(user_before.first(), user_before.second()),
            hi_corner(user_before.first(), user_before.second()),
        ) && pushes_undo(user_before, user_after, plot_before, user_before.first(), user_before.second())
            && fills(
            plot_before,
            plot_after,
            lo_corner(user_before.first(), user_before.second()),
            extent(user_before.first(), user_before.second()),
            Some(pattern.parts@),
            Some(mask.parts@),
        )
}

/// Replaces the cells of the selection whose block the mask lists with
/// blocks drawn from the pattern.
pub fn execute_replace(
    plot: &mut Plot,
    player: &mut Player,
    mask: &WorldEditPattern,
    pattern: &WorldEditPattern,
) -> (fb: Feedback)
    requires
        old(plot).wf(),
        old(player).wf(),
        old(player).has_selection(),
        pattern.wf(),
    ensures
        replace_effect(*old(plot), *final(plot), *old(player), *final(player), *mask, *pattern, fb),
{
    edit_region(plot, player, pattern, Some(mask))
}

/// What `execute_count` does: its result and its effect on the plot and the user.
pub open spec fn count_effect(plot_before: Plot, user_before: Player, mask: WorldEditPattern, fb: Feedback) -> bool {
    &&& !(fb is ArgumentError)
    &&& !selection_fits(user_before.first(), user_before.second()) ==> fb == Feedback::SelectionTooLarge
    &&& selection_fits(user_before.first(), user_before.second()) ==> fb == Feedback::Counted(
            count_matching(
                plot_before,
                lo_corner(user_before.first(), user_before.second()),
                extent(user_before.first(), user_before.second()),
                mask.parts@,
                volume(extent(user_before.first(), user_before.second())),
            ) as u64,
        )
}

/// Counts the cells of the selection whose block the mask lists.
pub fn execute_count(plot: &Plot, player: &Player, mask: &WorldEditPattern) -> (fb: Feedback)
    requires
        plot.wf(),
        player.has_selection(),
    ensures
        count_effect(*plot, *player, *mask, fb),
{
    let first_pos = player.first_position.unwrap();
    let second_pos = player.second_position.unwrap();
    if selection_volume(first_pos, second_pos) > MAX_VOLUME as u128 {
        return Feedback::SelectionTooLarge;
    }
    Feedback::Counted(count_region(plot, first_pos, second_pos, mask))
}

/// What `execute_cut` does: its result and its effect on the plot and the user.
pub open spec fn cut_effect(plot_before: Plot, plot_after: Plot, user_before: Player, user_after: Player, fb: Feedback) -> bool {
    &&& !(fb is ArgumentError)
    &&& plot_after.wf()
    &&& user_after.wf()
    &&& fb == Feedback::Cut <==> selection_fits(user_before.first(), user_before.second()) && fits_pos(
            coord_sub(user_before.position.at(), lo_corner(user_before.first(), user_before.second())),
        )
    &&& fb != Feedback::Cut ==> user_after == user_before && plot_after == plot_before
    &&& fb == Feedback::Cut ==> user_after.worldedit_clipboard.is_some() && captures(
            user_after.worldedit_clipboard.unwrap(),
            plot_before,
            user_before.position,
            user_before.first(),
            user_before.second(),
        ) && pushes_undo(user_before, user_after, plot_before, user_before.first(), user_before.second())
            && fills(
            plot_before,
            plot_after,
            lo_corner(user_before.first(), user_before.second()),
            extent(user_before.first(), user_before.second()),
            None,
            None,
        ) && marks_footprint(
            plot_before.dirty(),
            plot_after.dirty(),
            lo_corner(user_before.first(), user_before.second()),
            hi_corner(user_before.first(), user_before.second()),
        )
}

/// Copies the selection to the clipboard, anchored at the user's cell, and
/// clears it (after pushing an undo entry for it).
pub fn execute_cut(plot: &mut Plot, player: &mut Player) -> (fb: Feedback)
    requires
        old(plot).wf(),
        old(player).wf(),
        old(player).has_selection(),
    ensures
        cut_effect(*old(plot), *final(plot), *old(player), *final(player), fb),
{
    let first_pos = player.first_position.unwrap();
    let second_pos = player.second_position.unwrap();
    if selection_volume(first_pos, second_pos) > MAX_VOLUME as u128 {
        return Feedback::SelectionTooLarge;
    }
    if !offset_fits(player.position, first_pos, second_pos) {
        return Feedback::OutOfRange;
    }
    let clipboard = create_clipboard(plot, player.position, first_pos, second_pos);
    capture_undo(plot, &mut player.worldedit_undo, first_pos, second_pos);
    player.worldedit_clipboard = Some(clipboard);
    clear_area(plot, first_pos, second_pos);
    Feedback::Cut
}

/// What `execute_paste` does: its result and its effect on the plot and the user.
pub open spec fn paste_effect(plot_before: Plot, plot_after: Plot, user_before: Player, user_after: Player, ignore_air: bool, fb: Feedback) -> bool {
    &&& !(fb is ArgumentError)
    &&& plot_after.wf()
    &&& user_after.wf()
    &&& fb == Feedback::Pasted <==> paste_fits(user_before.worldedit_clipboard.unwrap(), user_before.position)
    &&& fb != Feedback::Pasted ==> fb == Feedback::OutOfRange && user_after == user_before
            && plot_after == plot_before
    &&& fb == Feedback::Pasted ==> pastes(
            plot_before,
            user_before.worldedit_clipboard.unwrap(),
            user_before.position,
            ignore_air,
            plot_after,
        )
    &&& fb == Feedback::Pasted && volume(user_before.worldedit_clipboard.unwrap().size()) == 0 ==> plot_after
            == plot_before && user_after == user_before
    &&& fb == Feedback::Pasted && volume(user_before.worldedit_clipboard.unwrap().size()) > 0 ==> pushes_undo(
            user_before,
            user_after,
            plot_before,
            block_at(paste_origin(user_before.worldedit_clipboard.unwrap(), user_before.position)),
            block_at(
                paste_far(
                    user_before.worldedit_clipboard.unwrap(),
                    paste_origin(user_before.worldedit_clipboard.unwrap(), user_before.position),
                ),
            ),
        ) && user_after.worldedit_clipboard == user_before.worldedit_clipboard && marks_footprint(
            plot_before.dirty(),
            plot_after.dirty(),
            paste_origin(user_before.worldedit_clipboard.unwrap(), user_before.position),
            paste_far(
                user_before.worldedit_clipboard.unwrap(),
                paste_origin(user_before.worldedit_clipboard.unwrap(), user_before.position),
            ),
        )
}

/// Pastes the clipboard with its anchor at the user's cell, after pushing an
/// undo entry for the cuboid it covers. With `ignore_air`, empty cells of the
/// clipboard leave the world alone.
pub fn execute_paste(plot: &mut Plot, player: &mut Player, ignore_air: bool) -> (fb: Feedback)
    requires
        old(plot).wf(),
        old(player).wf(),
        old(player).worldedit_clipboard.is_some(),
    ensures
        paste_effect(*old(plot), *final(plot), *old(player), *final(player), ignore_air, fb),
{
    let cb = match &player.worldedit_clipboard {
        Some(c) => c.duplicate(),
        None => vstd::pervasive::unreached(),
    };
    let pos = player.position;
    if !paste_in_range(&cb, pos) {
        return Feedback::OutOfRange;
    }
    if cb.data.entries() == 0 {
        proof {
            lemma_empty_snapshot(cb);
            assert(old(plot).block_entities@.union_prefer_right(shifted_entities(cb.block_entities@, paste_origin(cb, pos)))
                =~= old(plot).block_entities@);
        }
        return Feedback::Pasted;
    }
    proof {
        lemma_nonempty_snapshot(cb);
        lemma_sides_bounded(cb.size());
    }
    let dest = BlockPos::new(pos.x - cb.offset_x, pos.y - cb.offset_y, pos.z - cb.offset_z);
    let far = BlockPos::new(
        dest.x + (cb.size_x - 1) as i32,
        dest.y + (cb.size_y - 1) as i32,
        dest.z + (cb.size_z - 1) as i32,
    );
    proof {
        assert(extent(dest, far) == cb.size());
        assert(dest == block_at(paste_origin(cb, pos)));
        assert(far == block_at(paste_far(cb, paste_origin(cb, pos))));
    }
    capture_undo(plot, &mut player.worldedit_undo, dest, far);
    paste_clipboard(plot, &cb, pos, ignore_air);
    Feedback::Pasted
}

/// What `execute_undo` does: its result and its effect on the plot and the user.
pub open spec fn undo_effect(plot_before: Plot, plot_after: Plot, user_before: Player, user_after: Player, fb: Feedback) -> bool {
    &&& !(fb is ArgumentError)
    &&& plot_after.wf()
    &&& user_after.wf()
    &&& user_after.worldedit_clipboard == user_before.worldedit_clipboard
    &&& user_before.worldedit_undo@.len() == 0 ==> fb == Feedback::NothingToUndo && plot_after == plot_before
            && user_after.worldedit_undo@ == user_before.worldedit_undo@
    &&& user_after.first_position == user_before.first_position
    &&& user_after.second_position == user_before.second_position
    &&& same_position(user_before, user_after)
    &&& user_before.worldedit_undo@.len() > 0 ==> user_after.worldedit_undo@ == user_before.worldedit_undo@.drop_last()
    &&& user_before.worldedit_undo@.len() > 0 && (user_before.worldedit_undo@.last().plot_x != plot_before.x
            || user_before.worldedit_undo@.last().plot_z != plot_before.z) ==> fb == Feedback::UndoOutsidePlot
            && plot_after == plot_before
    &&& user_before.worldedit_undo@.len() > 0 && user_before.worldedit_undo@.last().plot_x == plot_before.x
            && user_before.worldedit_undo@.last().plot_z == plot_before.z ==> fb == Feedback::Undone && pastes(
            plot_before,
            user_before.worldedit_undo@.last().clipboard,
            user_before.worldedit_undo@.last().pos,
            false,
            plot_after,
        ) && marks_footprint(
            plot_before.dirty(),
            plot_after.dirty(),
            paste_origin(user_before.worldedit_undo@.last().clipboard, user_before.worldedit_undo@.last().pos),
            paste_far(
                user_before.worldedit_undo@.last().clipboard,
                paste_origin(user_before.worldedit_undo@.last().clipboard, user_before.worldedit_undo@.last().pos),
            ),
        )
}

/// Replays the latest undo entry.
pub fn execute_undo(plot: &mut Plot, player: &mut Player) -> (fb: Feedback)
    requires
        old(plot).wf(),
        old(player).wf(),
    ensures
        undo_effect(*old(plot), *final(plot), *old(player), *final(player), fb),
{
    match undo(plot, &mut player.worldedit_undo) {
        Ok(()) => Feedback::Undone,
        Err(UndoError::NothingToUndo) => Feedback::NothingToUndo,
        Err(UndoError::OutsideOfPlot) => Feedback::UndoOutsidePlot,
    }
}

/// The id a cell holds after the cuboid at `lo` of the given size is moved
/// so its low corner lands at `dest`: the source is cleared first, then the
/// moved cells are written (skipping empty ones with `ignore_air`).
pub open spec fn moved_cell(before: Plot, lo: Coord, size: Coord, dest: Coord, ignore_air: bool, c: Coord) -> u32 {
    let src = coord_add(lo, coord_sub(c, dest));
    if before.in_bounds(c) && in_extent(coord_sub(c, dest), size) && !(ignore_air && before.cell(src) == 0) {
        before.cell(src)
    } else if before.in_bounds(c) && in_extent(coord_sub(c, lo), size) {
        0
    } else {
        before.cell(c)
    }
}

/// The position with the given coordinates.
pub open spec fn block_at(c: Coord) -> BlockPos {
    BlockPos { x: c.0 as i32, y: c.1 as i32, z: c.2 as i32 }
}

/// The corners of the smallest cuboid holding both the selection and the
/// place a move of `amount` cells along `direction` takes it to.
pub open spec fn move_hull(player: Player, amount: u32, direction: BlockFacing) -> (Coord, Coord) {
    let lo = lo_corner(player.first(), player.second());
    let hi = hi_corner(player.first(), player.second());
    let size = extent(player.first(), player.second());
    let dest = direction.offset_spec(lo, amount as int);
    let far = coord_add(dest, coord_sub(size, (1, 1, 1)));
    (
        (coord_min(lo.0, dest.0), coord_min(lo.1, dest.1), coord_min(lo.2, dest.2)),
        (coord_max(hi.0, far.0), coord_max(hi.1, far.1), coord_max(hi.2, far.2)),
    )
}

/// Whether moving the selection by `amount` cells along `direction` is
/// possible: the selection is small enough and every position involved stays
/// in the `i32` range.
pub open spec fn move_fits(player: Player, amount: u32, direction: BlockFacing, shift: bool) -> bool {
    let lo = lo_corner(player.first(), player.second());
    let size = extent(player.first(), player.second());
    let dest = direction.offset_spec(lo, amount as int);
    &&& amount <= i32::MAX
    &&& selection_fits(player.first(), player.second())
    &&& fits_pos(dest)
    &&& fits_pos(coord_add(dest, coord_sub(size, (1, 1, 1))))
    &&& shift ==> fits_pos(direction.offset_spec(player.first().at(), amount as int)) && fits_pos(
        direction.offset_spec(player.second().at(), amount as int),
    )
    &&& selection_fits(block_at(move_hull(player, amount, direction).0), block_at(move_hull(player, amount, direction).1))
}

/// What `execute_move` does: its result and its effect on the plot and the user.
pub open spec fn move_effect(plot_before: Plot, plot_after: Plot, user_before: Player, user_after: Player, amount: u32, direction: BlockFacing, ignore_air: bool, shift: bool, fb: Feedback) -> bool {
    &&& !(fb is ArgumentError)
    &&& plot_after.wf()
    &&& user_after.wf()
    &&& fb == Feedback::Moved <==> move_fits(user_before, amount, direction, shift)
    &&& fb != Feedback::Moved ==> plot_after == plot_before && user_after == user_before
    &&& fb == Feedback::Moved ==> {
            let lo = lo_corner(user_before.first(), user_before.second());
            let size = extent(user_before.first(), user_before.second());
            let dest = direction.offset_spec(lo, amount as int);
            &&& forall|c: Coord|
                #![trigger plot_after.cell(c)]
                plot_after.cell(c) == moved_cell(plot_before, lo, size, dest, ignore_air, c)
            &&& plot_after.block_entities@ == plot_before.block_entities@.union_prefer_right(
                shifted_entities(captured_entities(plot_before.block_entities@, lo, size), dest),
            )
            &&& shift ==> user_after.first_position.unwrap().at() == direction.offset_spec(
                user_before.first().at(),
                amount as int,
            ) && user_after.second_position.unwrap().at() == direction.offset_spec(
                user_before.second().at(),
                amount as int,
            )
            &&& !shift ==> user_after.first_position == user_before.first_position
                && user_after.second_position == user_before.second_position
            &&& exists|mid: Seq<(i32, i32)>|
                #[trigger] marks_footprint(plot_before.dirty(), mid, lo, hi_corner(user_before.first(), user_before.second()))
                    && marks_footprint(mid, plot_after.dirty(), dest, coord_add(dest, coord_sub(size, (1, 1, 1))))
            &&& same_position(user_before, user_after)
            &&& pushes_undo(
                user_before,
                user_after,
                plot_before,
                block_at(move_hull(user_before, amount, direction).0),
                block_at(move_hull(user_before, amount, direction).1),
            )
            &&& user_after.worldedit_clipboard == user_before.worldedit_clipboard
        }
}

/// Moves the contents of the selection `amount` cells along `direction`,
/// after pushing an undo entry for the cuboid spanning source and
/// destination; with `shift`, the selection corners move along.
pub fn execute_move(
    plot: &mut Plot,
    player: &mut Player,
    amount: u32,
    direction: BlockFacing,
    ignore_air: bool,
    shift: bool,
) -> (fb: Feedback)
    requires
        old(plot).wf(),
        old(player).wf(),
        old(player).has_selection(),
    ensures
        move_effect(*old(plot), *final(plot), *old(player), *final(player), amount, direction, ignore_air, shift, fb),
{
    let first_pos = player.first_position.unwrap();
    let second_pos = player.second_position.unwrap();
    if amount > i32::MAX as u32 {
        return Feedback::OutOfRange;
    }
    if selection_volume(first_pos, second_pos) > MAX_VOLUME as u128 {
        return Feedback::SelectionTooLarge;
    }
    let lo = first_pos.min(second_pos);
    let dest = match direction.offset_pos(lo, amount as i32) {
        Some(d) => d,
        None => return Feedback::OutOfRange,
    };
    let clipboard = create_clipboard(plot, lo, first_pos, second_pos);
    if !paste_in_range(&clipboard, dest) {
        return Feedback::OutOfRange;
    }
    let mut new_first = first_pos;
    let mut new_second = second_pos;
    if shift {
        new_first = match direction.offset_pos(first_pos, amount as i32) {
            Some(p) => p,
            None => return Feedback::OutOfRange,
        };
        new_second = match direction.offset_pos(second_pos, amount as i32) {
            Some(p) => p,
            None => return Feedback::OutOfRange,
        };
    }
    proof {
        lemma_sides_bounded(clipboard.size());
    }
    let far = BlockPos::new(
        dest.x + (clipboard.size_x - 1) as i32,
        dest.y + (clipboard.size_y - 1) as i32,
        dest.z + (clipboard.size_z - 1) as i32,
    );
    let hull_lo = lo.min(dest);
    let hull_hi = first_pos.max(second_pos).max(far);
    proof {
        assert(hull_lo == block_at(move_hull(*old(player), amount, direction).0));
        assert(hull_hi == block_at(move_hull(*old(player), amount, direction).1));
    }
    if selection_volume(hull_lo, hull_hi) > MAX_VOLUME as u128 {
        return Feedback::SelectionTooLarge;
    }
    capture_undo(plot, &mut player.worldedit_undo, hull_lo, hull_hi);
    let ghost before = *plot;
    clear_area(plot, first_pos, second_pos);
    let ghost mid = *plot;
    proof {
        lemma_extent_nonempty(first_pos, second_pos);
    }
    paste_clipboard(plot, &clipboard, dest, ignore_air);
    proof {
        assert(marks_footprint(before.dirty(), mid.dirty(), lo_corner(first_pos, second_pos), hi_corner(first_pos, second_pos)));
        assert(paste_far(clipboard, paste_origin(clipboard, dest)) == coord_add(dest.at(), coord_sub(extent(first_pos, second_pos), (1, 1, 1))));
        assert(marks_footprint(mid.dirty(), plot.dirty(), dest.at(), coord_add(dest.at(), coord_sub(extent(first_pos, second_pos), (1, 1, 1)))));
    }
    proof {
        let lo_c = lo_corner(first_pos, second_pos);
        let size = extent(first_pos, second_pos);
        assert(paste_origin(clipboard, dest) == dest.at());
        assert forall|c: Coord| #![trigger plot.cell(c)]
            plot.cell(c) == moved_cell(before, lo_c, size, dest.at(), ignore_air, c) by {
            let e = coord_sub(c, dest.at());
            if in_extent(e, size) {
                assert(clipboard.cell(e) == before.cell(coord_add(lo_c, e)));
            }
            assert(mid.cell(c) == (if before.in_bounds(c) && in_extent(coord_sub(c, lo_c), size) { 0 } else { before.cell(c) }));
        }
    }
    if shift {
        player.first_position = Some(new_first);
        player.second_position = Some(new_second);
    }
    Feedback::Moved
}

/// The id a cell holds after copies of the cuboid at `lo` (as `before` has it)
/// are pasted in turn with their low corners at `dests`.
pub open spec fn stacked_cell(
    before: Plot,
    lo: Coord,
    size: Coord,
    dests: Seq<Coord>,
    ignore_air: bool,
    c: Coord,
) -> u32
    decreases dests.len(),
{
    if dests.len() == 0 {
        before.cell(c)
    } else {
        let d = dests.last();
        let src = coord_add(lo, coord_sub(c, d));
        if before.in_bounds(c) && in_extent(coord_sub(c, d), size) && !(ignore_air && before.cell(src) == 0) {
            before.cell(src)
        } else {
            stacked_cell(before, lo, size, dests.drop_last(), ignore_air, c)
        }
    }
}

/// The block entities after copies whose entities are `copied` (keyed
/// relative to their low corner) are pasted in turn at `dests` over `before`.
pub open spec fn stacked_entities(
    before: Map<Coord, Seq<u8>>,
    copied: Map<Coord, Seq<u8>>,
    dests: Seq<Coord>,
) -> Map<Coord, Seq<u8>>
    decreases dests.len(),
{
    if dests.len() == 0 {
        before
    } else {
        stacked_entities(before, copied, dests.drop_last()).union_prefer_right(
            shifted_entities(copied, dests.last()),
        )
    }
}

/// How far apart the copies of a stack along `direction` lie: the selection's
/// length on that axis.
pub open spec fn stack_step(direction: BlockFacing, size: Coord) -> int {
    match direction {
        BlockFacing::North | BlockFacing::South => size.2,
        BlockFacing::East | BlockFacing::West => size.0,
        BlockFacing::Up | BlockFacing::Down => size.1,
    }
}

/// The low corners of the `count` copies a stack pastes, nearest first.
pub open spec fn stack_dests(lo: Coord, size: Coord, direction: BlockFacing, count: int) -> Seq<Coord> {
    Seq::new(count as nat, |j: int| direction.offset_spec(lo, (j + 1) * stack_step(direction, size)))
}

/// Whether copy `j` (counted from 0) of a stack along `direction` lies within
/// the `i32` range: its distance, its anchor and both corners of its cuboid.
pub open spec fn stack_copy_fits(player: Player, direction: BlockFacing, j: int) -> bool {
    let lo = lo_corner(player.first(), player.second());
    let size = extent(player.first(), player.second());
    let n = (j + 1) * stack_step(direction, size);
    let dest = direction.offset_spec(lo, n);
    &&& n <= i32::MAX
    &&& fits_pos(direction.offset_spec(player.first().at(), n))
    &&& fits_pos(dest)
    &&& fits_pos(coord_add(dest, coord_sub(size, (1, 1, 1))))
}

/// The corners of the smallest cuboid holding the selection and all `count`
/// copies of a stack along `direction`.
pub open spec fn stack_hull(player: Player, count: u32, direction: BlockFacing) -> (Coord, Coord) {
    let lo = lo_corner(player.first(), player.second());
    let hi = hi_corner(player.first(), player.second());
    let size = extent(player.first(), player.second());
    let dest = direction.offset_spec(lo, count * stack_step(direction, size));
    let far = coord_add(dest, coord_sub(size, (1, 1, 1)));
    (
        (coord_min(lo.0, dest.0), coord_min(lo.1, dest.1), coord_min(lo.2, dest.2)),
        (coord_max(hi.0, far.0), coord_max(hi.1, far.1), coord_max(hi.2, far.2)),
    )
}

/// Whether every copy of a stack of `count` copies along `direction` lies in
/// the `i32` range.
pub open spec fn stack_copies_fit(player: Player, count: u32, direction: BlockFacing) -> bool {
    forall|j: int| 0 <= j < count ==> #[trigger] stack_copy_fits(player, direction, j)
}

/// Whether stacking `count` copies along `direction` is possible: the
/// selection, and the cuboid holding it and its copies, are small enough, and
/// every copy lies in the `i32` range.
pub open spec fn stack_fits(player: Player, count: u32, direction: BlockFacing) -> bool {
    &&& selection_fits(player.first(), player.second())
    &&& stack_copies_fit(player, count, direction)
    &&& count > 0 ==> selection_fits(
        block_at(stack_hull(player, count, direction).0),
        block_at(stack_hull(player, count, direction).1),
    )
}

/// What `execute_stack` does: its result and its effect on the plot and the user.
pub open spec fn stack_effect(plot_before: Plot, plot_after: Plot, user_before: Player, user_after: Player, count: u32, direction: BlockFacing, ignore_air: bool, fb: Feedback) -> bool {
    &&& !(fb is ArgumentError)
    &&& plot_after.wf()
    &&& user_after.wf()
    &&& fb == Feedback::Stacked <==> stack_fits(user_before, count, direction)
    &&& fb == Feedback::SelectionTooLarge <==> !selection_fits(user_before.first(), user_before.second()) || (
    stack_copies_fit(user_before, count, direction) && !stack_fits(user_before, count, direction))
    &&& fb == Feedback::OutOfRange <==> selection_fits(user_before.first(), user_before.second()) && !stack_copies_fit(
        user_before,
        count,
        direction,
    )
    &&& fb != Feedback::Stacked ==> plot_after == plot_before && user_after == user_before
    &&& fb == Feedback::Stacked && count == 0 ==> user_after == user_before
    &&& fb == Feedback::Stacked && count > 0 ==> same_position(user_before, user_after) && user_after.first_position == user_before.first_position
        && user_after.second_position == user_before.second_position && user_after.worldedit_clipboard == user_before.worldedit_clipboard
        && pushes_undo(
        user_before,
        user_after,
        plot_before,
        block_at(stack_hull(user_before, count, direction).0),
        block_at(stack_hull(user_before, count, direction).1),
    )
    &&& fb == Feedback::Stacked ==> forall|c: Coord|
            #![trigger plot_after.cell(c)]
            plot_after.cell(c) == stacked_cell(
                plot_before,
                lo_corner(user_before.first(), user_before.second()),
                extent(user_before.first(), user_before.second()),
                stack_dests(
                    lo_corner(user_before.first(), user_before.second()),
                    extent(user_before.first(), user_before.second()),
                    direction,
                    count as int,
                ),
                ignore_air,
                c,
            )
    &&& fb == Feedback::Stacked ==> plot_after.block_entities@ == stacked_entities(
        plot_before.block_entities@,
        captured_entities(
            plot_before.block_entities@,
            lo_corner(user_before.first(), user_before.second()),
            extent(user_before.first(), user_before.second()),
        ),
        stack_dests(
            lo_corner(user_before.first(), user_before.second()),
            extent(user_before.first(), user_before.second()),
            direction,
            count as int,
        ),
    )
    &&& fb == Feedback::Stacked ==> plot_after.dirty().len() >= plot_before.dirty().len()
        && plot_after.dirty().subrange(0, plot_before.dirty().len() as int) == plot_before.dirty()
        && forall|j: int|
        0 <= j < count ==> dirty_covers(
            plot_after.dirty().subrange(plot_before.dirty().len() as int, plot_after.dirty().len() as int),
            #[trigger] stack_dests(
                lo_corner(user_before.first(), user_before.second()),
                extent(user_before.first(), user_before.second()),
                direction,
                count as int,
            )[j],
            coord_add(
                stack_dests(
                    lo_corner(user_before.first(), user_before.second()),
                    extent(user_before.first(), user_before.second()),
                    direction,
                    count as int,
                )[j],
                coord_sub(extent(user_before.first(), user_before.second()), (1, 1, 1)),
            ),
        )
}

/// Copies nearer than one that fits fit too: every copy lies between the
/// selection and the farther copy along one axis.
pub proof fn lemma_stack_copy_monotone(player: Player, direction: BlockFacing, j: int, count: int)
    requires
        0 <= j < count,
        stack_copy_fits(player, direction, count - 1),
        selection_fits(player.first(), player.second()),
    ensures
        stack_copy_fits(player, direction, j),
{
    let size = extent(player.first(), player.second());
    let step = stack_step(direction, size);
    assert(size.0 >= 1 && size.1 >= 1 && size.2 >= 1);
    assert(step >= 1);
    assert(0 <= (j + 1) * step <= count * step) by (nonlinear_arith)
        requires 0 <= j < count, step >= 1;
}

/// Repeats the contents of the selection `count` times along `direction`,
/// each copy right after the previous one.
pub fn execute_stack(
    plot: &mut Plot,
    player: &mut Player,
    count: u32,
    direction: BlockFacing,
    ignore_air: bool,
) -> (fb: Feedback)
    requires
        old(plot).wf(),
        old(player).wf(),
        old(player).has_selection(),
    ensures
        stack_effect(*old(plot), *final(plot), *old(player), *final(player), count, direction, ignore_air, fb),
{
    let first_pos = player.first_position.unwrap();
    let second_pos = player.second_position.unwrap();
    if selection_volume(first_pos, second_pos) > MAX_VOLUME as u128 {
        return Feedback::SelectionTooLarge;
    }
    proof {
        lemma_sides_bounded(extent(first_pos, second_pos));
    }
    if !offset_fits(first_pos, first_pos, second_pos) {
        return Feedback::OutOfRange;
    }
    let clipboard = create_clipboard(plot, first_pos, first_pos, second_pos);
    let ghost lo = lo_corner(first_pos, second_pos);
    let ghost size = extent(first_pos, second_pos);
    let lo_pos = first_pos.min(second_pos);
    let lo_x = lo_pos.x;
    let lo_y = lo_pos.y;
    let lo_z = lo_pos.z;
    proof {
        lemma_sides_bounded(size);
    }
    let step: u32 = match direction {
        BlockFacing::North | BlockFacing::South => clipboard.size_z,
        BlockFacing::East | BlockFacing::West => clipboard.size_x,
        BlockFacing::Up | BlockFacing::Down => clipboard.size_y,
    };
    if count == 0 {
        proof {
            assert(stack_dests(lo, size, direction, 0) =~= Seq::<Coord>::empty());
            assert(plot.dirty().subrange(0, plot.dirty().len() as int) =~= plot.dirty());
        }
        return Feedback::Stacked;
    }
    proof {
        assert((count as int) * step as int <= 0x1_0000_0000 * 0x8000_0000) by (nonlinear_arith)
            requires count <= u32::MAX, step <= MAX_VOLUME;
    }
    let reach: u64 = count as u64 * step as u64;
    if reach > i32::MAX as u64 {
        proof {
            assert(!stack_copy_fits(*old(player), direction, count - 1));
        }
        return Feedback::OutOfRange;
    }
    let last = match direction.offset_pos(first_pos, reach as i32) {
        Some(t) => t,
        None => {
            proof {
                assert(!stack_copy_fits(*old(player), direction, count - 1));
            }
            return Feedback::OutOfRange;
        },
    };
    proof {
        assert(paste_origin(clipboard, last) == direction.offset_spec(lo, reach as int));
    }
    if !paste_in_range(&clipboard, last) {
        proof {
            assert(!stack_copy_fits(*old(player), direction, count - 1));
        }
        return Feedback::OutOfRange;
    }
    proof {
        assert(stack_copy_fits(*old(player), direction, count - 1));
        assert forall|j: int| 0 <= j < count implies #[trigger] stack_copy_fits(*old(player), direction, j) by {
            lemma_stack_copy_monotone(*old(player), direction, j, count as int);
        }
    }
    let far = BlockPos::new(
        last.x - first_pos.x + lo_x + (clipboard.size_x - 1) as i32,
        last.y - first_pos.y + lo_y + (clipboard.size_y - 1) as i32,
        last.z - first_pos.z + lo_z + (clipboard.size_z - 1) as i32,
    );
    let dest_last = BlockPos::new(last.x - first_pos.x + lo_x, last.y - first_pos.y + lo_y, last.z - first_pos.z + lo_z);
    let hull_lo = lo_pos.min(dest_last);
    let hull_hi = first_pos.max(second_pos).max(far);
    proof {
        assert(hull_lo == block_at(stack_hull(*old(player), count, direction).0));
        assert(hull_hi == block_at(stack_hull(*old(player), count, direction).1));
    }
    if selection_volume(hull_lo, hull_hi) > MAX_VOLUME as u128 {
        return Feedback::SelectionTooLarge;
    }
    capture_undo(plot, &mut player.worldedit_undo, hull_lo, hull_hi);
    let ghost captured = *player;
    let ghost dests = stack_dests(lo, size, direction, count as int);
    let ghost plot0 = *old(plot);
    let mut k: u32 = 0;
    proof {
        assert forall|c: Coord| #![trigger plot.cell(c)]
            plot.cell(c) == stacked_cell(plot0, lo, size, dests.subrange(0, 0), ignore_air, c) by {}
    }
    while k < count
        invariant
            plot.wf(),
            plot.x == plot0.x,
            plot.z == plot0.z,
            clipboard.wf(),
            *player == captured,
            first_pos == old(player).first(),
            second_pos == old(player).second(),
            lo == lo_corner(first_pos, second_pos),
            size == extent(first_pos, second_pos),
            dests == stack_dests(lo, size, direction, count as int),
            captures(clipboard, plot0, first_pos, first_pos, second_pos),
            size == clipboard.size(),
            step as int == stack_step(direction, size),
            step <= MAX_VOLUME,
            dests.len() == count,
            k <= count,
            stack_fits(*old(player), count, direction),
            forall|c: Coord|
                #![trigger plot.cell(c)]
                plot.cell(c) == stacked_cell(plot0, lo, size, dests.subrange(0, k as int), ignore_air, c),
            plot.block_entities@ == stacked_entities(
                plot0.block_entities@,
                clipboard.block_entities@,
                dests.subrange(0, k as int),
            ),
            clipboard.block_entities@ == captured_entities(plot0.block_entities@, lo, size),
            plot.dirty().len() >= plot0.dirty().len(),
            plot.dirty().subrange(0, plot0.dirty().len() as int) == plot0.dirty(),
            forall|j: int|
                0 <= j < k ==> dirty_covers(
                    plot.dirty().subrange(plot0.dirty().len() as int, plot.dirty().len() as int),
                    #[trigger] dests[j],
                    coord_add(dests[j], coord_sub(size, (1, 1, 1))),
                ),
        decreases count - k,
    {
        proof {
            assert(stack_copy_fits(*old(player), direction, k as int));
            assert((k as int + 1) * step as int <= 0x1_0000_0000 * 0x8000_0000) by (nonlinear_arith)
                requires k < count, count <= u32::MAX, step <= MAX_VOLUME;
        }
        let n: u64 = (k as u64 + 1) * step as u64;
        let target = match direction.offset_pos(first_pos, n as i32) {
            Some(t) => t,
            None => vstd::pervasive::unreached(),
        };
        proof {
            assert(paste_origin(clipboard, target) == direction.offset_spec(lo, n as int));
            assert(paste_fits(clipboard, target));
        }
        let ghost prev = *plot;
        paste_clipboard(plot, &clipboard, target, ignore_air);
        proof {
            let d = dests[k as int];
            assert(d == paste_origin(clipboard, target));
            assert(dests.subrange(0, k + 1).drop_last() =~= dests.subrange(0, k as int));
            assert(dests.subrange(0, k + 1).last() == d);
            assert forall|c: Coord| #![trigger plot.cell(c)]
                plot.cell(c) == stacked_cell(plot0, lo, size, dests.subrange(0, k + 1), ignore_air, c) by {
                let e = coord_sub(c, d);
                if in_extent(e, size) {
                    assert(clipboard.cell(e) == plot0.cell(coord_add(lo, e)));
                }
                assert(prev.cell(c) == stacked_cell(plot0, lo, size, dests.subrange(0, k as int), ignore_air, c));
            }
            let l0 = plot0.dirty().len() as int;
            let old_part = prev.dirty().subrange(l0, prev.dirty().len() as int);
            let tail = plot.dirty().subrange(prev.dirty().len() as int, plot.dirty().len() as int);
            lemma_extent_nonempty(first_pos, second_pos);
            assert(plot.dirty() =~= prev.dirty() + tail);
            assert(plot.dirty().subrange(l0, plot.dirty().len() as int) =~= old_part + tail);
            assert(plot.dirty().subrange(0, l0) =~= prev.dirty().subrange(0, l0));
            let far = coord_add(d, coord_sub(size, (1, 1, 1)));
            assert(paste_far(clipboard, d) == far);
            assert forall|j: int| 0 <= j < k + 1 implies dirty_covers(
                plot.dirty().subrange(l0, plot.dirty().len() as int),
                #[trigger] dests[j],
                coord_add(dests[j], coord_sub(size, (1, 1, 1))),
            ) by {
                lemma_covers_append(old_part, tail, dests[j], coord_add(dests[j], coord_sub(size, (1, 1, 1))), d, far);
            }
        }
        k = k + 1;
    }
    proof {
        assert(dests.subrange(0, k as int) =~= dests);
    }
    Feedback::Stacked
}

/// Whether the parsed arguments have, in order, the types `kind` declares.
pub open spec fn arguments_fit(kind: CommandKind, args: Seq<Argument>) -> bool {
    &&& args.len() == command_argument_types(kind).len()
    &&& forall|i: int| 0 <= i < args.len() ==> (#[trigger] args[i]).has_type(command_argument_types(kind)[i])
}

/// The value of an unsigned-integer argument.
pub open spec fn uint_arg(a: Argument) -> u32 {
    match a {
        Argument::UnsignedInteger(v) => v,
        _ => 0,
    }
}

/// The value of a direction argument.
pub open spec fn direction_arg(a: Argument) -> BlockFacing {
    match a {
        Argument::Direction(d) => d,
        _ => BlockFacing::North,
    }
}

/// The pattern of a pattern or mask argument.
pub open spec fn pattern_arg(a: Argument) -> WorldEditPattern {
    match a {
        Argument::Pattern(p) => p,
        Argument::Mask(p) => p,
        _ => arbitrary(),
    }
}

/// The text of a string argument.
pub open spec fn string_arg(a: Argument) -> String {
    match a {
        Argument::String(t) => t,
        _ => arbitrary(),
    }
}

/// What running command `kind` with parsed arguments `args` and flag
/// letters `flags` does: the executor it is bound to, given those values.
pub open spec fn run_effect(
    kind: CommandKind,
    args: Seq<Argument>,
    flags: Seq<char>,
    plot_before: Plot,
    plot_after: Plot,
    user_before: Player,
    user_after: Player,
    fb: Feedback,
) -> bool {
    match kind {
        CommandKind::Copy => plot_after == plot_before && copy_effect(plot_before, user_before, user_after, fb),
        CommandKind::Cut => cut_effect(plot_before, plot_after, user_before, user_after, fb),
        CommandKind::Paste => paste_effect(plot_before, plot_after, user_before, user_after, flags.contains('a'), fb),
        CommandKind::Undo => undo_effect(plot_before, plot_after, user_before, user_after, fb),
        CommandKind::Stack => stack_effect(
        plot_before,
        plot_after,
        user_before,
        user_after,
        uint_arg(args[0]),
        direction_arg(args[1]),
        flags.contains('a'),
        fb,
        ),
        CommandKind::Move => move_effect(
        plot_before,
        plot_after,
        user_before,
        user_after,
        uint_arg(args[0]),
        direction_arg(args[1]),
        flags.contains('a'),
        flags.contains('s'),
        fb,
        ),
        CommandKind::Count => plot_after == plot_before && user_after == user_before && count_effect(plot_before, user_before, pattern_arg(args[0]), fb),
        CommandKind::Sel => plot_after == plot_before && sel_effect(user_before, user_after, fb),
        CommandKind::SetBlocks => set_effect(plot_before, plot_after, user_before, user_after, pattern_arg(args[0]), fb),
        CommandKind::Pos1 => plot_after == plot_before && pos1_effect(user_before, user_after, fb),
        CommandKind::Pos2 => plot_after == plot_before && pos2_effect(user_before, user_after, fb),
        CommandKind::Replace => replace_effect(plot_before, plot_after, user_before, user_after, pattern_arg(args[0]), pattern_arg(args[1]), fb),
        CommandKind::Load => plot_after == plot_before && user_after == user_before && load_effect(string_arg(args[0]), fb),
    }
}

/// The type of the accessor `run_command` reads each argument of `kind` with,
/// in order.
pub open spec fn argument_reads(kind: CommandKind) -> Seq<ArgumentType> {
    match kind {
        CommandKind::Stack | CommandKind::Move => seq![ArgumentType::UnsignedInteger, ArgumentType::Direction],
        CommandKind::Count => seq![ArgumentType::Mask],
        CommandKind::SetBlocks => seq![ArgumentType::Pattern],
        CommandKind::Replace => seq![ArgumentType::Mask, ArgumentType::Pattern],
        CommandKind::Load => seq![ArgumentType::String],
        _ => seq![],
    }
}

/// Command-table integrity: every command reads exactly as many arguments as
/// its descriptor declares, each with the accessor of its declared type, so
/// no argument access is out of range or of the wrong kind.
pub proof fn lemma_command_table_integrity(kind: CommandKind, descriptor: WorldeditCommand)
    requires
        descriptor.describes(kind),
    ensures
        argument_reads(kind).len() == descriptor.arguments@.len(),
        forall|i: int|
            0 <= i < argument_reads(kind).len() ==> argument_reads(kind)[i] == (
            #[trigger] descriptor.arguments@[i]).argument_type,
{
}

/// Runs a resolved command whose preconditions hold and whose arguments
/// were parsed against its descriptor.
pub fn run_command(
    kind: CommandKind,
    plot: &mut Plot,
    player: &mut Player,
    ctx: &CommandExecuteContext,
) -> (fb: Feedback)
    requires
        old(plot).wf(),
        old(player).wf(),
        arguments_fit(kind, ctx.arguments@),
        command_requires_positions(kind) ==> old(player).has_selection(),
        command_requires_clipboard(kind) ==> old(player).worldedit_clipboard.is_some(),
    ensures
        final(plot).wf(),
        final(player).wf(),
        match fb {
            Feedback::ArgumentError(_) => false,
            _ => true,
        },
        run_effect(kind, ctx.arguments@, ctx.flags@, *old(plot), *final(plot), *old(player), *final(player), fb),
{
    match kind {
        CommandKind::Copy => execute_copy(plot, player),
        CommandKind::Cut => execute_cut(plot, player),
        CommandKind::Paste => execute_paste(plot, player, ctx.has_flag('a')),
        CommandKind::Undo => execute_undo(plot, player),
        CommandKind::Stack => {
            let count = ctx.arguments[0].unwrap_uint();
            let direction = ctx.arguments[1].unwrap_direction();
            execute_stack(plot, player, count, direction, ctx.has_flag('a'))
        },
        CommandKind::Move => {
            let amount = ctx.arguments[0].unwrap_uint();
            let direction = ctx.arguments[1].unwrap_direction();
            execute_move(plot, player, amount, direction, ctx.has_flag('a'), ctx.has_flag('s'))
        },
        CommandKind::Count => execute_count(plot, player, ctx.arguments[0].unwrap_mask()),
        CommandKind::Sel => execute_sel(player),
        CommandKind::SetBlocks => execute_set(plot, player, ctx.arguments[0].unwrap_pattern()),
        CommandKind::Pos1 => execute_pos1(player),
        CommandKind::Pos2 => execute_pos2(player),
        CommandKind::Replace => {
            let mask = ctx.arguments[0].unwrap_mask();
            let pattern = ctx.arguments[1].unwrap_pattern();
            execute_replace(plot, player, mask, pattern)
        },
        CommandKind::Load => execute_load(ctx.arguments[0].unwrap_string()),
    }
}

/// Whether every declared argument of `kind` parses from the positional tokens.
pub open spec fn all_args_parse(kind: CommandKind, pos: Seq<Seq<char>>, reg: BlockRegistry) -> bool {
    forall|i: int|
        0 <= i < command_argument_types(kind).len() ==> #[trigger] arg_parses(
            command_argument_types(kind)[i],
            arg_token(pos, i),
            reg,
        )
}

/// Whether `args` are the values the positional tokens parse to.
pub open spec fn args_parsed(
    kind: CommandKind,
    pos: Seq<Seq<char>>,
    facing: BlockFacing,
    reg: BlockRegistry,
    args: Seq<Argument>,
) -> bool {
    &&& args.len() == command_argument_types(kind).len()
    &&& forall|i: int|
        0 <= i < args.len() ==> parses_as(
            command_argument_types(kind)[i],
            arg_token(pos, i),
            facing,
            reg,
            Ok(#[trigger] args[i]),
        )
}

/// Whether argument `i` is the first that fails to parse, with error `e`.
pub open spec fn first_arg_failure(
    kind: CommandKind,
    pos: Seq<Seq<char>>,
    facing: BlockFacing,
    reg: BlockRegistry,
    i: int,
    e: ArgumentParseError,
) -> bool {
    &&& 0 <= i < command_argument_types(kind).len()
    &&& forall|j: int|
        0 <= j < i ==> #[trigger] arg_parses(command_argument_types(kind)[j], arg_token(pos, j), reg)
    &&& parses_as(command_argument_types(kind)[i], arg_token(pos, i), facing, reg, Err(e))
}

/// What a resolved command whose preconditions and flags passed does with
/// its positional tokens: where they all parse, it runs on the parsed values;
/// else it reports the first argument that fails and changes nothing.
pub open spec fn dispatch_result(
    kind: CommandKind,
    flags: Seq<char>,
    pos: Seq<Seq<char>>,
    facing: BlockFacing,
    reg: BlockRegistry,
    plot_before: Plot,
    plot_after: Plot,
    user_before: Player,
    user_after: Player,
    r: Option<Feedback>,
) -> bool {
    if all_args_parse(kind, pos, reg) {
        r.is_some() && exists|args: Seq<Argument>|
            #[trigger] args_parsed(kind, pos, facing, reg, args) && run_effect(kind, args, flags, plot_before, plot_after, user_before, user_after, r.unwrap())
    } else {
        plot_after == plot_before && user_after == user_before && exists|i: int, e: ArgumentParseError|
            #[trigger] first_arg_failure(kind, pos, facing, reg, i, e) && r == Some(Feedback::ArgumentError(e))
    }
}

/// What stops a resolved command before it parses anything: a missing or
/// out-of-plot selection, or an empty clipboard.
pub open spec fn precheck(kind: CommandKind, player: Player, plot: Plot) -> Option<Feedback> {
    if command_requires_positions(kind) && !player.has_selection() {
        Some(Feedback::SelectionMissing)
    } else if command_requires_positions(kind) && !in_plot_bounds_spec(
        plot.x as int,
        plot.z as int,
        player.first().x as int,
        player.first().z as int,
    ) {
        Some(Feedback::FirstPositionOutsidePlot)
    } else if command_requires_positions(kind) && !in_plot_bounds_spec(
        plot.x as int,
        plot.z as int,
        player.second().x as int,
        player.second().z as int,
    ) {
        Some(Feedback::SecondPositionOutsidePlot)
    } else if command_requires_clipboard(kind) && player.worldedit_clipboard.is_none() {
        Some(Feedback::ClipboardEmpty)
    } else {
        None
    }
}

pub open spec fn flag_feedback(e: FlagError) -> Feedback {
    match e {
        FlagError::UnknownFlag(c) => Feedback::UnknownFlag(c),
        FlagError::ArgumentNotLast => Feedback::FlagArgumentNotLast,
    }
}

/// Attempts one world-edit command: `command` is looked up among the commands,
/// then the aliases (whose injected tokens go before `args`). Returns `None`
/// when neither table knows it; otherwise the command's feedback. Every
/// failure before the command runs (precondition, flag or argument) leaves the
/// plot and the user untouched.
pub fn execute_command(
    plot: &mut Plot,
    player: &mut Player,
    command: &str,
    args: &Vec<String>,
    registry: &BlockRegistry,
) -> (r: Option<Feedback>)
    requires
        old(plot).wf(),
        old(player).wf(),
    ensures
        final(plot).wf(),
        final(player).wf(),
        r.is_none() <==> resolve_spec(command@).is_none(),
        r.is_none() ==> *final(plot) == *old(plot) && *final(player) == *old(player),
        match resolve_spec(command@) {
            Some((k, injected)) => {
                let toks = injected + token_views(args@);
                &&& precheck(k, *old(player), *old(plot)).is_some() ==> r == precheck(k, *old(player), *old(plot))
                    && *final(plot) == *old(plot) && *final(player) == *old(player)
                &&& precheck(k, *old(player), *old(plot)).is_none() ==> match split_flags(command_flags(k), toks, 0) {
                    Err(e) => r == Some(flag_feedback(e)) && *final(plot) == *old(plot) && *final(player) == *old(player),
                    Ok(split) => {
                        &&& split.1.len() > command_argument_types(k).len() ==> r == Some(Feedback::TooManyArguments)
                            && *final(plot) == *old(plot) && *final(player) == *old(player)
                        &&& split.1.len() <= command_argument_types(k).len() ==> dispatch_result(
                            k,
                            split.0,
                            split.1,
                            old(player).facing,
                            *registry,
                            *old(plot),
                            *final(plot),
                            *old(player),
                            *final(player),
                            r,
                        )
                    },
                }
            },
            None => true,
        },
        match r {
            Some(Feedback::ArgumentError(_)) => *final(plot) == *old(plot) && *final(player) == *old(player),
            _ => true,
        },
{
    let (kind, injected) = match resolve_command(command) {
        Some(found) => found,
        None => return None,
    };
    let ghost inj = injected@.map_values(|s: String| s@);
    if command_requires_positions_exec(kind) {
        if player.first_position.is_none() || player.second_position.is_none() {
            return Some(Feedback::SelectionMissing);
        }
        let first_pos = player.first_position.unwrap();
        let second_pos = player.second_position.unwrap();
        if !Plot::in_plot_bounds(plot.x, plot.z, first_pos.x, first_pos.z) {
            return Some(Feedback::FirstPositionOutsidePlot);
        }
        if !Plot::in_plot_bounds(plot.x, plot.z, second_pos.x, second_pos.z) {
            return Some(Feedback::SecondPositionOutsidePlot);
        }
    }
    if command_requires_clipboard_exec(kind) && player.worldedit_clipboard.is_none() {
        return Some(Feedback::ClipboardEmpty);
    }
    let descriptor = kind.descriptor();
    let mut tokens = injected;
    let mut i: usize = 0;
    while i < args.len()
        invariant
            i <= args@.len(),
            token_views(tokens@) == inj + token_views(args@.subrange(0, i as int)),
        decreases args.len() - i,
    {
        let ghost before = tokens@;
        let t = args[i].clone();
        tokens.push(t);
        proof {
            assert(tokens@ == before.push(args@[i as int]));
            assert(args@.subrange(0, i + 1) == args@.subrange(0, i as int).push(args@[i as int]));
            assert(token_views(args@.subrange(0, i + 1)) =~= token_views(args@.subrange(0, i as int)).push(args@[i as int]@));
            assert(token_views(tokens@) =~= token_views(before).push(args@[i as int]@));
            assert(token_views(tokens@) =~= inj + token_views(args@.subrange(0, i + 1)));
        }
        i = i + 1;
    }
    proof {
        assert(args@.subrange(0, i as int) =~= args@);
    }
    let (flags, positional) = match parse_flags(&descriptor.flags, &tokens) {
        Ok(split) => split,
        Err(FlagError::UnknownFlag(c)) => return Some(Feedback::UnknownFlag(c)),
        Err(FlagError::ArgumentNotLast) => return Some(Feedback::FlagArgumentNotLast),
    };
    if positional.len() > descriptor.arguments.len() {
        return Some(Feedback::TooManyArguments);
    }
    let mut arguments: Vec<Argument> = Vec::new();
    let mut j: usize = 0;
    while j < descriptor.arguments.len()
        invariant
            *plot == *old(plot),
            *player == *old(player),
            plot.wf(),
            player.wf(),
            resolve_spec(command@) == Some((kind, inj)),
            precheck(kind, *old(player), *old(plot)).is_none(),
            split_flags(command_flags(kind), inj + token_views(args@), 0) == Ok::<(Seq<char>, Seq<Seq<char>>), FlagError>(
                (flags@, token_views(positional@)),
            ),
            positional@.len() <= command_argument_types(kind).len(),
            descriptor.describes(kind),
            command_requires_positions(kind) ==> player.has_selection(),
            command_requires_clipboard(kind) ==> player.worldedit_clipboard.is_some(),
            j <= descriptor.arguments@.len(),
            arguments@.len() == j,
            forall|m: int| 0 <= m < j ==> (#[trigger] arguments@[m]).has_type(command_argument_types(kind)[m]),
            forall|m: int|
                0 <= m < j ==> parses_as(
                    command_argument_types(kind)[m],
                    arg_token(token_views(positional@), m),
                    old(player).facing,
                    *registry,
                    Ok(#[trigger] arguments@[m]),
                ),
            forall|m: int|
                0 <= m < j ==> #[trigger] arg_parses(
                    command_argument_types(kind)[m],
                    arg_token(token_views(positional@), m),
                    *registry,
                ),
        decreases descriptor.arguments.len() - j,
    {
        let tok = if j < positional.len() {
            Some(&positional[j])
        } else {
            None
        };
        let arg_type = descriptor.arguments[j].argument_type;
        let ghost tok_view = match tok {
            Some(s) => Some(s@),
            None => None,
        };
        proof {
            assert(tok_view == arg_token(token_views(positional@), j as int));
        }
        let parsed = parse_argument(arg_type, tok, player.facing, registry);
        proof {
            crate::command::lemma_parse_succeeds(arg_type, tok_view, player.facing, *registry, parsed);
        }
        match parsed {
            Ok(a) => {
                proof {
                    crate::command::lemma_parsed_type(
                        arg_type,
                        match tok {
                            Some(s) => Some(s@),
                            None => None,
                        },
                        player.facing,
                        *registry,
                        Ok(a),
                    );
                }
                arguments.push(a);
            },
            Err(e) => {
                proof {
                    assert(first_arg_failure(kind, token_views(positional@), old(player).facing, *registry, j as int, e));
                    assert(!arg_parses(command_argument_types(kind)[j as int], arg_token(token_views(positional@), j as int), *registry));
                }
                return Some(Feedback::ArgumentError(e));
            },
        }
        j = j + 1;
    }
    proof {
        assert(args_parsed(kind, token_views(positional@), old(player).facing, *registry, arguments@));
    }
    let ctx = CommandExecuteContext { arguments, flags };
    Some(run_command(kind, plot, player, &ctx))
}

fn command_requires_positions_exec(kind: CommandKind) -> (r: bool)
    ensures
        r == command_requires_positions(kind),
{
    match kind {
        CommandKind::Copy | CommandKind::Cut | CommandKind::Stack | CommandKind::Move
        | CommandKind::Count | CommandKind::SetBlocks | CommandKind::Replace => true,
        _ => false,
    }
}

fn command_requires_clipboard_exec(kind: CommandKind) -> (r: bool)
    ensures
        r == command_requires_clipboard(kind),
{
    match kind {
        CommandKind::Paste => true,
        _ => false,
    }
}

/// What `execute_sel` does: its result and its effect on the plot and the user.
pub open spec fn sel_effect(user_before: Player, user_after: Player, fb: Feedback) -> bool {
    &&& !(fb is ArgumentError)
    &&& fb == Feedback::SelectionCleared
    &&& user_after.first_position.is_none()
    &&& user_after.second_position.is_none()
    &&& user_after.worldedit_clipboard == user_before.worldedit_clipboard
    &&& same_history(user_before, user_after)
}

/// Forgets both selection corners.
pub fn execute_sel(player: &mut Player) -> (fb: Feedback)
    ensures
        sel_effect(*old(player), *final(player), fb),
{
    player.first_position = None;
    player.second_position = None;
    Feedback::SelectionCleared
}

/// What `execute_pos1` does: its result and its effect on the plot and the user.
pub open spec fn pos1_effect(user_before: Player, user_after: Player, fb: Feedback) -> bool {
    &&& !(fb is ArgumentError)
    &&& fb == Feedback::FirstPositionSet(user_before.position)
    &&& user_after.first_position == Some(user_before.position)
    &&& user_after.second_position == user_before.second_position
    &&& user_after.worldedit_clipboard == user_before.worldedit_clipboard
    &&& same_history(user_before, user_after)
}

/// Sets the first selection corner to the user's cell.
pub fn execute_pos1(player: &mut Player) -> (fb: Feedback)
    ensures
        pos1_effect(*old(player), *final(player), fb),
{
    player.first_position = Some(player.position);
    Feedback::FirstPositionSet(player.position)
}

/// What `execute_pos2` does: its result and its effect on the plot and the user.
pub open spec fn pos2_effect(user_before: Player, user_after: Player, fb: Feedback) -> bool {
    &&& !(fb is ArgumentError)
    &&& fb == Feedback::SecondPositionSet(user_before.position)
    &&& user_after.second_position == Some(user_before.position)
    &&& user_after.first_position == user_before.first_position
    &&& user_after.worldedit_clipboard == user_before.worldedit_clipboard
    &&& same_history(user_before, user_after)
}

/// Sets the second selection corner to the user's cell.
pub fn execute_pos2(player: &mut Player) -> (fb: Feedback)
    ensures
        pos2_effect(*old(player), *final(player), fb),
{
    player.second_position = Some(player.position);
    Feedback::SecondPositionSet(player.position)
}

/// What `execute_load` does: its result and its effect on the plot and the user.
pub open spec fn load_effect(file_name: String, fb: Feedback) -> bool {
    &&& !(fb is ArgumentError)
    &&& fb == Feedback::LoadSchematic(file_name)
}

/// Asks for the named schematic to be read; `finish_load` installs it.
pub fn execute_load(file_name: &String) -> (fb: Feedback)
    ensures
        load_effect(*file_name, fb),
{
    Feedback::LoadSchematic(file_name.clone())
}

/// Installs a decoded schematic as the clipboard; without one, reports the
/// generic load failure and keeps the clipboard.
pub fn finish_load(player: &mut Player, clipboard: Option<WorldEditClipboard>) -> (fb: Feedback)
    requires
        old(player).wf(),
        match clipboard {
            Some(cb) => cb.wf(),
            None => true,
        },
    ensures
        final(player).wf(),
        same_history(*old(player), *final(player)),
        clipboard.is_some() ==> fb == Feedback::SchematicLoaded && final(player).worldedit_clipboard == clipboard,
        clipboard.is_none() ==> fb == Feedback::SchematicLoadFailed && *final(player) == *old(player),
{
    match clipboard {
        Some(cb) => {
            player.worldedit_clipboard = Some(cb);
            Feedback::SchematicLoaded
        },
        None => Feedback::SchematicLoadFailed,
    }
}

} // verus!
