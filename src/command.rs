//! The command and alias tables, flag extraction and argument parsing.

use vstd::prelude::*;
use crate::grammar::{CharClass, digits_saturating, digits_value, is_digit, lemma_run_end_bounds, scan};
use crate::pattern::{
    PatternParseError, WorldEditPattern, first_failure, pattern_parsed, pattern_rejected, resolve_part, split_commas,
    to_chars,
};
use crate::pos::BlockFacing;
use crate::registry::{BlockRegistry, str_matches};

verus! {

/// The value kinds a command argument can have.
#[derive(Clone, Copy, Debug, PartialEq, Eq, Structural)]
pub enum ArgumentType {
    UnsignedInteger,
    Direction,
    Mask,
    Pattern,
    String,
}

/// A parsed argument value.
pub enum Argument {
    UnsignedInteger(u32),
    Direction(BlockFacing),
    Pattern(WorldEditPattern),
    Mask(WorldEditPattern),
    String(String),
}

/// Why an argument could not be parsed.
pub enum ArgumentErrorReason {
    CannotBeInferred,
    UnknownDirection,
    InvalidUnsignedInteger,
    Pattern(PatternParseError),
}

/// An argument that failed to parse, with its declared type.
pub struct ArgumentParseError {
    pub arg_type: ArgumentType,
    pub reason: ArgumentErrorReason,
}

impl ArgumentParseError {
    pub fn new(arg_type: ArgumentType, reason: ArgumentErrorReason) -> (r: ArgumentParseError)
        ensures
            r == (ArgumentParseError { arg_type, reason }),
    {
        ArgumentParseError { arg_type, reason }
    }
}

impl Argument {
    pub open spec fn has_type(&self, t: ArgumentType) -> bool {
        match self {
            Argument::UnsignedInteger(_) => t == ArgumentType::UnsignedInteger,
            Argument::Direction(_) => t == ArgumentType::Direction,
            Argument::Pattern(p) => t == ArgumentType::Pattern && p.wf(),
            Argument::Mask(_) => t == ArgumentType::Mask,
            Argument::String(_) => t == ArgumentType::String,
        }
    }

    pub fn unwrap_uint(&self) -> (r: u32)
        requires
            self.has_type(ArgumentType::UnsignedInteger),
        ensures
            *self == Argument::UnsignedInteger(r),
    {
        match self {
            Argument::UnsignedInteger(val) => *val,
            _ => vstd::pervasive::unreached(),
        }
    }

    pub fn unwrap_direction(&self) -> (r: BlockFacing)
        requires
            self.has_type(ArgumentType::Direction),
        ensures
            *self == Argument::Direction(r),
    {
        match self {
            Argument::Direction(val) => *val,
            _ => vstd::pervasive::unreached(),
        }
    }

    pub fn unwrap_pattern(&self) -> (r: &WorldEditPattern)
        requires
            self.has_type(ArgumentType::Pattern),
        ensures
            *self == Argument::Pattern(*r),
            r.wf(),
    {
        match self {
            Argument::Pattern(val) => val,
            _ => vstd::pervasive::unreached(),
        }
    }

    pub fn unwrap_mask(&self) -> (r: &WorldEditPattern)
        requires
            self.has_type(ArgumentType::Mask),
        ensures
            *self == Argument::Mask(*r),
    {
        match self {
            Argument::Mask(val) => val,
            _ => vstd::pervasive::unreached(),
        }
    }

    pub fn unwrap_string(&self) -> (r: &String)
        requires
            self.has_type(ArgumentType::String),
        ensures
            *self == Argument::String(*r),
    {
        match self {
            Argument::String(val) => val,
            _ => vstd::pervasive::unreached(),
        }
    }
}

/// A declared positional argument of a command.
pub struct ArgumentDescription {
    pub name: &'static str,
    pub argument_type: ArgumentType,
    pub description: &'static str,
}

/// A declared flag of a command, with the type of the value that follows it,
/// if it takes one.
pub struct FlagDescription {
    pub letter: char,
    pub argument_type: Option<ArgumentType>,
    pub description: &'static str,
}

/// The operations that commands are bound to.
#[derive(Clone, Copy, Debug, PartialEq, Eq, Structural)]
pub enum CommandKind {
    Copy,
    Cut,
    Paste,
    Undo,
    Stack,
    Move,
    Count,
    Sel,
    SetBlocks,
    Pos1,
    Pos2,
    Replace,
    Load,
}

/// Every command, in table order.
pub open spec fn all_commands() -> Seq<CommandKind> {
    seq![
        CommandKind::Copy,
        CommandKind::Cut,
        CommandKind::Paste,
        CommandKind::Undo,
        CommandKind::Stack,
        CommandKind::Move,
        CommandKind::Count,
        CommandKind::Sel,
        CommandKind::SetBlocks,
        CommandKind::Pos1,
        CommandKind::Pos2,
        CommandKind::Replace,
        CommandKind::Load,
    ]
}

pub open spec fn command_name(k: CommandKind) -> Seq<char> {
    match k {
        CommandKind::Copy => seq!['c', 'o', 'p', 'y'],
        CommandKind::Cut => seq!['c', 'u', 't'],
        CommandKind::Paste => seq!['p', 'a', 's', 't', 'e'],
        CommandKind::Undo => seq!['u', 'n', 'd', 'o'],
        CommandKind::Stack => seq!['s', 't', 'a', 'c', 'k'],
        CommandKind::Move => seq!['m', 'o', 'v', 'e'],
        CommandKind::Count => seq!['c', 'o', 'u', 'n', 't'],
        CommandKind::Sel => seq!['s', 'e', 'l'],
        CommandKind::SetBlocks => seq!['s', 'e', 't'],
        CommandKind::Pos1 => seq!['p', 'o', 's', '1'],
        CommandKind::Pos2 => seq!['p', 'o', 's', '2'],
        CommandKind::Replace => seq!['r', 'e', 'p', 'l', 'a', 'c', 'e'],
        CommandKind::Load => seq!['l', 'o', 'a', 'd'],
    }
}

/// The argument types a command declares, in order.
pub open spec fn command_argument_types(k: CommandKind) -> Seq<ArgumentType> {
    match k {
        CommandKind::Stack => seq![ArgumentType::UnsignedInteger, ArgumentType::Direction],
        CommandKind::Move => seq![ArgumentType::UnsignedInteger, ArgumentType::Direction],
        CommandKind::Count => seq![ArgumentType::Mask],
        CommandKind::SetBlocks => seq![ArgumentType::Pattern],
        CommandKind::Replace => seq![ArgumentType::Mask, ArgumentType::Pattern],
        CommandKind::Load => seq![ArgumentType::String],
        _ => seq![],
    }
}

/// The flag letters a command declares, none of them taking a value.
pub open spec fn command_flag_letters(k: CommandKind) -> Seq<char> {
    match k {
        CommandKind::Paste => seq!['a'],
        CommandKind::Stack => seq!['a'],
        CommandKind::Move => seq!['a', 's'],
        _ => seq![],
    }
}

pub open spec fn command_requires_positions(k: CommandKind) -> bool {
    match k {
        CommandKind::Copy | CommandKind::Cut | CommandKind::Stack | CommandKind::Move
        | CommandKind::Count | CommandKind::SetBlocks | CommandKind::Replace => true,
        _ => false,
    }
}

pub open spec fn command_requires_clipboard(k: CommandKind) -> bool {
    k == CommandKind::Paste
}

/// A command's descriptor: its arguments, flags and preconditions.
pub struct WorldeditCommand {
    pub kind: CommandKind,
    pub arguments: Vec<ArgumentDescription>,
    pub flags: Vec<FlagDescription>,
    pub requires_positions: bool,
    pub requires_clipboard: bool,
    pub description: &'static str,
}

impl WorldeditCommand {
    /// Whether this descriptor is the table's entry for its kind.
    pub open spec fn describes(&self, k: CommandKind) -> bool {
        &&& self.kind == k
        &&& self.arguments@.len() == command_argument_types(k).len()
        &&& forall|i: int|
            0 <= i < self.arguments@.len() ==> (#[trigger] self.arguments@[i]).argument_type
                == command_argument_types(k)[i]
        &&& flag_views(self.flags@) == command_flags(k)
        &&& self.requires_positions == command_requires_positions(k)
        &&& self.requires_clipboard == command_requires_clipboard(k)
    }
}

fn argument(name: &'static str, argument_type: ArgumentType, description: &'static str) -> (r: ArgumentDescription)
    ensures
        r.argument_type == argument_type,
{
    ArgumentDescription { name, argument_type, description }
}

fn flag(letter: char, description: &'static str) -> (r: FlagDescription)
    ensures
        r.letter == letter,
        r.argument_type.is_none(),
{
    FlagDescription { letter, argument_type: None, description }
}

impl CommandKind {
    pub fn name(&self) -> (r: &'static str)
        ensures
            r@ == command_name(*self),
    {
        proof {
            reveal_strlit("copy");
            reveal_strlit("cut");
            reveal_strlit("paste");
            reveal_strlit("undo");
            reveal_strlit("stack");
            reveal_strlit("move");
            reveal_strlit("count");
            reveal_strlit("sel");
            reveal_strlit("set");
            reveal_strlit("pos1");
            reveal_strlit("pos2");
            reveal_strlit("replace");
            reveal_strlit("load");
        }
        match self {
            CommandKind::Copy => "copy",
            CommandKind::Cut => "cut",
            CommandKind::Paste => "paste",
            CommandKind::Undo => "undo",
            CommandKind::Stack => "stack",
            CommandKind::Move => "move",
            CommandKind::Count => "count",
            CommandKind::Sel => "sel",
            CommandKind::SetBlocks => "set",
            CommandKind::Pos1 => "pos1",
            CommandKind::Pos2 => "pos2",
            CommandKind::Replace => "replace",
            CommandKind::Load => "load",
        }
    }

    /// The command's descriptor.
    pub fn descriptor(&self) -> (r: WorldeditCommand)
        ensures
            r.describes(*self),
    {
        let mut arguments: Vec<ArgumentDescription> = Vec::new();
        let mut flags: Vec<FlagDescription> = Vec::new();
        let description: &'static str;
        match self {
            CommandKind::Copy => {
                description = "Copy the selection to the clipboard";
            },
            CommandKind::Cut => {
                description = "Cut the selection to the clipboard";
            },
            CommandKind::Paste => {
                description = "Paste the clipboard's contents";
                flags.push(flag('a', "Skip air blocks"));
            },
            CommandKind::Undo => {
                description = "Undo's the last action (from history)";
            },
            CommandKind::Stack => {
                description = "Repeat the contents of the selection";
                arguments.push(argument("count", ArgumentType::UnsignedInteger, "# of copies to stack"));
                arguments.push(argument("direction", ArgumentType::Direction, "The direction to stack"));
                flags.push(flag('a', "Ignore air blocks"));
            },
            CommandKind::Move => {
                description = "Move the contents of the selection";
                arguments.push(argument("count", ArgumentType::UnsignedInteger, "The distance to move"));
                arguments.push(argument("direction", ArgumentType::Direction, "The direction to move"));
                flags.push(flag('a', "Ignore air blocks"));
                flags.push(flag('s', "Shift the selection to the target location"));
            },
            CommandKind::Count => {
                description = "Counts the number of blocks matching a mask";
                arguments.push(argument("mask", ArgumentType::Mask, "The mask of blocks to match"));
            },
            CommandKind::Sel => {
                description = "Choose a region selector";
            },
            CommandKind::SetBlocks => {
                description = "Sets all the blocks in the region";
                arguments.push(argument("pattern", ArgumentType::Pattern, "The pattern of blocks to set"));
            },
            CommandKind::Pos1 => {
                description = "Set position 1";
            },
            CommandKind::Pos2 => {
                description = "Set position 2";
            },
            CommandKind::Replace => {
                description = "Replace all blocks in a selection with another";
                arguments.push(argument("from", ArgumentType::Mask, "The mask representng blocks to replace"));
                arguments.push(argument("to", ArgumentType::Pattern, "The pattern of blocks to replace with"));
            },
            CommandKind::Load => {
                description = "Loads a schematic file into the clipboard";
                arguments.push(argument("name", ArgumentType::String, "The file name of the schematic to load"));
            },
        }
        let requires_positions = match self {
            CommandKind::Copy | CommandKind::Cut | CommandKind::Stack | CommandKind::Move
            | CommandKind::Count | CommandKind::SetBlocks | CommandKind::Replace => true,
            _ => false,
        };
        let requires_clipboard = match self {
            CommandKind::Paste => true,
            _ => false,
        };
        proof {
            assert(flag_views(flags@) =~= command_flags(*self));
        }
        WorldeditCommand {
            kind: *self,
            arguments,
            flags,
            requires_positions,
            requires_clipboard,
            description,
        }
    }
}

/// The shorthand names a command can also be invoked by.
#[derive(Clone, Copy, Debug, PartialEq, Eq, Structural)]
pub enum Alias {
    One,
    Two,
    C,
    X,
    V,
    Va,
    S,
    Sa,
}

pub open spec fn all_aliases() -> Seq<Alias> {
    seq![Alias::One, Alias::Two, Alias::C, Alias::X, Alias::V, Alias::Va, Alias::S, Alias::Sa]
}

pub open spec fn alias_name(a: Alias) -> Seq<char> {
    match a {
        Alias::One => seq!['1'],
        Alias::Two => seq!['2'],
        Alias::C => seq!['c'],
        Alias::X => seq!['x'],
        Alias::V => seq!['v'],
        Alias::Va => seq!['v', 'a'],
        Alias::S => seq!['s'],
        Alias::Sa => seq!['s', 'a'],
    }
}

pub open spec fn alias_target(a: Alias) -> CommandKind {
    match a {
        Alias::One => CommandKind::Pos1,
        Alias::Two => CommandKind::Pos2,
        Alias::C => CommandKind::Copy,
        Alias::X => CommandKind::Cut,
        Alias::V | Alias::Va => CommandKind::Paste,
        Alias::S | Alias::Sa => CommandKind::Stack,
    }
}

/// The tokens an alias puts before the caller's own.
pub open spec fn alias_injected(a: Alias) -> Seq<Seq<char>> {
    match a {
        Alias::Va | Alias::Sa => seq![seq!['-', 'a']],
        _ => seq![],
    }
}

impl Alias {
    pub fn name(&self) -> (r: &'static str)
        ensures
            r@ == alias_name(*self),
    {
        proof {
            reveal_strlit("1");
            reveal_strlit("2");
            reveal_strlit("c");
            reveal_strlit("x");
            reveal_strlit("v");
            reveal_strlit("va");
            reveal_strlit("s");
            reveal_strlit("sa");
        }
        match self {
            Alias::One => "1",
            Alias::Two => "2",
            Alias::C => "c",
            Alias::X => "x",
            Alias::V => "v",
            Alias::Va => "va",
            Alias::S => "s",
            Alias::Sa => "sa",
        }
    }

    pub fn target(&self) -> (r: CommandKind)
        ensures
            r == alias_target(*self),
    {
        match self {
            Alias::One => CommandKind::Pos1,
            Alias::Two => CommandKind::Pos2,
            Alias::C => CommandKind::Copy,
            Alias::X => CommandKind::Cut,
            Alias::V | Alias::Va => CommandKind::Paste,
            Alias::S | Alias::Sa => CommandKind::Stack,
        }
    }

    pub fn injected(&self) -> (r: Vec<String>)
        ensures
            r@.len() == alias_injected(*self).len(),
            forall|i: int| 0 <= i < r@.len() ==> (#[trigger] r@[i])@ == alias_injected(*self)[i],
    {
        let mut out: Vec<String> = Vec::new();
        match self {
            Alias::Va | Alias::Sa => {
                proof {
                    reveal_strlit("-a");
                }
                out.push("-a".to_owned());
            },
            _ => {},
        }
        out
    }
}

/// The first command from index `i` of the table that is named `name`.
pub open spec fn find_command(name: Seq<char>, i: int) -> Option<CommandKind>
    decreases all_commands().len() - i,
{
    if i < 0 || i >= all_commands().len() {
        None
    } else if command_name(all_commands()[i]) == name {
        Some(all_commands()[i])
    } else {
        find_command(name, i + 1)
    }
}

/// The first alias from index `i` that is named `name`.
pub open spec fn find_alias(name: Seq<char>, i: int) -> Option<Alias>
    decreases all_aliases().len() - i,
{
    if i < 0 || i >= all_aliases().len() {
        None
    } else if alias_name(all_aliases()[i]) == name {
        Some(all_aliases()[i])
    } else {
        find_alias(name, i + 1)
    }
}

/// What a command token resolves to: a command of the table by its name, else
/// an alias's command with the tokens the alias injects.
pub open spec fn resolve_spec(name: Seq<char>) -> Option<(CommandKind, Seq<Seq<char>>)> {
    match find_command(name, 0) {
        Some(k) => Some((k, seq![])),
        None => match find_alias(name, 0) {
            Some(a) => Some((alias_target(a), alias_injected(a))),
            None => None,
        },
    }
}

fn command_at(i: usize) -> (r: CommandKind)
    requires
        i < all_commands().len(),
    ensures
        r == all_commands()[i as int],
{
    if i == 0 {
        CommandKind::Copy
    } else if i == 1 {
        CommandKind::Cut
    } else if i == 2 {
        CommandKind::Paste
    } else if i == 3 {
        CommandKind::Undo
    } else if i == 4 {
        CommandKind::Stack
    } else if i == 5 {
        CommandKind::Move
    } else if i == 6 {
        CommandKind::Count
    } else if i == 7 {
        CommandKind::Sel
    } else if i == 8 {
        CommandKind::SetBlocks
    } else if i == 9 {
        CommandKind::Pos1
    } else if i == 10 {
        CommandKind::Pos2
    } else if i == 11 {
        CommandKind::Replace
    } else {
        CommandKind::Load
    }
}

fn alias_at(i: usize) -> (r: Alias)
    requires
        i < all_aliases().len(),
    ensures
        r == all_aliases()[i as int],
{
    if i == 0 {
        Alias::One
    } else if i == 1 {
        Alias::Two
    } else if i == 2 {
        Alias::C
    } else if i == 3 {
        Alias::X
    } else if i == 4 {
        Alias::V
    } else if i == 5 {
        Alias::Va
    } else if i == 6 {
        Alias::S
    } else {
        Alias::Sa
    }
}

/// Resolves a command token through the command table, then the alias table.
pub fn resolve_command(command: &str) -> (r: Option<(CommandKind, Vec<String>)>)
    ensures
        match r {
            Some((k, injected)) => resolve_spec(command@) == Some((k, injected@.map_values(|s: String| s@))),
            None => resolve_spec(command@).is_none(),
        },
{
    let chars = to_chars(command);
    let n = chars.len();
    let mut i: usize = 0;
    while i < 13
        invariant
            chars@ == command@,
            n == chars@.len(),
            i <= 13,
            all_commands().len() == 13,
            find_command(command@, 0) == find_command(command@, i as int),
        decreases 13 - i,
    {
        let k = command_at(i);
        if str_matches(k.name(), &chars, 0, n) {
            proof {
                assert(chars@.subrange(0, n as int) =~= chars@);
            }
            let empty: Vec<String> = Vec::new();
            proof {
                assert(empty@.map_values(|s: String| s@) =~= Seq::<Seq<char>>::empty());
            }
            return Some((k, empty));
        }
        proof {
            assert(chars@.subrange(0, n as int) =~= chars@);
        }
        i = i + 1;
    }
    let mut j: usize = 0;
    while j < 8
        invariant
            chars@ == command@,
            n == chars@.len(),
            j <= 8,
            all_aliases().len() == 8,
            find_command(command@, 0).is_none(),
            find_alias(command@, 0) == find_alias(command@, j as int),
        decreases 8 - j,
    {
        let a = alias_at(j);
        proof {
            assert(chars@.subrange(0, n as int) =~= chars@);
        }
        if str_matches(a.name(), &chars, 0, n) {
            let injected = a.injected();
            proof {
                assert(injected@.map_values(|s: String| s@) =~= alias_injected(a));
            }
            return Some((a.target(), injected));
        }
        j = j + 1;
    }
    None
}

/// Why a command's flags were refused.
#[derive(Clone, Copy, Debug, PartialEq, Eq, Structural)]
pub enum FlagError {
    UnknownFlag(char),
    ArgumentNotLast,
}

/// The first flag descriptor at or after `i` with letter `c`.
pub open spec fn flag_index(descs: Seq<(char, bool)>, c: char, i: int) -> Option<int>
    decreases descs.len() - i,
{
    if i < 0 || i >= descs.len() {
        None
    } else if descs[i].0 == c {
        Some(i)
    } else {
        flag_index(descs, c, i + 1)
    }
}

/// Checks the letters of a flag group from position `k` on; `with_arg` says
/// whether the previous letter takes a value. The result says whether the
/// group's last letter takes one.
pub open spec fn group_spec(descs: Seq<(char, bool)>, t: Seq<char>, k: int, with_arg: bool) -> Result<bool, FlagError>
    decreases t.len() - k,
{
    if k < 0 || k >= t.len() {
        Ok(with_arg)
    } else if with_arg {
        Err(FlagError::ArgumentNotLast)
    } else {
        match flag_index(descs, t[k], 0) {
            None => Err(FlagError::UnknownFlag(t[k])),
            Some(i) => group_spec(descs, t, k + 1, descs[i].1),
        }
    }
}

pub open spec fn is_flag_token(t: Seq<char>) -> bool {
    t.len() > 0 && t[0] == '-'
}

/// Splits the tokens from `i` on into the flag letters they set and the
/// positional tokens left. A token that starts with `-` is a flag group and
/// is consumed whole, together with the token after it when its last letter
/// takes a value.
pub open spec fn split_flags(descs: Seq<(char, bool)>, toks: Seq<Seq<char>>, i: int) -> Result<(Seq<char>, Seq<Seq<char>>), FlagError>
    decreases toks.len() - i,
{
    if i < 0 || i >= toks.len() {
        Ok((seq![], seq![]))
    } else if is_flag_token(toks[i]) {
        match group_spec(descs, toks[i], 1, false) {
            Err(e) => Err(e),
            Ok(arg) => {
                let next = if arg && i + 1 < toks.len() {
                    i + 2
                } else {
                    i + 1
                };
                match split_flags(descs, toks, next) {
                    Err(e) => Err(e),
                    Ok(r) => Ok((toks[i].subrange(1, toks[i].len() as int) + r.0, r.1)),
                }
            },
        }
    } else {
        match split_flags(descs, toks, i + 1) {
            Err(e) => Err(e),
            Ok(r) => Ok((r.0, seq![toks[i]] + r.1)),
        }
    }
}

/// The letter of each flag descriptor, and whether it takes a value.
pub open spec fn flag_views(descs: Seq<FlagDescription>) -> Seq<(char, bool)> {
    descs.map_values(|d: FlagDescription| (d.letter, d.argument_type.is_some()))
}

/// The flags a command declares, as `flag_views` gives them.
pub open spec fn command_flags(k: CommandKind) -> Seq<(char, bool)> {
    command_flag_letters(k).map_values(|c: char| (c, false))
}

/// A lone group of one declared flag that takes no value is accepted and
/// sets that flag; a group whose value-taking letter is followed by another
/// letter is refused as not last; an undeclared letter is refused as unknown.
pub proof fn lemma_flag_groups(descs: Seq<(char, bool)>, c: char, d: char, rest: Seq<Seq<char>>)
    ensures
        flag_index(descs, c, 0) is Some && !descs[flag_index(descs, c, 0).unwrap()].1 ==> split_flags(
            descs,
            seq![seq!['-', c]],
            0,
        ) == Ok::<(Seq<char>, Seq<Seq<char>>), FlagError>((seq![c], seq![])),
        flag_index(descs, c, 0) is Some && descs[flag_index(descs, c, 0).unwrap()].1 ==> split_flags(
            descs,
            seq![seq!['-', c, d]] + rest,
            0,
        ) == Err::<(Seq<char>, Seq<Seq<char>>), FlagError>(FlagError::ArgumentNotLast),
        flag_index(descs, c, 0) is None ==> split_flags(descs, seq![seq!['-', c]] + rest, 0) == Err::<
            (Seq<char>, Seq<Seq<char>>),
            FlagError,
        >(FlagError::UnknownFlag(c)),
{
    reveal_with_fuel(group_spec, 3);
    reveal_with_fuel(split_flags, 2);
    let lone = seq![seq!['-', c]];
    assert(lone[0].subrange(1, 2) =~= seq![c]);
    assert(seq![c] + Seq::<char>::empty() =~= seq![c]);
    let grouped = seq![seq!['-', c, d]] + rest;
    assert(grouped[0] == seq!['-', c, d]);
    let unknown = seq![seq!['-', c]] + rest;
    assert(unknown[0] == seq!['-', c]);
}

pub open spec fn token_views(v: Seq<String>) -> Seq<Seq<char>> {
    v.map_values(|s: String| s@)
}

/// `r` with `flags` and `positional` put before what it holds.
pub open spec fn prepend_split(
    flags: Seq<char>,
    positional: Seq<Seq<char>>,
    r: Result<(Seq<char>, Seq<Seq<char>>), FlagError>,
) -> Result<(Seq<char>, Seq<Seq<char>>), FlagError> {
    match r {
        Err(e) => Err(e),
        Ok(p) => Ok((flags + p.0, positional + p.1)),
    }
}

fn find_flag(descs: &Vec<FlagDescription>, c: char) -> (r: Option<usize>)
    ensures
        match r {
            Some(i) => flag_index(flag_views(descs@), c, 0) == Some(i as int) && i < descs@.len(),
            None => flag_index(flag_views(descs@), c, 0).is_none(),
        },
{
    let mut i: usize = 0;
    while i < descs.len()
        invariant
            i <= descs@.len(),
            flag_index(flag_views(descs@), c, 0) == flag_index(flag_views(descs@), c, i as int),
        decreases descs.len() - i,
    {
        if descs[i].letter == c {
            return Some(i);
        }
        i = i + 1;
    }
    None
}

fn check_group(descs: &Vec<FlagDescription>, t: &Vec<char>) -> (r: Result<bool, FlagError>)
    ensures
        r == group_spec(flag_views(descs@), t@, 1, false),
{
    let mut k: usize = 1;
    let mut with_arg = false;
    while k < t.len()
        invariant
            1 <= k,
            group_spec(flag_views(descs@), t@, 1, false) == group_spec(flag_views(descs@), t@, k as int, with_arg),
        decreases t.len() - k,
    {
        if with_arg {
            return Err(FlagError::ArgumentNotLast);
        }
        let c = t[k];
        match find_flag(descs, c) {
            None => {
                return Err(FlagError::UnknownFlag(c));
            },
            Some(i) => {
                assert(flag_index(flag_views(descs@), c, 0) == Some(i as int));
                with_arg = descs[i].argument_type.is_some();
            },
        }
        k = k + 1;
    }
    if k == 0 {
        return Ok(false);
    }
    Ok(with_arg)
}

/// Separates flag groups from positional tokens, as `split_flags` states.
pub fn parse_flags(descs: &Vec<FlagDescription>, args: &Vec<String>) -> (r: Result<(Vec<char>, Vec<String>), FlagError>)
    ensures
        match r {
            Ok((f, p)) => split_flags(flag_views(descs@), token_views(args@), 0) == Ok::<(Seq<char>, Seq<Seq<char>>), FlagError>(
                (f@, token_views(p@)),
            ),
            Err(e) => split_flags(flag_views(descs@), token_views(args@), 0) == Err::<(Seq<char>, Seq<Seq<char>>), FlagError>(e),
        },
{
    let ghost toks = token_views(args@);
    let mut flags: Vec<char> = Vec::new();
    let mut positional: Vec<String> = Vec::new();
    let mut i: usize = 0;
    proof {
        assert(flags@ + Seq::<char>::empty() =~= flags@);
        assert(split_flags(flag_views(descs@), toks, 0) =~= prepend_split(flags@, token_views(positional@), split_flags(flag_views(descs@), toks, 0)));
    }
    while i < args.len()
        invariant
            toks == token_views(args@),
            toks.len() == args@.len(),
            i <= args@.len(),
            split_flags(flag_views(descs@), toks, 0) == prepend_split(flags@, token_views(positional@), split_flags(flag_views(descs@), toks, i as int)),
        decreases args.len() - i,
    {
        let t = to_chars(args[i].as_str());
        assert(t@ == toks[i as int]);
        if t.len() > 0 && t[0] == '-' {
            match check_group(descs, &t) {
                Err(e) => {
                    return Err(e);
                },
                Ok(arg) => {
                    let ghost before = flags@;
                    let mut k: usize = 1;
                    while k < t.len()
                        invariant
                            1 <= k <= t@.len(),
                            flags@ == before + t@.subrange(1, k as int),
                        decreases t.len() - k,
                    {
                        flags.push(t[k]);
                        k = k + 1;
                        proof {
                            assert(flags@ =~= before + t@.subrange(1, k as int));
                        }
                    }
                    proof {
                        let next = if arg && i + 1 < toks.len() { i + 2 } else { i + 1 };
                        let tail = split_flags(flag_views(descs@), toks, next);
                        if let Ok(p) = tail {
                            assert(before + (t@.subrange(1, t@.len() as int) + p.0) =~= flags@ + p.0);
                        }
                    }
                    i = if arg && i + 1 < args.len() { i + 2 } else { i + 1 };
                },
            }
        } else {
            let ghost before = token_views(positional@);
            positional.push(args[i].clone());
            proof {
                assert(token_views(positional@) =~= before.push(toks[i as int]));
                let tail = split_flags(flag_views(descs@), toks, i + 1);
                if let Ok(p) = tail {
                    assert(before + (seq![toks[i as int]] + p.1) =~= token_views(positional@) + p.1);
                }
            }
            i = i + 1;
        }
    }
    proof {
        assert(flags@ + Seq::<char>::empty() =~= flags@);
        assert(token_views(positional@) + Seq::<Seq<char>>::empty() =~= token_views(positional@));
    }
    Ok((flags, positional))
}

/// The value `t` spells as a `u32` in Rust's decimal syntax: an optional `+`,
/// then at least one digit.
pub open spec fn parse_u32_spec(t: Seq<char>) -> Option<u32> {
    let b: int = if t.len() > 0 && t[0] == '+' {
        1
    } else {
        0
    };
    if t.len() > b && (forall|k: int| b <= k < t.len() ==> is_digit(#[trigger] t[k])) && digits_value(
        t,
        b,
        t.len() as int,
    ) <= u32::MAX {
        Some(digits_value(t, b, t.len() as int) as u32)
    } else {
        None
    }
}

pub fn parse_u32(t: &Vec<char>) -> (r: Option<u32>)
    ensures
        r == parse_u32_spec(t@),
{
    let b: usize = if t.len() > 0 && t[0] == '+' {
        1
    } else {
        0
    };
    if t.len() <= b {
        return None;
    }
    let e = scan(t, b, CharClass::Digit);
    proof {
        lemma_run_end_bounds(t@, b as int, CharClass::Digit);
    }
    if e != t.len() {
        assert(!is_digit(t@[e as int]));
        return None;
    }
    let v = digits_saturating(t, b, e);
    if v > u32::MAX as u64 {
        None
    } else {
        Some(v as u32)
    }
}

/// Whether `r` is what parsing token `tok` (absent: `None`) as an argument of
/// type `ty` gives, for a user facing `facing`.
pub open spec fn parses_as(
    ty: ArgumentType,
    tok: Option<Seq<char>>,
    facing: BlockFacing,
    reg: BlockRegistry,
    r: Result<Argument, ArgumentParseError>,
) -> bool {
    match tok {
        None => match ty {
            ArgumentType::UnsignedInteger => r == Ok::<Argument, ArgumentParseError>(Argument::UnsignedInteger(1)),
            ArgumentType::Direction => r == Ok::<Argument, ArgumentParseError>(Argument::Direction(facing)),
            _ => r == Err::<Argument, ArgumentParseError>(
                ArgumentParseError { arg_type: ty, reason: ArgumentErrorReason::CannotBeInferred },
            ),
        },
        Some(t) => match ty {
            ArgumentType::Direction => if t == seq!['m', 'e'] {
                r == Ok::<Argument, ArgumentParseError>(Argument::Direction(facing))
            } else {
                r == Err::<Argument, ArgumentParseError>(
                    ArgumentParseError { arg_type: ty, reason: ArgumentErrorReason::UnknownDirection },
                )
            },
            ArgumentType::UnsignedInteger => match parse_u32_spec(t) {
                Some(v) => r == Ok::<Argument, ArgumentParseError>(Argument::UnsignedInteger(v)),
                None => r == Err::<Argument, ArgumentParseError>(
                    ArgumentParseError { arg_type: ty, reason: ArgumentErrorReason::InvalidUnsignedInteger },
                ),
            },
            ArgumentType::Pattern => match r {
                Ok(Argument::Pattern(p)) => pattern_parsed(t, reg, p.parts@),
                Err(e) => e.arg_type == ty && match e.reason {
                    ArgumentErrorReason::Pattern(pe) => pattern_rejected(t, reg, pe),
                    _ => false,
                },
                _ => false,
            },
            ArgumentType::Mask => match r {
                Ok(Argument::Mask(p)) => pattern_parsed(t, reg, p.parts@),
                Err(e) => e.arg_type == ty && match e.reason {
                    ArgumentErrorReason::Pattern(pe) => pattern_rejected(t, reg, pe),
                    _ => false,
                },
                _ => false,
            },
            ArgumentType::String => match r {
                Ok(Argument::String(s)) => s@ == t,
                _ => false,
            },
        },
    }
}

/// The token at position `i` of the positional tokens, if there is one.
pub open spec fn arg_token(pos: Seq<Seq<char>>, i: int) -> Option<Seq<char>> {
    if 0 <= i < pos.len() {
        Some(pos[i])
    } else {
        None
    }
}

/// Whether token `tok` (absent: `None`) parses as an argument of type `ty`.
pub open spec fn arg_parses(ty: ArgumentType, tok: Option<Seq<char>>, reg: BlockRegistry) -> bool {
    match tok {
        None => ty == ArgumentType::UnsignedInteger || ty == ArgumentType::Direction,
        Some(t) => match ty {
            ArgumentType::Direction => t == seq!['m', 'e'],
            ArgumentType::UnsignedInteger => parse_u32_spec(t).is_some(),
            ArgumentType::Pattern | ArgumentType::Mask => forall|i: int|
                0 <= i < split_commas(t).len() ==> (#[trigger] resolve_part(split_commas(t)[i], reg)) is Ok,
            ArgumentType::String => true,
        },
    }
}

/// A parse succeeds exactly where `arg_parses` says it does.
pub proof fn lemma_parse_succeeds(
    ty: ArgumentType,
    tok: Option<Seq<char>>,
    facing: BlockFacing,
    reg: BlockRegistry,
    r: Result<Argument, ArgumentParseError>,
)
    requires
        parses_as(ty, tok, facing, reg, r),
    ensures
        (r is Ok) == arg_parses(ty, tok, reg),
{
    if let Some(t) = tok {
        if ty == ArgumentType::Pattern || ty == ArgumentType::Mask {
            match r {
                Ok(a) => {
                    let parts = match a {
                        Argument::Pattern(p) => p.parts@,
                        Argument::Mask(p) => p.parts@,
                        _ => seq![],
                    };
                    assert(pattern_parsed(t, reg, parts));
                    assert forall|i: int| 0 <= i < split_commas(t).len() implies (#[trigger] resolve_part(split_commas(t)[i], reg)) is Ok by {
                        assert(resolve_part(split_commas(t)[i], reg) == Ok::<crate::pattern::WorldEditPatternPart, crate::pattern::PartFailure>(parts[i]));
                    }
                },
                Err(e) => {
                    if let ArgumentErrorReason::Pattern(pe) = e.reason {
                        assert(pattern_rejected(t, reg, pe));
                        let i = choose|i: int| #[trigger] first_failure(split_commas(t), reg, i) && crate::pattern::error_describes(pe, split_commas(t)[i], reg);
                        assert(!(resolve_part(split_commas(t)[i], reg) is Ok));
                    }
                },
            }
        }
    }
}

pub proof fn lemma_parsed_type(
    ty: ArgumentType,
    tok: Option<Seq<char>>,
    facing: BlockFacing,
    reg: BlockRegistry,
    r: Result<Argument, ArgumentParseError>,
)
    requires
        parses_as(ty, tok, facing, reg, r),
    ensures
        r is Ok ==> r->Ok_0.has_type(ty),
{
}

/// Parses one argument of type `arg_type`; an absent token takes the type's
/// default where it has one (a direction: the way the user faces; an
/// unsigned integer: 1).
pub fn parse_argument(
    arg_type: ArgumentType,
    arg: Option<&String>,
    facing: BlockFacing,
    registry: &BlockRegistry,
) -> (r: Result<Argument, ArgumentParseError>)
    ensures
        parses_as(
            arg_type,
            match arg {
                Some(s) => Some(s@),
                None => None,
            },
            facing,
            *registry,
            r,
        ),
{
    match arg {
        None => match arg_type {
            ArgumentType::UnsignedInteger => Ok(Argument::UnsignedInteger(1)),
            ArgumentType::Direction => Ok(Argument::Direction(facing)),
            _ => Err(ArgumentParseError::new(arg_type, ArgumentErrorReason::CannotBeInferred)),
        },
        Some(s) => match arg_type {
            ArgumentType::Direction => {
                let t = to_chars(s.as_str());
                if t.len() == 2 && t[0] == 'm' && t[1] == 'e' {
                    proof {
                        assert(t@ =~= seq!['m', 'e']);
                    }
                    Ok(Argument::Direction(facing))
                } else {
                    proof {
                        if t@ == seq!['m', 'e'] {
                            assert(t@[0] == 'm' && t@[1] == 'e');
                        }
                    }
                    Err(ArgumentParseError::new(arg_type, ArgumentErrorReason::UnknownDirection))
                }
            },
            ArgumentType::UnsignedInteger => {
                let t = to_chars(s.as_str());
                match parse_u32(&t) {
                    Some(v) => Ok(Argument::UnsignedInteger(v)),
                    None => Err(ArgumentParseError::new(arg_type, ArgumentErrorReason::InvalidUnsignedInteger)),
                }
            },
            ArgumentType::Pattern => match WorldEditPattern::from_str(s.as_str(), registry) {
                Ok(p) => Ok(Argument::Pattern(p)),
                Err(e) => Err(ArgumentParseError::new(arg_type, ArgumentErrorReason::Pattern(e))),
            },
            ArgumentType::Mask => match WorldEditPattern::from_str(s.as_str(), registry) {
                Ok(p) => Ok(Argument::Mask(p)),
                Err(e) => Err(ArgumentParseError::new(arg_type, ArgumentErrorReason::Pattern(e))),
            },
            ArgumentType::String => Ok(Argument::String(s.clone())),
        },
    }
}

} // verus!
