use crate::items::expression::{
    decoded, emitted, outcome_of, settled, Expression, ExpressionType,
};
use crate::items::variable::{shown, Computed, FloatTask, Outcome, Type, Value, Variable};
use crate::scope::{
    assigned_or_declared, declared_by_count, keeps_types, lemma_declared_keeps_types,
    lemma_declared_slot_is_unset, lookup, opened, Frame, Scope,
};
use crate::text::{parse_int, parsed_int, Fragment, Piece};
use crate::transpile::{
    chars, indented, push_all, push_indented, push_slot, push_text, slot_name, Token,
};
use crate::utils::{
    count_of, input_error, lemma_sorted_entries_lie_deeper, malformed, sorted_entries,
    sorted_subfolders, subfolder_count, targets, Error, ErrorKind, Folder,
};
use vstd::prelude::*;

verus! {

/// The six kinds of commands.
#[derive(Debug, Clone, Copy, PartialEq, Eq, Structural)]
pub enum CommandType {
    If,
    While,
    Declare,
    Let,
    Print,
    Input,
}

impl CommandType {
    /// The kind that a number of sub-folders selects.
    pub open spec fn of_count(count: usize) -> Option<CommandType> {
        if count == 0 {
            Some(CommandType::If)
        } else if count == 1 {
            Some(CommandType::While)
        } else if count == 2 {
            Some(CommandType::Declare)
        } else if count == 3 {
            Some(CommandType::Let)
        } else if count == 4 {
            Some(CommandType::Print)
        } else if count == 5 {
            Some(CommandType::Input)
        } else {
            None
        }
    }

    /// How many sub-folders a command of this kind has: the one that
    /// selects the kind, and one operand for `Print` and `Input`, two for
    /// the others.
    pub open spec fn size(self) -> nat {
        if self == CommandType::Print || self == CommandType::Input {
            2
        } else {
            3
        }
    }
}

/// A command, decoded as far as its kind: its operands are still folders.
pub struct Command<'a> {
    /// the folder that was decoded
    folder: &'a Folder,
    /// its sub-folders, in order
    folders: Vec<&'a Folder>,
    command_type: CommandType,
}

/// A line that was read for an `Input` command.
#[derive(Debug)]
pub struct Line {
    /// The line, without the white space at its ends.
    pub text: String,
    /// The bits of the single-precision number that the text spells, if it
    /// spells one.
    pub float: Option<u32>,
}

/// What a command asks of the one who runs the program.
#[derive(Debug)]
pub enum Effect<'a> {
    /// The command is done; the next one follows.
    Advance,
    /// The command is done, and this is to be written out.
    Write(Piece),
    /// A line is to be read, and the command run again with it.
    Read,
    /// Arithmetic is to be done, and the command run again with its
    /// result added to the answers.
    Compute(FloatTask),
    /// The commands inside `body` are to be run in a frame of their own;
    /// after them the command is done, or is run again if `again` is set.
    Enter { body: &'a Folder, again: bool },
}

/// What an `Effect` stands for.
pub enum Asked {
    Advance,
    Write(Fragment),
    Read,
    Compute(FloatTask),
    Enter { body: Folder, again: bool },
}

impl<'a> View for Effect<'a> {
    type V = Asked;

    open spec fn view(&self) -> Asked {
        match *self {
            Effect::Advance => Asked::Advance,
            Effect::Write(piece) => Asked::Write(piece@),
            Effect::Read => Asked::Read,
            Effect::Compute(task) => Asked::Compute(task),
            Effect::Enter { body, again } => Asked::Enter { body: *body, again },
        }
    }
}

/// The kind of the command that a folder holds, and its sub-folders in
/// order.
///
/// The first sub-folder selects the kind by the number of its own
/// sub-folders. The others are the operands, and there must be as many as
/// the kind asks for.
pub open spec fn decoded_command(folder: Folder) -> Result<(CommandType, Seq<Folder>), Error> {
    match sorted_entries(folder) {
        Err(e) => Err(e),
        Ok(parts) => {
            if parts.len() == 0 {
                Err(malformed(folder))
            } else {
                match count_of(parts[0]) {
                    Err(e) => Err(e),
                    Ok(count) => match CommandType::of_count(count) {
                        None => Err(malformed(parts[0])),
                        Some(kind) => {
                            if parts.len() == kind.size() {
                                Ok((kind, parts))
                            } else {
                                Err(malformed(folder))
                            }
                        },
                    },
                }
            }
        },
    }
}

/// The frames after the declaration that a command makes: the slot is
/// declared in the innermost frame if it is not there yet, with the type
/// that the number of sub-folders of `place` selects. If that number
/// selects no type, `place` is malformed.
pub open spec fn declared_at(frames: Seq<Frame>, place: Folder, count: usize, slot: usize) -> Result<
    Seq<Frame>,
    Error,
> {
    match declared_by_count(frames, count, slot) {
        Ok(after) => Ok(after),
        Err(e) => {
            if e.kind == ErrorKind::Decode {
                Err(malformed(place))
            } else {
                Err(e)
            }
        },
    }
}

/// The value that a line of input stands for: an integer if the text
/// spells one, else a single-precision number if it spells one, else a
/// character if it is one character long, else the text itself.
pub open spec fn input_value(text: Seq<char>, float: Option<u32>) -> Value {
    match parsed_int(text) {
        Some(i) => Value::Int(Some(i)),
        None => match float {
            Some(bits) => Value::Float(Some(bits)),
            None => {
                if text.len() == 1 {
                    Value::Char(Some(text[0]))
                } else {
                    Value::Text(Some(text))
                }
            },
        },
    }
}

/// What follows from the value of a condition: the body is entered if the
/// value counts as true, and else the command is done.
pub open spec fn branched(value: Value, body: Folder, again: bool) -> Asked {
    if value.truthy() {
        Asked::Enter { body, again }
    } else {
        Asked::Advance
    }
}

/// What running the command in a folder does to the frames, and what it
/// asks for.
///
/// `answers` holds the results of the arithmetic that the command asked
/// for so far, and `line` the line that was read for it, if one was.
/// - `Declare` declares the slot in the innermost frame.
/// - `Let` works the expression out and assigns the value, declaring the
///   slot if no frame holds it.
/// - `Print` works the expression out and asks for the value to be
///   written.
/// - `Input` asks for a line and, once it is there, assigns the value that
///   the line stands for, declaring the slot if no frame holds it.
/// - `If` and `While` work the condition out and enter their body if it
///   counts as true; `While` is then run again.
pub open spec fn ran(
    folder: Folder,
    frames: Seq<Frame>,
    answers: Seq<u32>,
    line: Option<(Seq<char>, Option<u32>)>,
) -> Result<(Seq<Frame>, Asked), Error> {
    match decoded_command(folder) {
        Err(e) => Err(e),
        Ok((kind, parts)) => match kind {
            CommandType::Declare => match count_of(parts[1]) {
                Err(e) => Err(e),
                Ok(count) => match count_of(parts[2]) {
                    Err(e) => Err(e),
                    Ok(slot) => match declared_at(frames, parts[1], count, slot) {
                        Err(e) => Err(e),
                        Ok(after) => Ok((after, Asked::Advance)),
                    },
                },
            },
            CommandType::Let => match count_of(parts[1]) {
                Err(e) => Err(e),
                Ok(slot) => match outcome_of(parts[2], frames, answers) {
                    Err(e) => Err(e),
                    Ok(Computed::Float(task)) => Ok((frames, Asked::Compute(task))),
                    Ok(Computed::Value(value)) => match assigned_or_declared(frames, slot, value) {
                        Err(e) => Err(e),
                        Ok(after) => Ok((after, Asked::Advance)),
                    },
                },
            },
            CommandType::Print => match outcome_of(parts[1], frames, answers) {
                Err(e) => Err(e),
                Ok(Computed::Float(task)) => Ok((frames, Asked::Compute(task))),
                Ok(Computed::Value(value)) => Ok((frames, Asked::Write(shown(value)))),
            },
            CommandType::Input => match line {
                None => Ok((frames, Asked::Read)),
                Some((text, float)) => match count_of(parts[1]) {
                    Err(e) => Err(e),
                    Ok(slot) => match assigned_or_declared(frames, slot, input_value(text, float)) {
                        Err(e) => Err(e),
                        Ok(after) => Ok((after, Asked::Advance)),
                    },
                },
            },
            CommandType::If => match outcome_of(parts[1], frames, answers) {
                Err(e) => Err(e),
                Ok(Computed::Float(task)) => Ok((frames, Asked::Compute(task))),
                Ok(Computed::Value(value)) => Ok((frames, branched(value, parts[2], false))),
            },
            CommandType::While => match outcome_of(parts[1], frames, answers) {
                Err(e) => Err(e),
                Ok(Computed::Float(task)) => Ok((frames, Asked::Compute(task))),
                Ok(Computed::Value(value)) => Ok((frames, branched(value, parts[2], true))),
            },
        },
    }
}

/// Running a command takes no slot away and changes the type of none,
/// and leaves as many frames as there were.
pub proof fn lemma_ran_keeps_types(
    folder: Folder,
    frames: Seq<Frame>,
    answers: Seq<u32>,
    line: Option<(Seq<char>, Option<u32>)>,
)
    requires
        frames.len() >= 1,
    ensures
        match ran(folder, frames, answers, line) {
            Ok((after, _)) => keeps_types(frames, after),
            Err(_) => true,
        },
{
    if let Ok((kind, parts)) = decoded_command(folder) {
        if kind == CommandType::Let {
            if let Ok(slot) = count_of(parts[1]) {
                if let Ok(Computed::Value(value)) = outcome_of(parts[2], frames, answers) {
                    lemma_declared_keeps_types(frames, slot, value);
                }
            }
        } else if kind == CommandType::Input {
            if let Some((text, float)) = line {
                if let Ok(slot) = count_of(parts[1]) {
                    lemma_declared_keeps_types(frames, slot, input_value(text, float));
                }
            }
        } else if kind == CommandType::Declare {
            if let Ok(count) = count_of(parts[1]) {
                if let Ok(slot) = count_of(parts[2]) {
                    if let Some(kind) = Type::of_count(count) {
                        lemma_declared_keeps_types(frames, slot, Value::unset(kind));
                    }
                }
            }
        }
    }
}

/// A command that enters its body, asks for something or writes leaves
/// the frames as they are.
pub proof fn lemma_only_assignments_change_frames(
    folder: Folder,
    frames: Seq<Frame>,
    answers: Seq<u32>,
    line: Option<(Seq<char>, Option<u32>)>,
)
    ensures
        match ran(folder, frames, answers, line) {
            Ok((after, Asked::Advance)) => true,
            Ok((after, _)) => after == frames,
            Err(_) => true,
        },
{
}

/// The text that a command was turned into, and whether anything in it
/// prints.
#[derive(Debug)]
pub struct Translation {
    pub text: Vec<Token>,
    pub prints: bool,
}

/// The name of a type in the text.
pub open spec fn type_word(kind: Type) -> Seq<char> {
    match kind {
        Type::Int => "i32"@,
        Type::Float => "f32"@,
        Type::String => "String"@,
        Type::Char => "char"@,
    }
}

/// The text of a declaration.
pub open spec fn declaration_text(kind: Type, slot: usize) -> Seq<Token> {
    chars("let mut "@) + slot_name(slot) + chars(": "@) + chars(type_word(kind)) + chars(";"@)
}

/// The text of an assignment. It introduces the name if the slot is
/// `fresh`, and takes a copy of the value if `copy` is set.
pub open spec fn assignment_text(fresh: bool, slot: usize, value: Seq<Token>, copy: bool) -> Seq<
    Token,
> {
    (if fresh {
        chars("let mut "@)
    } else {
        Seq::empty()
    }) + slot_name(slot) + chars(" = "@) + value + (if copy {
        chars(".clone()"@)
    } else {
        Seq::empty()
    }) + chars(";"@)
}

/// The text of a condition. A comparison is a condition as it stands; any
/// other expression is tested by its type: a number against nought, a
/// character against the zero code point, a text for not being empty.
pub open spec fn condition_text(kind: ExpressionType, of: Type, text: Seq<Token>) -> Seq<Token> {
    if kind == ExpressionType::EqualTo || kind == ExpressionType::GreaterThan || kind
        == ExpressionType::LessThan {
        text
    } else {
        match of {
            Type::Char => text + chars(" != '\\0'"@),
            Type::Float => text + chars(" != 0.0"@),
            Type::Int => text + chars(" != 0"@),
            Type::String => {
                if kind == ExpressionType::Add {
                    chars("!("@) + text + chars(").is_empty()"@)
                } else {
                    chars("!"@) + text + chars(".is_empty()"@)
                }
            },
        }
    }
}

/// The text of a command with a body.
pub open spec fn block_text(again: bool, condition: Seq<Token>, body: Seq<Token>) -> Seq<Token> {
    (if again {
        chars("\nwhile "@)
    } else {
        chars("\nif "@)
    }) + condition + chars(" {\n"@) + body + chars("}"@)
}

/// The text of a `Print`.
pub open spec fn print_text(value: Seq<Token>) -> Seq<Token> {
    chars("print!(\"{}\", "@) + value + chars(");\n"@) + chars(
        "std::io::stdout().flush().unwrap();\n"@,
    )
}

/// The text of an `Input`. It introduces the name, as that of a text, if
/// the slot is `fresh`.
pub open spec fn input_text(fresh: bool, slot: usize) -> Seq<Token> {
    (if fresh {
        chars("let mut "@) + slot_name(slot) + chars(" = String::new();\n"@)
    } else {
        Seq::empty()
    }) + chars("std::io::stdin().read_line(&mut "@) + slot_name(slot) + chars(").unwrap();\n"@)
}

/// How many commands a body holds.
pub open spec fn commands_in(body: Folder) -> nat {
    match sorted_entries(body) {
        Ok(commands) => commands.len(),
        Err(_) => 0,
    }
}

/// What turning the command in a folder into text does to the frames, the
/// text, and whether anything in it prints.
///
/// The frames keep track of the slots that are declared and of their
/// types, as they do when the program is run, with nought in place of the
/// result of all single-precision arithmetic and an empty text in place of
/// every line of input. A body is turned into text once, whatever its
/// condition comes to, in a frame of its own.
pub open spec fn translated(folder: Folder, frames: Seq<Frame>) -> Result<
    (Seq<Frame>, Seq<Token>, bool),
    Error,
>
    decreases folder, 0nat,
{
    match decoded_command(folder) {
        Err(e) => Err(e),
        Ok((kind, parts)) => match kind {
            CommandType::Declare => match count_of(parts[1]) {
                Err(e) => Err(e),
                Ok(count) => match count_of(parts[2]) {
                    Err(e) => Err(e),
                    Ok(slot) => match declared_at(frames, parts[1], count, slot) {
                        Err(e) => Err(e),
                        Ok(after) => Ok(
                            (after, declaration_text(Type::of_count(count)->0, slot), false),
                        ),
                    },
                },
            },
            CommandType::Let => match count_of(parts[1]) {
                Err(e) => Err(e),
                Ok(slot) => match decoded(parts[2]) {
                    Err(e) => Err(e),
                    Ok((value_kind, _)) => match settled(parts[2], frames) {
                        Err(e) => Err(e),
                        Ok(value) => match emitted(parts[2], frames) {
                            Err(e) => Err(e),
                            Ok(text) => match assigned_or_declared(frames, slot, value) {
                                Err(e) => Err(e),
                                Ok(after) => Ok(
                                    (
                                        after,
                                        assignment_text(
                                            lookup(frames, slot) is None,
                                            slot,
                                            text,
                                            value.kind() == Type::String && value_kind
                                                == ExpressionType::Variable,
                                        ),
                                        false,
                                    ),
                                ),
                            },
                        },
                    },
                },
            },
            CommandType::Print => match emitted(parts[1], frames) {
                Err(e) => Err(e),
                Ok(text) => Ok((frames, print_text(text), true)),
            },
            CommandType::Input => match count_of(parts[1]) {
                Err(e) => Err(e),
                Ok(slot) => match assigned_or_declared(
                    frames,
                    slot,
                    Value::Text(Some(Seq::empty())),
                ) {
                    Err(e) => Err(e),
                    Ok(after) => Ok((after, input_text(lookup(frames, slot) is None, slot), false)),
                },
            },
            _ => match decoded(parts[1]) {
                Err(e) => Err(e),
                Ok((condition_kind, _)) => match emitted(parts[1], frames) {
                    Err(e) => Err(e),
                    Ok(text) => match settled(parts[1], frames) {
                        Err(e) => Err(e),
                        Ok(value) => {
                            proof {
                                lemma_sorted_entries_lie_deeper(folder);
                            }
                            match translated_block(
                                parts[2],
                                opened(frames),
                                commands_in(parts[2]),
                            ) {
                                Err(e) => Err(e),
                                Ok((inner, body, prints)) => Ok(
                                    (
                                        inner.drop_first(),
                                        block_text(
                                            kind == CommandType::While,
                                            condition_text(condition_kind, value.kind(), text),
                                            body,
                                        ),
                                        prints,
                                    ),
                                ),
                            }
                        },
                    },
                },
            },
        },
    }
}

/// What turning the first `count` commands of a body into text does to the
/// frames, the text, and whether anything in it prints. The commands are
/// taken in order, and the text of each is moved in by one level.
pub open spec fn translated_block(body: Folder, frames: Seq<Frame>, count: nat) -> Result<
    (Seq<Frame>, Seq<Token>, bool),
    Error,
>
    decreases body, count,
{
    match sorted_entries(body) {
        Err(e) => Err(e),
        Ok(commands) => {
            if count == 0 || count > commands.len() {
                Ok((frames, Seq::empty(), false))
            } else {
                match translated_block(body, frames, (count - 1) as nat) {
                    Err(e) => Err(e),
                    Ok((before, text, prints)) => {
                        proof {
                            lemma_sorted_entries_lie_deeper(body);
                        }
                        match translated(commands[count - 1], before) {
                            Err(e) => Err(e),
                            Ok((after, more, more_prints)) => Ok(
                                (after, text + indented(more), prints || more_prints),
                            ),
                        }
                    },
                }
            }
        },
    }
}

/// A failure among the first commands of a body is the failure of the
/// body.
pub proof fn lemma_block_fails_early(body: Folder, frames: Seq<Frame>, count: nat, all: nat)
    requires
        count <= all <= commands_in(body),
        translated_block(body, frames, count) is Err,
    ensures
        translated_block(body, frames, all) == translated_block(body, frames, count),
    decreases all,
{
    if count < all {
        lemma_block_fails_early(body, frames, count, (all - 1) as nat);
    }
}

/// Turning a command into text leaves as many frames as there were.
pub proof fn lemma_translated_keeps_depth(folder: Folder, frames: Seq<Frame>)
    requires
        frames.len() >= 1,
    ensures
        match translated(folder, frames) {
            Ok((after, _, _)) => after.len() == frames.len(),
            Err(_) => true,
        },
    decreases folder, 0nat,
{
    if let Ok((kind, parts)) = decoded_command(folder) {
        match kind {
            CommandType::Declare => {},
            CommandType::Let => {
                if let Ok(slot) = count_of(parts[1]) {
                    if let Ok(value) = settled(parts[2], frames) {
                        lemma_declared_keeps_types(frames, slot, value);
                    }
                }
            },
            CommandType::Print => {},
            CommandType::Input => {
                if let Ok(slot) = count_of(parts[1]) {
                    lemma_declared_keeps_types(frames, slot, Value::Text(Some(Seq::empty())));
                }
            },
            _ => {
                lemma_sorted_entries_lie_deeper(folder);
                lemma_block_keeps_depth(parts[2], opened(frames), commands_in(parts[2]));
            },
        }
    }
}

/// Turning commands into text leaves as many frames as there were.
pub proof fn lemma_block_keeps_depth(body: Folder, frames: Seq<Frame>, count: nat)
    requires
        frames.len() >= 1,
    ensures
        match translated_block(body, frames, count) {
            Ok((after, _, _)) => after.len() == frames.len(),
            Err(_) => true,
        },
    decreases body, count,
{
    if let Ok(commands) = sorted_entries(body) {
        if count != 0 && count <= commands.len() {
            lemma_block_keeps_depth(body, frames, (count - 1) as nat);
            if let Ok((before, _, _)) = translated_block(body, frames, (count - 1) as nat) {
                lemma_sorted_entries_lie_deeper(body);
                lemma_translated_keeps_depth(commands[count - 1], before);
            }
        }
    }
}

fn type_text(kind: Type) -> (word: &'static str)
    ensures
        word@ == type_word(kind),
{
    match kind {
        Type::Int => "i32",
        Type::Float => "f32",
        Type::String => "String",
        Type::Char => "char",
    }
}

fn push_condition(out: &mut Vec<Token>, kind: ExpressionType, of: Type, text: &Vec<Token>)
    ensures
        final(out)@ == old(out)@ + condition_text(kind, of, text@),
{
    match kind {
        ExpressionType::EqualTo | ExpressionType::GreaterThan | ExpressionType::LessThan => {
            push_all(out, text);
        },
        _ => match of {
            Type::Char => {
                push_all(out, text);
                push_text(out, " != '\\0'");
                assert(out@ == old(out)@ + (text@ + chars(" != '\\0'"@)));
            },
            Type::Float => {
                push_all(out, text);
                push_text(out, " != 0.0");
                assert(out@ == old(out)@ + (text@ + chars(" != 0.0"@)));
            },
            Type::Int => {
                push_all(out, text);
                push_text(out, " != 0");
                assert(out@ == old(out)@ + (text@ + chars(" != 0"@)));
            },
            Type::String => {
                match kind {
                    ExpressionType::Add => {
                        push_text(out, "!(");
                        push_all(out, text);
                        push_text(out, ").is_empty()");
                        assert(out@ == old(out)@ + (chars("!("@) + text@ + chars(
                            ").is_empty()"@,
                        )));
                    },
                    _ => {
                        push_text(out, "!");
                        push_all(out, text);
                        push_text(out, ".is_empty()");
                        assert(out@ == old(out)@ + (chars("!"@) + text@ + chars(
                            ".is_empty()"@,
                        )));
                    },
                }
            },
        },
    }
}

/// Turns the commands of a body into text, in order, each moved in by one
/// level.
pub fn transpile_block<'a>(body: &'a Folder, scope: Scope) -> (r: Result<
    (Scope, Translation),
    Error,
>)
    ensures
        match r {
            Ok((after, translation)) => translated_block(*body, scope@, commands_in(*body)) == Ok::<
                (Seq<Frame>, Seq<Token>, bool),
                Error,
            >((after@, translation.text@, translation.prints)),
            Err(e) => translated_block(*body, scope@, commands_in(*body)) == Err::<
                (Seq<Frame>, Seq<Token>, bool),
                Error,
            >(e),
        },
    decreases *body, 1nat,
{
    let ghost start = scope@;
    let commands = sorted_subfolders(body)?;
    let mut current = scope;
    let mut out: Vec<Token> = Vec::new();
    let mut prints = false;
    let mut at: usize = 0;
    while at < commands.len()
        invariant
            at <= commands.len(),
            sorted_entries(*body) == Ok::<Seq<Folder>, Error>(targets(commands@)),
            translated_block(*body, start, at as nat) == Ok::<
                (Seq<Frame>, Seq<Token>, bool),
                Error,
            >((current@, out@, prints)),
            start == scope@,
        decreases commands.len() - at,
    {
        proof {
            lemma_sorted_entries_lie_deeper(*body);
        }
        let ghost before = current@;
        assert(targets(commands@)[at as int] == *commands[at as int]);
        let done = match Command::new(commands[at]) {
            Ok(command) => command.transpile(current),
            Err(e) => Err(e),
        };
        match done {
            Ok((after, translation)) => {
                current = after;
                push_indented(&mut out, &translation.text);
                prints = prints || translation.prints;
            },
            Err(e) => {
                proof {
                    assert(translated(*commands[at as int], before) == Err::<
                        (Seq<Frame>, Seq<Token>, bool),
                        Error,
                    >(e));
                    assert(translated_block(*body, start, (at + 1) as nat) == Err::<
                        (Seq<Frame>, Seq<Token>, bool),
                        Error,
                    >(e));
                    lemma_block_fails_early(
                        *body,
                        start,
                        (at + 1) as nat,
                        commands.len() as nat,
                    );
                }
                return Err(e);
            },
        }
        at = at + 1;
    }
    Ok((current, Translation { text: out, prints }))
}

impl Line {
    /// The text of the line and the number that it spells.
    pub open spec fn view(&self) -> (Seq<char>, Option<u32>) {
        (self.text@, self.float)
    }
}

/// The view of a line that may not be there.
pub open spec fn line_view(line: Option<Line>) -> Option<(Seq<char>, Option<u32>)> {
    match line {
        Some(line) => Some(line.view()),
        None => None,
    }
}

impl<'a> Command<'a> {
    /// The folder that the command was decoded from.
    pub closed spec fn source(&self) -> Folder {
        *self.folder
    }

    /// The sub-folders of that folder, in order.
    pub closed spec fn parts(&self) -> Seq<Folder> {
        targets(self.folders@)
    }

    /// The kind of the command.
    pub closed spec fn kind(&self) -> CommandType {
        self.command_type
    }

    /// The command is what its folder decodes to.
    pub open spec fn wf(&self) -> bool {
        decoded_command(self.source()) == Ok::<(CommandType, Seq<Folder>), Error>(
            (self.kind(), self.parts()),
        )
    }

    /// The kind of command that a number of sub-folders selects.
    pub fn get_type(folder_count: usize) -> (kind: Option<CommandType>)
        ensures
            kind == CommandType::of_count(folder_count),
    {
        match folder_count {
            0 => Some(CommandType::If),
            1 => Some(CommandType::While),
            2 => Some(CommandType::Declare),
            3 => Some(CommandType::Let),
            4 => Some(CommandType::Print),
            5 => Some(CommandType::Input),
            _ => None,
        }
    }

    /// The kind of the command.
    pub fn command_type(&self) -> (kind: CommandType)
        ensures
            kind == self.kind(),
    {
        self.command_type
    }

    /// Declares the slot, and returns its number.
    fn declare_variable(&self, scope: &mut Scope) -> (r: Result<usize, Error>)
        requires
            self.wf(),
            self.kind() == CommandType::Declare,
        ensures
            match r {
                Ok(index) => {
                    &&& count_of(self.parts()[1]) matches Ok(count)
                    &&& count_of(self.parts()[2]) == Ok::<usize, Error>(index)
                    &&& declared_at(old(scope)@, self.parts()[1], count, index) == Ok::<
                        Seq<Frame>,
                        Error,
                    >(final(scope)@)
                },
                Err(e) => final(scope)@ == old(scope)@ && match count_of(self.parts()[1]) {
                    Err(f) => e == f,
                    Ok(count) => match count_of(self.parts()[2]) {
                        Err(f) => e == f,
                        Ok(index) => declared_at(old(scope)@, self.parts()[1], count, index)
                            == Err::<Seq<Frame>, Error>(e),
                    },
                },
            },
    {
        let folders_count = subfolder_count(self.folders[1])?;
        let index = subfolder_count(self.folders[2])?;
        match scope.declare_variable(folders_count, index) {
            Ok(_) => Ok(index),
            Err(e) => match e.kind {
                ErrorKind::Decode => Err(input_error(self.folders[1].path.clone())),
                _ => Err(e),
            },
        }
    }

    /// Works the expression out and assigns its value to the slot.
    fn store_expression(&self, scope: &mut Scope, answers: &Vec<u32>) -> (r: Result<
        Effect<'a>,
        Error,
    >)
        requires
            self.wf(),
            self.kind() == CommandType::Let,
        ensures
            match r {
                Ok(effect) => ran(self.source(), old(scope)@, answers@, None) == Ok::<
                    (Seq<Frame>, Asked),
                    Error,
                >((final(scope)@, effect@)),
                Err(e) => ran(self.source(), old(scope)@, answers@, None) == Err::<
                    (Seq<Frame>, Asked),
                    Error,
                >(e) && final(scope)@ == old(scope)@,
            },
    {
        let var_index = subfolder_count(self.folders[1])?;
        let exp = Expression::new(self.folders[2])?;
        match exp.execute(scope, answers)? {
            Outcome::Float(task) => Ok(Effect::Compute(task)),
            Outcome::Value(value) => {
                scope.set_or_create_variable(var_index, value)?;
                Ok(Effect::Advance)
            },
        }
    }

    /// Works the expression out and asks for its value to be written.
    fn print_expression(&self, scope: &Scope, answers: &Vec<u32>) -> (r: Result<Effect<'a>, Error>)
        requires
            self.wf(),
            self.kind() == CommandType::Print,
        ensures
            match r {
                Ok(effect) => ran(self.source(), scope@, answers@, None) == Ok::<
                    (Seq<Frame>, Asked),
                    Error,
                >((scope@, effect@)),
                Err(e) => ran(self.source(), scope@, answers@, None) == Err::<
                    (Seq<Frame>, Asked),
                    Error,
                >(e),
            },
    {
        let exp = Expression::new(self.folders[1])?;
        match exp.execute(scope, answers)? {
            Outcome::Float(task) => Ok(Effect::Compute(task)),
            Outcome::Value(value) => Ok(Effect::Write(value.render())),
        }
    }

    /// Works the condition out and, if it counts as true, asks for the body
    /// to be run in a frame of its own.
    fn execute_in_new_scope(&self, scope: &Scope, answers: &Vec<u32>, again: bool) -> (r: Result<
        Effect<'a>,
        Error,
    >)
        requires
            self.wf(),
            self.kind() == (if again {
                CommandType::While
            } else {
                CommandType::If
            }),
        ensures
            match r {
                Ok(effect) => ran(self.source(), scope@, answers@, None) == Ok::<
                    (Seq<Frame>, Asked),
                    Error,
                >((scope@, effect@)),
                Err(e) => ran(self.source(), scope@, answers@, None) == Err::<
                    (Seq<Frame>, Asked),
                    Error,
                >(e),
            },
    {
        let exp = Expression::new(self.folders[1])?;
        match exp.execute(scope, answers)? {
            Outcome::Float(task) => Ok(Effect::Compute(task)),
            Outcome::Value(value) => {
                if value.is_truthy() {
                    Ok(Effect::Enter { body: self.folders[2], again })
                } else {
                    Ok(Effect::Advance)
                }
            },
        }
    }

    /// Turns a line of input into a value.
    pub fn get_input(line: Line) -> (value: Variable)
        ensures
            value@ == input_value(line.text@, line.float),
    {
        if let Some(number) = parse_int(line.text.as_str()) {
            Variable::Int(Some(number))
        } else if let Some(float) = line.float {
            Variable::Float(Some(float))
        } else if line.text.as_str().unicode_len() == 1 {
            Variable::Char(Some(line.text.as_str().get_char(0)))
        } else {
            Variable::String(Some(line.text))
        }
    }

    /// Runs the command against the variables of `scope`, as far as it
    /// goes without the world outside: where the command needs a line of
    /// input or a piece of arithmetic, or has something to write or a body
    /// to enter, it says so and leaves that to the caller.
    pub fn run(&self, scope: &mut Scope, answers: &Vec<u32>, line: Option<Line>) -> (r: Result<
        Effect<'a>,
        Error,
    >)
        requires
            self.wf(),
        ensures
            match r {
                Ok(effect) => ran(self.source(), old(scope)@, answers@, line_view(line)) == Ok::<
                    (Seq<Frame>, Asked),
                    Error,
                >((final(scope)@, effect@)),
                Err(e) => ran(self.source(), old(scope)@, answers@, line_view(line)) == Err::<
                    (Seq<Frame>, Asked),
                    Error,
                >(e) && final(scope)@ == old(scope)@,
            },
    {
        match self.command_type {
            CommandType::Declare => {
                self.declare_variable(scope)?;
                Ok(Effect::Advance)
            },
            CommandType::Let => self.store_expression(scope, answers),
            CommandType::Print => self.print_expression(scope, answers),
            CommandType::If => self.execute_in_new_scope(scope, answers, false),
            CommandType::While => self.execute_in_new_scope(scope, answers, true),
            CommandType::Input => {
                let line = match line {
                    Some(line) => line,
                    None => {
                        return Ok(Effect::Read);
                    },
                };
                let var_index = subfolder_count(self.folders[1])?;
                let value = Command::get_input(line);
                scope.set_or_create_variable(var_index, value)?;
                Ok(Effect::Advance)
            },
        }
    }

    /// Turns the command into text.
    ///
    /// The scope keeps track of the slots that are declared and of their
    /// types. No arithmetic on single-precision numbers is carried out and
    /// nothing is read or written.
    pub fn transpile(&self, scope: Scope) -> (r: Result<(Scope, Translation), Error>)
        requires
            self.wf(),
        ensures
            match r {
                Ok((after, translation)) => translated(self.source(), scope@) == Ok::<
                    (Seq<Frame>, Seq<Token>, bool),
                    Error,
                >((after@, translation.text@, translation.prints)),
                Err(e) => translated(self.source(), scope@) == Err::<
                    (Seq<Frame>, Seq<Token>, bool),
                    Error,
                >(e),
            },
        decreases self.source(), 0nat,
    {
        let mut scope = scope;
        let mut out: Vec<Token> = Vec::new();
        match self.command_type {
            CommandType::Declare => {
                proof {
                    scope.lemma_has_frame();
                }
                let ghost before = scope@;
                let index = self.declare_variable(&mut scope)?;
                let kind = match scope.get_variable(index) {
                    Some(var) => var.get_type(),
                    None => Type::Int,
                };
                push_text(&mut out, "let mut ");
                push_slot(&mut out, index);
                push_text(&mut out, ": ");
                push_text(&mut out, type_text(kind));
                push_text(&mut out, ";");
                proof {
                    lemma_declared_slot_is_unset(before, count_of(self.parts()[1])->Ok_0, index);
                }
                assert(out@ == declaration_text(kind, index));
                Ok((scope, Translation { text: out, prints: false }))
            },
            CommandType::Let => {
                let var_index = subfolder_count(self.folders[1])?;
                let exp = Expression::new(self.folders[2])?;
                let value = exp.settle(&scope)?;
                let rvalue = exp.transpile(&scope)?;
                let fresh = scope.get_variable(var_index).is_none();
                if fresh {
                    push_text(&mut out, "let mut ");
                }
                push_slot(&mut out, var_index);
                push_text(&mut out, " = ");
                push_all(&mut out, &rvalue);
                let copy = value.get_type() == Type::String && exp.expression_type()
                    == ExpressionType::Variable;
                if copy {
                    // the variable keeps its text
                    push_text(&mut out, ".clone()");
                }
                push_text(&mut out, ";");
                assert(out@ == assignment_text(fresh, var_index, rvalue@, copy));
                scope.set_or_create_variable(var_index, value)?;
                Ok((scope, Translation { text: out, prints: false }))
            },
            CommandType::Print => {
                let exp = Expression::new(self.folders[1])?;
                let token = exp.transpile(&scope)?;
                push_text(&mut out, "print!(\"{}\", ");
                push_all(&mut out, &token);
                push_text(&mut out, ");\n");
                push_text(&mut out, "std::io::stdout().flush().unwrap();\n");
                assert(out@ == print_text(token@));
                Ok((scope, Translation { text: out, prints: true }))
            },
            CommandType::Input => {
                let var_index = subfolder_count(self.folders[1])?;
                let fresh = scope.get_variable(var_index).is_none();
                if fresh {
                    push_text(&mut out, "let mut ");
                    push_slot(&mut out, var_index);
                    push_text(&mut out, " = String::new();\n");
                }
                push_text(&mut out, "std::io::stdin().read_line(&mut ");
                push_slot(&mut out, var_index);
                push_text(&mut out, ").unwrap();\n");
                assert(out@ == input_text(fresh, var_index));
                let nothing = Variable::String(Some(String::new()));
                scope.set_or_create_variable(var_index, nothing)?;
                Ok((scope, Translation { text: out, prints: false }))
            },
            _ => {
                let again = match self.command_type {
                    CommandType::While => true,
                    _ => false,
                };
                let exp = Expression::new(self.folders[1])?;
                let token = exp.transpile(&scope)?;
                let value = exp.settle(&scope)?;
                let mut condition: Vec<Token> = Vec::new();
                push_condition(&mut condition, exp.expression_type(), value.get_type(), &token);
                proof {
                    scope.lemma_has_frame();
                    lemma_sorted_entries_lie_deeper(self.source());
                    lemma_block_keeps_depth(
                        self.parts()[2],
                        opened(scope@),
                        commands_in(self.parts()[2]),
                    );
                }
                let inner = Scope::new(Some(scope));
                let (inner, body) = transpile_block(self.folders[2], inner)?;
                let outer = match inner.into_parent() {
                    Some(outer) => outer,
                    None => Scope::new(None),
                };
                if again {
                    push_text(&mut out, "\nwhile ");
                } else {
                    push_text(&mut out, "\nif ");
                }
                push_all(&mut out, &condition);
                push_text(&mut out, " {\n");
                push_all(&mut out, &body.text);
                push_text(&mut out, "}");
                assert(out@ == block_text(again, condition@, body.text@));
                Ok((outer, Translation { text: out, prints: body.prints }))
            },
        }
    }

    /// Decodes the command that a folder holds, as far as its kind.
    pub fn new(folder: &'a Folder) -> (r: Result<Command<'a>, Error>)
        ensures
            match r {
                Ok(command) => command.wf() && command.source() == *folder,
                Err(e) => decoded_command(*folder) == Err::<(CommandType, Seq<Folder>), Error>(e),
            },
    {
        let subfolders = sorted_subfolders(folder)?;
        if subfolders.len() == 0 {
            return Err(input_error(folder.path.clone()));
        }
        let count = subfolder_count(subfolders[0])?;
        let command_type = match Command::get_type(count) {
            Some(command_type) => command_type,
            None => {
                return Err(input_error(subfolders[0].path.clone()));
            },
        };
        let folder_count = subfolders.len();
        if command_type == CommandType::Input || command_type == CommandType::Print {
            if folder_count != 2 {
                return Err(input_error(folder.path.clone()));
            }
        } else {
            if folder_count != 3 {
                return Err(input_error(folder.path.clone()));
            }
        }
        let cmd = Command { command_type, folders: subfolders, folder };
        Ok(cmd)
    }
}

} // verus!
