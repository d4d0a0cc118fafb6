use crate::items::command::{
    decoded_command, lemma_only_assignments_change_frames, lemma_ran_keeps_types, ran, Asked,
    Command, CommandType, Effect, Line,
};
use crate::items::expression::outcome_of;
use crate::items::variable::{Computed, FloatTask, Value};
use crate::scope::{declared_by_count, opened, Frame, Scope};
use crate::text::{Fragment, Piece};
use crate::utils::{sorted_entries, sorted_subfolders, targets, Error, Folder};
use vstd::prelude::*;

verus! {

/// What the caller brings to a step.
#[derive(Debug)]
pub enum Event {
    /// Nothing.
    Nothing,
    /// The line that the last step asked for.
    Line(Line),
    /// The result of the arithmetic that the last step asked for, by its
    /// bits.
    Float(u32),
}

/// What a step asks of the caller, which then takes the next step.
#[derive(Debug)]
pub enum Action {
    /// Nothing.
    Continue,
    /// This is to be written out, at once.
    Write(Piece),
    /// A line is to be read and brought to the next step.
    ReadLine,
    /// This arithmetic is to be done and its result brought to the next
    /// step.
    Compute(FloatTask),
    /// The program has ended.
    Done,
    /// The program has failed, and has ended with that.
    Fail(Error),
}

/// What an `Event` stands for.
pub enum Brought {
    Nothing,
    Line(Seq<char>, Option<u32>),
    Float(u32),
}

/// What an `Action` stands for.
pub enum Request {
    Continue,
    Write(Fragment),
    ReadLine,
    Compute(FloatTask),
    Done,
    Fail(Error),
}

impl View for Event {
    type V = Brought;

    open spec fn view(&self) -> Brought {
        match *self {
            Event::Nothing => Brought::Nothing,
            Event::Line(line) => Brought::Line(line.text@, line.float),
            Event::Float(bits) => Brought::Float(bits),
        }
    }
}

impl View for Action {
    type V = Request;

    open spec fn view(&self) -> Request {
        match *self {
            Action::Continue => Request::Continue,
            Action::Write(piece) => Request::Write(piece@),
            Action::ReadLine => Request::ReadLine,
            Action::Compute(task) => Request::Compute(task),
            Action::Done => Request::Done,
            Action::Fail(e) => Request::Fail(e),
        }
    }
}

/// A block that is being run: its commands in order, and how many of them
/// are done.
pub struct Running {
    pub commands: Seq<Folder>,
    pub next: nat,
}

/// The state of a program that is being run.
pub struct State {
    /// The frames of variables, the innermost first.
    pub frames: Seq<Frame>,
    /// The blocks that were entered and not left yet, the innermost last.
    /// The program has ended when there is none.
    pub blocks: Seq<Running>,
    /// The results of the arithmetic that the command at hand asked for.
    pub answers: Seq<u32>,
    /// Whether the last step asked for arithmetic.
    pub asked: bool,
}

/// The state in which a program starts: its commands are the sub-folders
/// of its root, in order, and there is one frame, which is empty.
pub open spec fn started(root: Folder) -> Result<State, Error> {
    match sorted_entries(root) {
        Err(e) => Err(e),
        Ok(commands) => Ok(
            State {
                frames: seq![Map::<usize, Value>::empty()],
                blocks: seq![Running { commands, next: 0 }],
                answers: Seq::empty(),
                asked: false,
            },
        ),
    }
}

/// The blocks after the command at hand in the innermost one is done.
pub open spec fn advanced(blocks: Seq<Running>) -> Seq<Running> {
    blocks.update(
        blocks.len() - 1,
        Running { commands: blocks.last().commands, next: blocks.last().next + 1 },
    )
}

/// The state of a program that has ended.
pub open spec fn ended(frames: Seq<Frame>) -> State {
    State { frames, blocks: Seq::empty(), answers: Seq::empty(), asked: false }
}

/// The state in which the next command is taken up.
pub open spec fn resumed(frames: Seq<Frame>, blocks: Seq<Running>) -> State {
    State { frames, blocks, answers: Seq::empty(), asked: false }
}

/// The answers that the command at hand has after an event: a result of
/// arithmetic is added if one was asked for.
pub open spec fn answers_after(state: State, event: Brought) -> Seq<u32> {
    match event {
        Brought::Float(bits) => {
            if state.asked {
                state.answers.push(bits)
            } else {
                state.answers
            }
        },
        _ => state.answers,
    }
}

/// The line that an event brings, if it brings one.
pub open spec fn line_of(event: Brought) -> Option<(Seq<char>, Option<u32>)> {
    match event {
        Brought::Line(text, float) => Some((text, float)),
        _ => None,
    }
}

/// One step of a program: the state after it, and what it asks for.
///
/// - A program without blocks has ended.
/// - When all commands of the innermost block are done, the block is left
///   and its frame given up. With the outermost block the program ends.
/// - Else the command at hand is run. Where it fails the program fails.
///   Where it asks for a line or for arithmetic, that is passed on and the
///   command stays at hand. Where it enters a body, a frame is opened and
///   the commands of the body, in order, become the innermost block; the
///   command stays at hand if it is to be run again after that. In every
///   other case the command is done.
pub open spec fn stepped(state: State, event: Brought) -> (State, Request) {
    if state.blocks.len() == 0 {
        (state, Request::Done)
    } else if state.blocks.last().next >= state.blocks.last().commands.len() {
        if state.blocks.len() == 1 {
            (ended(state.frames), Request::Done)
        } else {
            (resumed(state.frames.drop_first(), state.blocks.drop_last()), Request::Continue)
        }
    } else {
        let top = state.blocks.last();
        let answers = answers_after(state, event);
        match ran(top.commands[top.next as int], state.frames, answers, line_of(event)) {
            Err(e) => (ended(state.frames), Request::Fail(e)),
            Ok((frames, asked)) => match asked {
                Asked::Advance => (resumed(frames, advanced(state.blocks)), Request::Continue),
                Asked::Write(fragment) => (
                    resumed(frames, advanced(state.blocks)),
                    Request::Write(fragment),
                ),
                Asked::Read => (
                    State { frames, blocks: state.blocks, answers, asked: false },
                    Request::ReadLine,
                ),
                Asked::Compute(task) => (
                    State { frames, blocks: state.blocks, answers, asked: true },
                    Request::Compute(task),
                ),
                Asked::Enter { body, again } => match sorted_entries(body) {
                    Err(e) => (ended(state.frames), Request::Fail(e)),
                    Ok(commands) => (
                        resumed(
                            opened(frames),
                            (if again {
                                state.blocks
                            } else {
                                advanced(state.blocks)
                            }).push(Running { commands, next: 0 }),
                        ),
                        Request::Continue,
                    ),
                },
            },
        }
    }
}

/// A step leaves each block with a frame of its own, and a program that
/// has failed or is done has ended.
pub proof fn lemma_a_step_keeps_the_form(state: State, event: Brought)
    requires
        well_formed(state),
    ensures
        well_formed(stepped(state, event).0),
        stepped(state, event).1 is Fail ==> stepped(state, event).0.blocks.len() == 0,
        stepped(state, event).1 is Done ==> stepped(state, event).0.blocks.len() == 0,
{
    if state.blocks.len() > 0 && state.blocks.last().next < state.blocks.last().commands.len() {
        let top = state.blocks.last();
        lemma_ran_keeps_types(
            top.commands[top.next as int],
            state.frames,
            answers_after(state, event),
            line_of(event),
        );
    }
}

/// Whenever a body is entered it gets a frame of its own, which is empty:
/// there a declaration of any slot goes through, however often the body
/// was run before. The frames around it are as they were.
pub proof fn lemma_a_body_starts_in_an_empty_frame(
    state: State,
    event: Brought,
    count: usize,
    slot: usize,
)
    requires
        well_formed(state),
        stepped(state, event).0.blocks.len() > state.blocks.len(),
        count <= 3,
    ensures
        stepped(state, event).0.frames == opened(state.frames),
        stepped(state, event).0.blocks.last().next == 0,
        declared_by_count(stepped(state, event).0.frames, count, slot) is Ok,
{
    let top = state.blocks.last();
    let answers = answers_after(state, event);
    lemma_ran_keeps_types(top.commands[top.next as int], state.frames, answers, line_of(event));
    lemma_only_assignments_change_frames(
        top.commands[top.next as int],
        state.frames,
        answers,
        line_of(event),
    );
}

/// A body is entered by an `If` or a `While` whose condition counts as
/// true, and its commands are the sub-folders of its folder, in order.
/// When they are done an `If` is done too, while a `While` is at hand
/// again and is run once more, in the frames around the body.
pub proof fn lemma_a_loop_is_run_again(state: State, event: Brought)
    requires
        well_formed(state),
        stepped(state, event).0.blocks.len() > state.blocks.len(),
    ensures
        ({
            let top = state.blocks.last();
            let after = stepped(state, event).0;
            let below = after.blocks[state.blocks.len() - 1];
            &&& after.blocks.len() == state.blocks.len() + 1
            &&& decoded_command(top.commands[top.next as int]) matches Ok((kind, parts))
            &&& kind == CommandType::If || kind == CommandType::While
            &&& outcome_of(parts[1], state.frames, answers_after(state, event)) matches Ok(
                Computed::Value(value),
            )
            &&& value.truthy()
            &&& sorted_entries(parts[2]) == Ok::<Seq<Folder>, Error>(after.blocks.last().commands)
            &&& below.commands == top.commands
            &&& below.next == if kind == CommandType::While {
                top.next
            } else {
                top.next + 1
            }
        }),
{
}

/// When the commands of a body are done its frame is given up, and the
/// frames around it are left.
pub proof fn lemma_a_body_gives_up_its_frame(state: State, event: Brought)
    requires
        well_formed(state),
        state.blocks.len() > 1,
        stepped(state, event).0.blocks.len() == state.blocks.len() - 1,
    ensures
        stepped(state, event).0.frames == state.frames.drop_first(),
        stepped(state, event).0.blocks == state.blocks.drop_last(),
        stepped(state, event).1 == Request::Continue,
{
}

struct Block<'a> {
    commands: Vec<&'a Folder>,
    next: usize,
}

impl<'a> View for Block<'a> {
    type V = Running;

    closed spec fn view(&self) -> Running {
        Running { commands: targets(self.commands@), next: self.next as nat }
    }
}

/// A program that is being run, one step at a time.
///
/// The program does nothing by itself: each step says what is to be done
/// for it, and the caller does that and takes the next step.
pub struct Machine<'a> {
    scope: Scope,
    blocks: Vec<Block<'a>>,
    answers: Vec<u32>,
    asked: bool,
}

impl<'a> View for Machine<'a> {
    type V = State;

    closed spec fn view(&self) -> State {
        State {
            frames: self.scope@,
            blocks: self.blocks@.map_values(|block: Block<'a>| block@),
            answers: self.answers@,
            asked: self.asked,
        }
    }
}

/// Each block has a frame of its own, and no more commands are done in a
/// block than it has.
pub open spec fn well_formed(state: State) -> bool {
    &&& state.frames.len() >= 1
    &&& state.blocks.len() > 0 ==> state.frames.len() == state.blocks.len()
    &&& forall|i: int|
        0 <= i < state.blocks.len() ==> (#[trigger] state.blocks[i]).next
            <= state.blocks[i].commands.len()
}

impl<'a> Machine<'a> {
    /// Whether the program has ended.
    pub fn is_over(&self) -> (over: bool)
        ensures
            over == (self@.blocks.len() == 0),
    {
        self.blocks.len() == 0
    }

    /// Makes a program ready to run from the folder that holds its
    /// commands.
    pub fn new(root: &'a Folder) -> (r: Result<Machine<'a>, Error>)
        ensures
            match r {
                Ok(machine) => started(*root) == Ok::<State, Error>(machine@) && well_formed(
                    machine@,
                ),
                Err(e) => started(*root) == Err::<State, Error>(e),
            },
    {
        let commands = sorted_subfolders(root)?;
        let mut blocks: Vec<Block<'a>> = Vec::new();
        blocks.push(Block { commands, next: 0 });
        let machine = Machine { scope: Scope::new(None), blocks, answers: Vec::new(), asked: false };
        assert(machine@.blocks == seq![Running { commands: targets(commands@), next: 0 }]);
        Ok(machine)
    }

    /// Takes one step.
    pub fn step(self, event: Event) -> (r: (Machine<'a>, Action))
        requires
            well_formed(self@),
        ensures
            (r.0@, r.1@) == stepped(self@, event@),
            well_formed(r.0@),
    {
        let ghost before = self@;
        let Machine { scope, blocks, answers, asked } = self;
        let mut scope = scope;
        let mut blocks = blocks;
        let mut answers = answers;
        if blocks.len() == 0 {
            return (Machine { scope, blocks, answers, asked }, Action::Done);
        }
        let ghost all = blocks@.map_values(|block: Block<'a>| block@);
        assert(all == before.blocks);
        let top = match blocks.pop() {
            Some(top) => top,
            None => {
                return (Machine { scope, blocks, answers, asked }, Action::Done);
            },
        };
        assert(top@ == all.last());
        assert(blocks@.map_values(|block: Block<'a>| block@) == all.drop_last());
        if top.next >= top.commands.len() {
            if blocks.len() == 0 {
                assert(blocks@.map_values(|block: Block<'a>| block@) == Seq::<Running>::empty());
                return (
                    Machine { scope, blocks, answers: Vec::new(), asked: false },
                    Action::Done,
                );
            }
            let outer = match scope.into_parent() {
                Some(outer) => outer,
                None => Scope::new(None),
            };
            return (
                Machine { scope: outer, blocks, answers: Vec::new(), asked: false },
                Action::Continue,
            );
        }
        let line = match event {
            Event::Line(line) => Some(line),
            Event::Float(bits) => {
                if asked {
                    answers.push(bits);
                }
                None
            },
            Event::Nothing => None,
        };
        let folder = top.commands[top.next];
        let effect = match Command::new(folder) {
            Ok(command) => command.run(&mut scope, &answers, line),
            Err(e) => Err(e),
        };
        proof {
            lemma_ran_keeps_types(*folder, before.frames, answers@, line_of(event@));
        }
        let position: usize = top.next;
        let top_commands = top.commands;
        let ghost same = Running { commands: targets(top_commands@), next: position as nat };
        let ghost moved = Running { commands: targets(top_commands@), next: position as nat + 1 };
        let ghost none = Seq::<Block<'a>>::empty().map_values(|block: Block<'a>| block@);
        assert(none == Seq::<Running>::empty());
        assert(all.drop_last().push(same) == all);
        assert(all.drop_last().push(moved) == advanced(all));
        match effect {
            Err(e) => {
                let machine = Machine {
                    scope,
                    blocks: Vec::new(),
                    answers: Vec::new(),
                    asked: false,
                };
                assert(machine@ == ended(before.frames));
                (machine, Action::Fail(e))
            },
            Ok(Effect::Advance) => {
                blocks.push(Block { commands: top_commands, next: position + 1 });
                assert(blocks@.map_values(|block: Block<'a>| block@) == advanced(all));
                let machine = Machine { scope, blocks, answers: Vec::new(), asked: false };
                assert(machine@ == resumed(scope@, advanced(all)));
                (machine, Action::Continue)
            },
            Ok(Effect::Write(piece)) => {
                blocks.push(Block { commands: top_commands, next: position + 1 });
                assert(blocks@.map_values(|block: Block<'a>| block@) == advanced(all));
                let machine = Machine { scope, blocks, answers: Vec::new(), asked: false };
                assert(machine@ == resumed(scope@, advanced(all)));
                (machine, Action::Write(piece))
            },
            Ok(Effect::Read) => {
                blocks.push(Block { commands: top_commands, next: position });
                assert(blocks@.map_values(|block: Block<'a>| block@) == all);
                (Machine { scope, blocks, answers, asked: false }, Action::ReadLine)
            },
            Ok(Effect::Compute(task)) => {
                blocks.push(Block { commands: top_commands, next: position });
                assert(blocks@.map_values(|block: Block<'a>| block@) == all);
                (Machine { scope, blocks, answers, asked: true }, Action::Compute(task))
            },
            Ok(Effect::Enter { body, again }) => {
                match sorted_subfolders(body) {
                    Err(e) => {
                        let machine = Machine {
                            scope,
                            blocks: Vec::new(),
                            answers: Vec::new(),
                            asked: false,
                        };
                        assert(machine@ == ended(before.frames));
                        (machine, Action::Fail(e))
                    },
                    Ok(commands) => {
                        let ghost below = if again {
                            all
                        } else {
                            advanced(all)
                        };
                        if again {
                            blocks.push(Block { commands: top_commands, next: position });
                        } else {
                            blocks.push(Block { commands: top_commands, next: position + 1 });
                        }
                        assert(blocks@.map_values(|block: Block<'a>| block@) == below);
                        let inner_block = Block { commands, next: 0 };
                        blocks.push(inner_block);
                        assert(blocks@.map_values(|block: Block<'a>| block@) == below.push(
                            Running { commands: targets(commands@), next: 0 },
                        ));
                        let inner = Scope::new(Some(scope));
                        let machine = Machine {
                            scope: inner,
                            blocks,
                            answers: Vec::new(),
                            asked: false,
                        };
                        assert(machine@ == resumed(
                            opened(scope@),
                            below.push(Running { commands: targets(commands@), next: 0 }),
                        ));
                        (machine, Action::Continue)
                    },
                }
            },
        }
    }
}

} // verus!
