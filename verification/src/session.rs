//! One connection, step by step: a frame comes in, the work it asks for is
//! handed out, what the work brought comes back, and one frame goes out.
//! The caller owns the stream and the disk; the decisions are made here.

use vstd::prelude::*;
use crate::executor::{
    first_failure, listed, planned, settle, Entry, Executor, Plan, PlanView,
};
use crate::message::{Action, Reaction, ReactionView};
use crate::root::Root;
use crate::wire::{frame_action, reaction_frame, Bytes};
use crate::Failure;

verus! {

/// How far a connection has come.
#[derive(Debug, Clone, PartialEq, Eq)]
pub enum Stage {
    /// Nothing was read yet: the request's frame is awaited.
    Reading,
    /// The directory `dir` is being read.
    Listing { dir: String },
    /// The steps of a plan are being carried out.
    Running,
    /// The answer was handed out. Nothing more happens on this connection.
    Closed,
}

/// A stage as a mathematical value.
pub enum StageView {
    Reading,
    Listing { dir: Seq<char> },
    Running,
    Closed,
}

impl View for Stage {
    type V = StageView;

    open spec fn view(&self) -> StageView {
        match *self {
            Stage::Reading => StageView::Reading,
            Stage::Listing { dir } => StageView::Listing { dir: dir@ },
            Stage::Running => StageView::Running,
            Stage::Closed => StageView::Closed,
        }
    }
}

/// What happened outside.
#[derive(Debug, PartialEq, Eq)]
pub enum Event {
    /// The bytes that were read, up to and with the first end marker, or up
    /// to the end of the stream.
    Frame(Vec<u8>),
    /// The directory of the plan was read: its entries, or why not.
    Listed(Result<Vec<Entry>, Failure>),
    /// The steps of the plan ended: their outcomes, in the order in which
    /// they ended.
    Ran(Vec<Result<(), Failure>>),
}

/// What the caller is to do next.
#[derive(Debug, Clone, PartialEq, Eq)]
pub enum Command {
    /// Carry out the plan, and come back with what it brought.
    Work(Plan),
    /// Write these bytes, one frame, and end the connection.
    Send(Vec<u8>),
    /// End the connection without writing.
    Close,
}

/// A command as a mathematical value.
pub enum CommandView {
    Work(PlanView),
    Send(Seq<u8>),
    Close,
}

impl View for Command {
    type V = CommandView;

    open spec fn view(&self) -> CommandView {
        match *self {
            Command::Work(plan) => CommandView::Work(plan@),
            Command::Send(data) => CommandView::Send(data@),
            Command::Close => CommandView::Close,
        }
    }
}

/// The answer to a listing of the directory `dir`: the units of the entries,
/// or the failure of the read, or `OutsideRoot` where an entry does not lie
/// below the root.
pub open spec fn listing_answer(
    root: Root,
    dir: Seq<char>,
    read: Result<Vec<Entry>, Failure>,
) -> ReactionView {
    match read {
        Ok(entries) => match listed(root, dir, entries@) {
            Ok(units) => ReactionView::Ls(units),
            Err(failure) => ReactionView::Failed(failure),
        },
        Err(failure) => ReactionView::Failed(failure),
    }
}

/// The answer to a plan of steps: `Fine` where every step succeeded, else
/// the first failure.
pub open spec fn steps_answer(outcomes: Seq<Result<(), Failure>>) -> ReactionView {
    match first_failure(outcomes) {
        None => ReactionView::Fine,
        Some(failure) => ReactionView::Failed(failure),
    }
}

/// The stage in which a plan is carried out.
pub open spec fn stage_of(plan: PlanView) -> StageView {
    match plan {
        PlanView::List { dir } => StageView::Listing { dir },
        _ => StageView::Running,
    }
}

/// What a connection does on an event.
///
/// A frame that holds no request is answered with `MalformedFrame`, a
/// request that cannot be planned with its failure; any other request has
/// its plan handed out. What the plan brought is answered, and with the
/// answer the connection is closed. An event that the stage does not await
/// closes the connection at once.
pub open spec fn advanced(root: Root, stage: StageView, event: Event) -> (StageView, CommandView) {
    match (stage, event) {
        (StageView::Reading, Event::Frame(data)) => match frame_action(data@) {
            None => (
                StageView::Closed,
                CommandView::Send(
                    reaction_frame(ReactionView::Failed(Failure::MalformedFrame)),
                ),
            ),
            Some(action) => match planned(root, action) {
                Err(failure) => (
                    StageView::Closed,
                    CommandView::Send(reaction_frame(ReactionView::Failed(failure))),
                ),
                Ok(plan) => (stage_of(plan), CommandView::Work(plan)),
            },
        },
        (StageView::Listing { dir }, Event::Listed(read)) => (
            StageView::Closed,
            CommandView::Send(reaction_frame(listing_answer(root, dir, read))),
        ),
        (StageView::Running, Event::Ran(outcomes)) => (
            StageView::Closed,
            CommandView::Send(reaction_frame(steps_answer(outcomes@))),
        ),
        _ => (StageView::Closed, CommandView::Close),
    }
}

impl Executor {
    /// The answer to a listing, from what reading the directory `dir` gave.
    pub fn answer_listing(&self, dir: &str, read: &Result<Vec<Entry>, Failure>) -> (reaction:
        Reaction)
        ensures
            reaction@ == listing_answer(self.root, dir@, *read),
    {
        match read {
            Ok(entries) => match self.listing(dir, entries) {
                Ok(units) => Reaction::Ls(units),
                Err(failure) => Reaction::Failed(failure),
            },
            Err(failure) => Reaction::Failed(*failure),
        }
    }

    /// Takes the connection one event further.
    pub fn advance(&self, stage: Stage, event: Event) -> (next: (Stage, Command))
        ensures
            next.0@ == advanced(self.root, stage@, event).0,
            next.1@ == advanced(self.root, stage@, event).1,
    {
        match (stage, event) {
            (Stage::Reading, Event::Frame(data)) => match Action::from_bytes(data) {
                Err(failure) => (Stage::Closed, Command::Send(Reaction::Failed(failure).bytes())),
                Ok(action) => match self.plan(&action) {
                    Err(failure) => (
                        Stage::Closed,
                        Command::Send(Reaction::Failed(failure).bytes()),
                    ),
                    Ok(plan) => {
                        let stage = match &plan {
                            Plan::List { dir } => Stage::Listing { dir: dir.clone() },
                            _ => Stage::Running,
                        };
                        (stage, Command::Work(plan))
                    },
                },
            },
            (Stage::Listing { dir }, Event::Listed(read)) => (
                Stage::Closed,
                Command::Send(self.answer_listing(dir.as_str(), &read).bytes()),
            ),
            (Stage::Running, Event::Ran(outcomes)) => (
                Stage::Closed,
                Command::Send(answer_steps(&outcomes).bytes()),
            ),
            _ => (Stage::Closed, Command::Close),
        }
    }
}

/// The answer to a plan of steps, from their outcomes in the order in which
/// they ended.
pub fn answer_steps(outcomes: &Vec<Result<(), Failure>>) -> (reaction: Reaction)
    ensures
        reaction@ == steps_answer(outcomes@),
{
    match settle(outcomes) {
        Ok(_) => Reaction::Fine,
        Err(failure) => Reaction::Failed(failure),
    }
}

/// The event that a stage awaits.
pub open spec fn awaited(stage: StageView, event: Event) -> bool {
    match stage {
        StageView::Reading => event is Frame,
        StageView::Listing { dir } => event is Listed,
        StageView::Running => event is Ran,
        StageView::Closed => false,
    }
}

/// A connection is answered at most once, and after at most two events it
/// is closed: the first event either closes it or hands out a plan, and the
/// event after a plan closes it without handing out another. Where each
/// event is the one awaited, exactly one frame is written. Once closed, a
/// connection stays closed and nothing more is written.
pub proof fn law_one_answer(root: Root, first: Event, second: Event)
    ensures
        ({
            let one = advanced(root, StageView::Reading, first);
            let two = advanced(root, one.0, second);
            &&& one.1 is Work <==> one.0 != StageView::Closed
            &&& two.0 == StageView::Closed
            &&& !(two.1 is Work)
            &&& one.0 == StageView::Closed ==> two.1 is Close
            &&& first is Frame ==> (one.1 is Send <==> !(one.1 is Work))
            &&& first is Frame && one.1 is Work && awaited(one.0, second) ==> two.1 is Send
        }),
        advanced(root, StageView::Closed, first) == (StageView::Closed, CommandView::Close),
{
}

} // verus!
