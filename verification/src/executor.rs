//! From a request to work on the file system, and from what that work
//! brought to an answer. Nothing here touches a disk: a plan says what is to
//! be done, and the caller that did it hands back what came of it.

use vstd::prelude::*;
use crate::message::{Action, ActionView};
use crate::path::{
    file_name, file_name_of, join, joined, lemma_file_name_is_plain, lemma_joined_below,
    lemma_joined_stays_below, lemma_with_extension_stays_below, stays_below, with_extension,
    with_extension_of,
};
use crate::root::{law_resolve_stripped, law_strip_resolved, Root};
use crate::unit::{paths_view, units_view, Unit, UnitKind, UnitView};
use crate::Failure;

verus! {

/// The work for one target of a request. Every path in it is absolute.
#[derive(Debug, Clone, PartialEq, Eq)]
pub enum Step {
    /// Remove the directory and all that is in it.
    RemoveDir { path: String },
    /// Remove the single file.
    RemoveFile { path: String },
    /// Copy the file `from` to `to`.
    Copy { from: String, to: String },
    /// Copy the file `from` to `to`, then remove `from`. Not atomic: where
    /// the work is cut short between the two, both files exist.
    Move { from: String, to: String },
    /// Remove `to` if it is there, whether or not that succeeds; run the
    /// transcoder from `from` to `to` and wait for it; then remove `from`.
    Transcode { from: String, to: String },
    /// Touch nothing: this target fails at once, with this failure.
    Refuse { failure: Failure },
}

/// A step as a mathematical value.
pub enum StepView {
    RemoveDir { path: Seq<char> },
    RemoveFile { path: Seq<char> },
    Copy { from: Seq<char>, to: Seq<char> },
    Move { from: Seq<char>, to: Seq<char> },
    Transcode { from: Seq<char>, to: Seq<char> },
    Refuse { failure: Failure },
}

impl View for Step {
    type V = StepView;

    open spec fn view(&self) -> StepView {
        match *self {
            Step::RemoveDir { path } => StepView::RemoveDir { path: path@ },
            Step::RemoveFile { path } => StepView::RemoveFile { path: path@ },
            Step::Copy { from, to } => StepView::Copy { from: from@, to: to@ },
            Step::Move { from, to } => StepView::Move { from: from@, to: to@ },
            Step::Transcode { from, to } => StepView::Transcode { from: from@, to: to@ },
            Step::Refuse { failure } => StepView::Refuse { failure },
        }
    }
}

/// The values of a list of steps, in order.
pub open spec fn steps_view(steps: Seq<Step>) -> Seq<StepView> {
    Seq::new(steps.len(), |i: int| steps[i]@)
}

/// What is to be done for one request.
#[derive(Debug, Clone, PartialEq, Eq)]
pub enum Plan {
    /// Read the entries of the directory.
    List { dir: String },
    /// Do the steps one after the other, in order, and stop at the first
    /// that fails. What was done before stays done.
    InTurn { steps: Vec<Step> },
    /// Start every step on its own and wait until each has ended, however
    /// the others end. A step that fails stops no other.
    Together { steps: Vec<Step> },
}

/// A plan as a mathematical value.
pub enum PlanView {
    List { dir: Seq<char> },
    InTurn { steps: Seq<StepView> },
    Together { steps: Seq<StepView> },
}

impl View for Plan {
    type V = PlanView;

    open spec fn view(&self) -> PlanView {
        match *self {
            Plan::List { dir } => PlanView::List { dir: dir@ },
            Plan::InTurn { steps } => PlanView::InTurn { steps: steps_view(steps@) },
            Plan::Together { steps } => PlanView::Together { steps: steps_view(steps@) },
        }
    }
}

/// One entry that reading a directory gave: its name in that directory, and
/// whether it is a directory itself.
#[derive(Debug, Clone, PartialEq, Eq)]
pub struct Entry {
    pub name: String,
    pub is_dir: bool,
}

/// The extension of every file that the transcoder writes.
pub open spec fn mp4() -> Seq<char> {
    "mp4"@
}

/// The step that removes a unit: a directory with all that is in it, any
/// other unit as a single file. A unit that does not stay below the root is
/// refused.
pub open spec fn removal(root: Root, unit: UnitView) -> StepView {
    match root.resolved(unit.path) {
        Some(path) => if unit.kind == UnitKind::Directory {
            StepView::RemoveDir { path }
        } else {
            StepView::RemoveFile { path }
        },
        None => StepView::Refuse { failure: Failure::OutsideRoot },
    }
}

/// The step that copies or moves a source into the directory `dir`, under
/// the source's own name. A source that does not stay below the root is
/// refused, and so is one without a file name: no file is there to copy.
pub open spec fn transfer(root: Root, source: Seq<char>, dir: Seq<char>, moving: bool) -> StepView {
    match root.resolved(source) {
        None => StepView::Refuse { failure: Failure::OutsideRoot },
        Some(from) => match file_name(source) {
            None => StepView::Refuse { failure: Failure::IoFailure },
            Some(name) => if moving {
                StepView::Move { from, to: joined(dir, name) }
            } else {
                StepView::Copy { from, to: joined(dir, name) }
            },
        },
    }
}

/// The step that transcodes a source to the file beside it whose extension
/// is `mp4`. A source that does not stay below the root is refused, and so
/// is one without a file name.
pub open spec fn transcoding(root: Root, source: Seq<char>) -> StepView {
    match root.resolved(source) {
        None => StepView::Refuse { failure: Failure::OutsideRoot },
        Some(from) => match with_extension(source, mp4()) {
            None => StepView::Refuse { failure: Failure::IoFailure },
            Some(changed) => StepView::Transcode { from, to: root.prefix() + changed },
        },
    }
}

/// The plan for a request.
///
/// A listing reads the one directory. Removals happen in turn, in the order
/// of the request. Moves, copies and transcodings run together, one step for
/// each source, in the order of the request. The request as a whole fails,
/// with `OutsideRoot`, only where the directory to list or the directory to
/// move or copy into does not stay below the root.
pub open spec fn planned(root: Root, action: ActionView) -> Result<PlanView, Failure> {
    match action {
        ActionView::Ls(path) => match root.resolved(path) {
            Some(dir) => Ok(PlanView::List { dir }),
            None => Err(Failure::OutsideRoot),
        },
        ActionView::Rm(units) => Ok(
            PlanView::InTurn { steps: Seq::new(units.len(), |i: int| removal(root, units[i])) },
        ),
        ActionView::Mv { from, to } => match root.resolved(to) {
            Some(dir) => Ok(
                PlanView::Together {
                    steps: Seq::new(from.len(), |i: int| transfer(root, from[i], dir, true)),
                },
            ),
            None => Err(Failure::OutsideRoot),
        },
        ActionView::Cp { from, to } => match root.resolved(to) {
            Some(dir) => Ok(
                PlanView::Together {
                    steps: Seq::new(from.len(), |i: int| transfer(root, from[i], dir, false)),
                },
            ),
            None => Err(Failure::OutsideRoot),
        },
        ActionView::Mp4(paths) => Ok(
            PlanView::Together { steps: Seq::new(paths.len(), |i: int| transcoding(root, paths[i])) },
        ),
    }
}

/// The kind of an entry: `Directory` for a directory, `File` for anything
/// else. No entry is classified as `Video` or `Audio`.
pub open spec fn kind_of(is_dir: bool) -> UnitKind {
    if is_dir {
        UnitKind::Directory
    } else {
        UnitKind::File
    }
}

/// The absolute path of an entry of the directory `dir`.
pub open spec fn entry_path(dir: Seq<char>, entry: Entry) -> Seq<char> {
    joined(dir, entry.name@)
}

/// The unit of an entry of the directory `dir` whose path lies below the
/// root: that path without the root, and the entry's kind.
pub open spec fn entry_unit(root: Root, dir: Seq<char>, entry: Entry) -> UnitView {
    UnitView { path: root.stripped(entry_path(dir, entry))->0, kind: kind_of(entry.is_dir) }
}

/// The listing made of the entries of the directory `dir`, in their order,
/// or `OutsideRoot` where the path of one of them does not lie below the
/// root.
pub open spec fn listed(root: Root, dir: Seq<char>, entries: Seq<Entry>) -> Result<
    Seq<UnitView>,
    Failure,
> {
    if forall|i: int|
        0 <= i < entries.len() ==> root.stripped(entry_path(dir, #[trigger] entries[i])) is Some {
        Ok(Seq::new(entries.len(), |i: int| entry_unit(root, dir, entries[i])))
    } else {
        Err(Failure::OutsideRoot)
    }
}

/// The first failure among the outcomes, in their order.
pub open spec fn first_failure(outcomes: Seq<Result<(), Failure>>) -> Option<Failure>
    decreases outcomes.len(),
{
    if outcomes.len() == 0 {
        None
    } else {
        match outcomes[0] {
            Err(failure) => Some(failure),
            Ok(_) => first_failure(outcomes.skip(1)),
        }
    }
}

/// Carries out requests under one root.
pub struct Executor {
    pub root: Root,
}

impl Executor {
    /// An executor for the directory tree below `root`.
    pub fn new(root: Root) -> (executor: Executor)
        ensures
            executor.root == root,
    {
        Executor { root }
    }

    /// The step that removes a unit.
    pub fn remove(&self, unit: &Unit) -> (step: Step)
        ensures
            step@ == removal(self.root, unit@),
    {
        match self.root.resolve(unit.path.as_str()) {
            Ok(path) => match unit.kind {
                UnitKind::Directory => Step::RemoveDir { path },
                _ => Step::RemoveFile { path },
            },
            Err(_) => Step::Refuse { failure: Failure::OutsideRoot },
        }
    }

    /// The step that copies, or moves, `source` into the directory `dir`.
    pub fn carry(&self, source: &str, dir: &str, moving: bool) -> (step: Step)
        ensures
            step@ == transfer(self.root, source@, dir@, moving),
    {
        let from = match self.root.resolve(source) {
            Ok(from) => from,
            Err(_) => {
                return Step::Refuse { failure: Failure::OutsideRoot };
            },
        };
        match file_name_of(source) {
            Some(name) => {
                let to = join(dir, name.as_str());
                if moving {
                    Step::Move { from, to }
                } else {
                    Step::Copy { from, to }
                }
            },
            None => Step::Refuse { failure: Failure::IoFailure },
        }
    }

    /// The step that transcodes `source` to the mp4 file beside it.
    pub fn transcode(&self, source: &str) -> (step: Step)
        ensures
            step@ == transcoding(self.root, source@),
    {
        let from = match self.root.resolve(source) {
            Ok(from) => from,
            Err(_) => {
                return Step::Refuse { failure: Failure::OutsideRoot };
            },
        };
        match with_extension_of(source, "mp4") {
            Some(changed) => {
                let to = join(self.root.dir(), changed.as_str());
                Step::Transcode { from, to }
            },
            None => Step::Refuse { failure: Failure::IoFailure },
        }
    }

    /// The steps that copy, or move, each source into the directory `dir`.
    fn carry_all(&self, from: &Vec<String>, dir: &str, moving: bool) -> (steps: Vec<Step>)
        ensures
            steps_view(steps@) == Seq::new(
                from@.len(),
                |i: int| transfer(self.root, paths_view(from@)[i], dir@, moving),
            ),
    {
        let mut steps: Vec<Step> = Vec::new();
        let mut i: usize = 0;
        while i < from.len()
            invariant
                i <= from.len(),
                steps@.len() == i,
                forall|j: int|
                    0 <= j < i ==> (#[trigger] steps@[j])@ == transfer(
                        self.root,
                        from@[j]@,
                        dir@,
                        moving,
                    ),
            decreases from.len() - i,
        {
            steps.push(self.carry(from[i].as_str(), dir, moving));
            i += 1;
        }
        assert(steps_view(steps@) =~= Seq::new(
            from@.len(),
            |i: int| transfer(self.root, paths_view(from@)[i], dir@, moving),
        ));
        steps
    }

    /// Plans the work for a request.
    pub fn plan(&self, action: &Action) -> (plan: Result<Plan, Failure>)
        ensures
            match plan {
                Ok(p) => planned(self.root, action@) == Ok::<PlanView, Failure>(p@),
                Err(e) => planned(self.root, action@) == Err::<PlanView, Failure>(e),
            },
    {
        match action {
            Action::Ls(path) => match self.root.resolve(path.as_str()) {
                Ok(dir) => Ok(Plan::List { dir }),
                Err(e) => Err(e),
            },
            Action::Rm(units) => {
                let mut steps: Vec<Step> = Vec::new();
                let mut i: usize = 0;
                while i < units.len()
                    invariant
                        i <= units.len(),
                        steps@.len() == i,
                        forall|j: int|
                            0 <= j < i ==> (#[trigger] steps@[j])@ == removal(
                                self.root,
                                units@[j]@,
                            ),
                    decreases units.len() - i,
                {
                    steps.push(self.remove(&units[i]));
                    i += 1;
                }
                assert(steps_view(steps@) =~= Seq::new(
                    units@.len(),
                    |i: int| removal(self.root, units_view(units@)[i]),
                ));
                Ok(Plan::InTurn { steps })
            },
            Action::Mv { from, to } => match self.root.resolve(to.as_str()) {
                Ok(dir) => Ok(Plan::Together { steps: self.carry_all(from, dir.as_str(), true) }),
                Err(e) => Err(e),
            },
            Action::Cp { from, to } => match self.root.resolve(to.as_str()) {
                Ok(dir) => Ok(Plan::Together { steps: self.carry_all(from, dir.as_str(), false) }),
                Err(e) => Err(e),
            },
            Action::Mp4(paths) => {
                let mut steps: Vec<Step> = Vec::new();
                let mut i: usize = 0;
                while i < paths.len()
                    invariant
                        i <= paths.len(),
                        steps@.len() == i,
                        forall|j: int|
                            0 <= j < i ==> (#[trigger] steps@[j])@ == transcoding(
                                self.root,
                                paths@[j]@,
                            ),
                    decreases paths.len() - i,
                {
                    steps.push(self.transcode(paths[i].as_str()));
                    i += 1;
                }
                assert(steps_view(steps@) =~= Seq::new(
                    paths@.len(),
                    |i: int| transcoding(self.root, paths_view(paths@)[i]),
                ));
                Ok(Plan::Together { steps })
            },
        }
    }

    /// Makes the listing out of the entries that reading the directory
    /// `dir` gave: the path of each entry with the root stripped from it,
    /// directories marked as such.
    ///
    /// Fails with `OutsideRoot` exactly where the path of an entry does not
    /// lie below the root.
    pub fn listing(&self, dir: &str, entries: &Vec<Entry>) -> (units: Result<Vec<Unit>, Failure>)
        ensures
            match units {
                Ok(u) => listed(self.root, dir@, entries@) == Ok::<Seq<UnitView>, Failure>(
                    units_view(u@),
                ),
                Err(e) => listed(self.root, dir@, entries@) == Err::<Seq<UnitView>, Failure>(e),
            },
    {
        let mut units: Vec<Unit> = Vec::new();
        let mut i: usize = 0;
        while i < entries.len()
            invariant
                i <= entries.len(),
                units@.len() == i,
                forall|j: int|
                    0 <= j < i ==> self.root.stripped(entry_path(dir@, #[trigger] entries@[j]))
                        is Some,
                forall|j: int|
                    0 <= j < i ==> (#[trigger] units@[j])@ == entry_unit(
                        self.root,
                        dir@,
                        entries@[j],
                    ),
            decreases entries.len() - i,
        {
            let entry = &entries[i];
            let path = join(dir, entry.name.as_str());
            match self.root.strip(path.as_str()) {
                Ok(path) => {
                    let kind = if entry.is_dir {
                        UnitKind::Directory
                    } else {
                        UnitKind::File
                    };
                    units.push(Unit { path, kind });
                },
                Err(e) => {
                    return Err(e);
                },
            }
            i += 1;
        }
        assert(units_view(units@) =~= Seq::new(
            entries@.len(),
            |i: int| entry_unit(self.root, dir@, entries@[i]),
        ));
        Ok(units)
    }
}

/// Settles the outcomes of the steps of a plan, in the order in which they
/// ended: success where every step succeeded, else the first failure.
pub fn settle(outcomes: &Vec<Result<(), Failure>>) -> (outcome: Result<(), Failure>)
    ensures
        match outcome {
            Ok(_) => first_failure(outcomes@) is None,
            Err(e) => first_failure(outcomes@) == Some(e),
        },
{
    let mut i: usize = 0;
    assert(outcomes@.skip(0) =~= outcomes@);
    while i < outcomes.len()
        invariant
            i <= outcomes.len(),
            first_failure(outcomes@) == first_failure(outcomes@.skip(i as int)),
        decreases outcomes.len() - i,
    {
        assert(outcomes@.skip(i as int).skip(1) =~= outcomes@.skip(i + 1));
        match outcomes[i] {
            Err(failure) => {
                return Err(failure);
            },
            Ok(_) => {},
        }
        i += 1;
    }
    Ok(())
}

/// Every unit of a listing names the entry it was made of: resolved under
/// the root, its path is the path of that entry in the directory that was
/// read, and its kind is `Directory` exactly where the entry is a directory.
pub proof fn law_listing_names_entries(root: Root, dir: Seq<char>, entries: Seq<Entry>, i: int)
    requires
        listed(root, dir, entries) is Ok,
        0 <= i < entries.len(),
    ensures
        listed(root, dir, entries)->Ok_0.len() == entries.len(),
        root.resolved(listed(root, dir, entries)->Ok_0[i].path) == Some(
            joined(dir, entries[i].name@),
        ),
        listed(root, dir, entries)->Ok_0[i].kind == UnitKind::Directory <==> entries[i].is_dir,
{
    law_resolve_stripped(root, entry_path(dir, entries[i]));
}

/// The listing of the directory that a request names holds, for each entry
/// that reading the directory gave, the path of the request joined with the
/// entry's name.
pub proof fn law_listing_stays_in_directory(
    root: Root,
    path: Seq<char>,
    entries: Seq<Entry>,
    i: int,
)
    requires
        root.valid(),
        root.resolved(path) is Some,
        listed(root, root.resolved(path)->0, entries) is Ok,
        0 <= i < entries.len(),
    ensures
        listed(root, root.resolved(path)->0, entries)->Ok_0[i].path == joined(
            path,
            entries[i].name@,
        ),
{
    let name = entries[i].name@;
    lemma_joined_below(root.prefix(), path, name);
    let whole = root.prefix() + joined(path, name);
    assert(whole.skip(root.prefix().len() as int) =~= joined(path, name));
}

/// A request to list a path that is absolute, or that leads above the root,
/// is never planned: it fails with `OutsideRoot`.
pub proof fn law_listing_outside_is_refused(root: Root, path: Seq<char>)
    requires
        !stays_below(path),
    ensures
        planned(root, ActionView::Ls(path)) == Err::<PlanView, Failure>(Failure::OutsideRoot),
{
}

/// One call that the caller makes for a step: into the file system, or to
/// the transcoder.
#[derive(Debug, Clone, PartialEq, Eq)]
pub enum Call {
    /// Remove the directory and all that is in it.
    RemoveDir { path: String },
    /// Remove the single file.
    RemoveFile { path: String },
    /// Copy the file `from` to `to`.
    Copy { from: String, to: String },
    /// Run the transcoder from `from` to `to` and wait until it ends.
    Transcode { from: String, to: String },
}

/// A call as a mathematical value.
pub enum CallView {
    RemoveDir { path: Seq<char> },
    RemoveFile { path: Seq<char> },
    Copy { from: Seq<char>, to: Seq<char> },
    Transcode { from: Seq<char>, to: Seq<char> },
}

impl View for Call {
    type V = CallView;

    open spec fn view(&self) -> CallView {
        match *self {
            Call::RemoveDir { path } => CallView::RemoveDir { path: path@ },
            Call::RemoveFile { path } => CallView::RemoveFile { path: path@ },
            Call::Copy { from, to } => CallView::Copy { from: from@, to: to@ },
            Call::Transcode { from, to } => CallView::Transcode { from: from@, to: to@ },
        }
    }
}

/// What comes next in a step.
#[derive(Debug, PartialEq, Eq)]
pub enum Next {
    /// Make this call, and come back with its outcome.
    Call(Call),
    /// The step has ended, with this outcome.
    Done(Result<(), Failure>),
}

/// What comes next in a step, as a mathematical value.
pub enum NextView {
    Call(CallView),
    Done(Result<(), Failure>),
}

impl View for Next {
    type V = NextView;

    open spec fn view(&self) -> NextView {
        match *self {
            Next::Call(call) => NextView::Call(call@),
            Next::Done(outcome) => NextView::Done(outcome),
        }
    }
}

/// The calls of a step, in order, each with whether the step needs it to
/// succeed. A move copies, then removes the source, and needs both. A
/// transcoding first clears the target and last removes the source, and
/// needs neither of the two; it needs the transcoder to succeed.
pub open spec fn calls_of(step: StepView) -> Seq<(CallView, bool)> {
    match step {
        StepView::RemoveDir { path } => seq![(CallView::RemoveDir { path }, true)],
        StepView::RemoveFile { path } => seq![(CallView::RemoveFile { path }, true)],
        StepView::Copy { from, to } => seq![(CallView::Copy { from, to }, true)],
        StepView::Move { from, to } => seq![
            (CallView::Copy { from, to }, true),
            (CallView::RemoveFile { path: from }, true),
        ],
        StepView::Transcode { from, to } => seq![
            (CallView::RemoveFile { path: to }, false),
            (CallView::Transcode { from, to }, true),
            (CallView::RemoveFile { path: from }, false),
        ],
        StepView::Refuse { failure } => Seq::empty(),
    }
}

/// What comes next in a step of which `done` calls were made, the latest
/// with the outcome `last`.
///
/// A step that is refused ends at once with its failure. Any other step
/// ends with the failure of the first call that it needs and that failed,
/// without a further call; it ends well when all its calls are made.
pub open spec fn next_of(step: StepView, done: int, last: Result<(), Failure>) -> NextView {
    let calls = calls_of(step);
    match step {
        StepView::Refuse { failure } => NextView::Done(Err(failure)),
        _ => if 0 < done <= calls.len() && calls[done - 1].1 && last is Err {
            NextView::Done(last)
        } else if 0 <= done < calls.len() {
            NextView::Call(calls[done].0)
        } else {
            NextView::Done(Ok(()))
        },
    }
}

/// The step to do next of steps that are done in turn, after the outcomes
/// so far: the one after the last, as long as steps are left and none has
/// failed.
pub open spec fn next_in_turn(steps: int, outcomes: Seq<Result<(), Failure>>) -> Option<int> {
    if outcomes.len() < steps && first_failure(outcomes) is None {
        Some(outcomes.len() as int)
    } else {
        None
    }
}

impl Step {
    /// What comes next in this step, of which `done` calls were made, the
    /// latest with the outcome `last`.
    pub fn next(&self, done: usize, last: Result<(), Failure>) -> (next: Next)
        ensures
            next@ == next_of(self@, done as int, last),
    {
        let failed = match last {
            Ok(_) => false,
            Err(_) => true,
        };
        match self {
            Step::Refuse { failure } => Next::Done(Err(*failure)),
            Step::RemoveDir { path } => if done == 0 {
                Next::Call(Call::RemoveDir { path: path.clone() })
            } else if done == 1 && failed {
                Next::Done(last)
            } else {
                Next::Done(Ok(()))
            },
            Step::RemoveFile { path } => if done == 0 {
                Next::Call(Call::RemoveFile { path: path.clone() })
            } else if done == 1 && failed {
                Next::Done(last)
            } else {
                Next::Done(Ok(()))
            },
            Step::Copy { from, to } => if done == 0 {
                Next::Call(Call::Copy { from: from.clone(), to: to.clone() })
            } else if done == 1 && failed {
                Next::Done(last)
            } else {
                Next::Done(Ok(()))
            },
            Step::Move { from, to } => if done == 0 {
                Next::Call(Call::Copy { from: from.clone(), to: to.clone() })
            } else if done <= 2 && failed {
                Next::Done(last)
            } else if done == 1 {
                Next::Call(Call::RemoveFile { path: from.clone() })
            } else {
                Next::Done(Ok(()))
            },
            Step::Transcode { from, to } => if done == 0 {
                Next::Call(Call::RemoveFile { path: to.clone() })
            } else if done == 1 {
                Next::Call(Call::Transcode { from: from.clone(), to: to.clone() })
            } else if done == 2 && failed {
                Next::Done(last)
            } else if done == 2 {
                Next::Call(Call::RemoveFile { path: from.clone() })
            } else {
                Next::Done(Ok(()))
            },
        }
    }
}

/// The index of the step to do next, of `steps` steps that are done in
/// turn, after the outcomes so far; `None` where a step has failed or none
/// is left.
pub fn proceed(steps: usize, outcomes: &Vec<Result<(), Failure>>) -> (next: Option<usize>)
    ensures
        match next {
            Some(i) => next_in_turn(steps as int, outcomes@) == Some(i as int),
            None => next_in_turn(steps as int, outcomes@) is None,
        },
{
    if outcomes.len() >= steps {
        return None;
    }
    match settle(outcomes) {
        Ok(_) => Some(outcomes.len()),
        Err(_) => None,
    }
}

/// The program that transcodes.
pub const TRANSCODER: &'static str = "ffmpeg";

/// The arguments with which the transcoder is run from `from` to `to`: the
/// input, marked as such, then the output.
pub open spec fn transcoder_arguments(from: Seq<char>, to: Seq<char>) -> Seq<Seq<char>> {
    seq!["-i"@, from, to]
}

/// The arguments with which the transcoder is run from `from` to `to`.
pub fn transcoder_args(from: &str, to: &str) -> (args: Vec<String>)
    ensures
        paths_view(args@) == transcoder_arguments(from@, to@),
{
    let mut args: Vec<String> = Vec::new();
    args.push("-i".to_owned());
    args.push(from.to_owned());
    args.push(to.to_owned());
    assert(paths_view(args@) =~= transcoder_arguments(from@, to@));
    args
}

/// Whether the transcoder did its work: it started, and ended with the exit
/// code 0. Anything else is a `ProcessFailure`.
pub fn transcoder_outcome(started: bool, exit_code: Option<i32>) -> (outcome: Result<(), Failure>)
    ensures
        outcome == (if started && exit_code == Some(0i32) {
            Ok::<(), Failure>(())
        } else {
            Err::<(), Failure>(Failure::ProcessFailure)
        }),
{
    match exit_code {
        Some(code) => if started && code == 0 {
            Ok(())
        } else {
            Err(Failure::ProcessFailure)
        },
        None => Err(Failure::ProcessFailure),
    }
}

/// Every path of the step lies below the root.
pub open spec fn step_below(root: Root, step: StepView) -> bool {
    match step {
        StepView::RemoveDir { path } => root.stripped(path) is Some,
        StepView::RemoveFile { path } => root.stripped(path) is Some,
        StepView::Copy { from, to } => root.stripped(from) is Some && root.stripped(to) is Some,
        StepView::Move { from, to } => root.stripped(from) is Some && root.stripped(to) is Some,
        StepView::Transcode { from, to } => root.stripped(from) is Some && root.stripped(to)
            is Some,
        StepView::Refuse { failure } => true,
    }
}

/// Every path of the plan lies below the root.
pub open spec fn plan_below(root: Root, plan: PlanView) -> bool {
    match plan {
        PlanView::List { dir } => root.stripped(dir) is Some,
        PlanView::InTurn { steps } => forall|i: int|
            0 <= i < steps.len() ==> step_below(root, #[trigger] steps[i]),
        PlanView::Together { steps } => forall|i: int|
            0 <= i < steps.len() ==> step_below(root, #[trigger] steps[i]),
    }
}

/// A removal touches no path but below the root.
pub proof fn lemma_removal_below(root: Root, unit: UnitView)
    ensures
        step_below(root, removal(root, unit)),
{
    law_strip_resolved(root, unit.path);
}

/// A copy or a move into a directory below the root touches no path but
/// below the root.
pub proof fn lemma_transfer_below(root: Root, source: Seq<char>, to: Seq<char>, moving: bool)
    requires
        root.valid(),
        stays_below(to),
    ensures
        step_below(root, transfer(root, source, root.prefix() + to, moving)),
{
    law_strip_resolved(root, source);
    if stays_below(source) && file_name(source) is Some {
        let name = file_name(source)->0;
        lemma_file_name_is_plain(source);
        lemma_joined_stays_below(to, name);
        lemma_joined_below(root.prefix(), to, name);
        law_strip_resolved(root, joined(to, name));
    }
}

/// A transcoding touches no path but below the root.
pub proof fn lemma_transcoding_below(root: Root, source: Seq<char>)
    ensures
        step_below(root, transcoding(root, source)),
{
    law_strip_resolved(root, source);
    if stays_below(source) && with_extension(source, mp4()) is Some {
        reveal_strlit("mp4");
        assert(mp4().len() == 3 && mp4()[0] == 'm' && mp4()[1] == 'p' && mp4()[2] == '4');
        lemma_with_extension_stays_below(source, mp4());
        law_strip_resolved(root, with_extension(source, mp4())->0);
    }
}

/// Whatever the request, every path that its plan touches lies below the
/// root.
pub proof fn law_plan_stays_below(root: Root, action: ActionView)
    requires
        root.valid(),
    ensures
        planned(root, action) is Ok ==> plan_below(root, planned(root, action)->Ok_0),
{
    match action {
        ActionView::Ls(path) => {
            law_strip_resolved(root, path);
        },
        ActionView::Rm(units) => {
            assert forall|i: int| 0 <= i < units.len() implies step_below(
                root,
                removal(root, units[i]),
            ) by {
                lemma_removal_below(root, units[i]);
            }
        },
        ActionView::Mv { from, to } => {
            if stays_below(to) {
                assert forall|i: int| 0 <= i < from.len() implies step_below(
                    root,
                    transfer(root, from[i], root.prefix() + to, true),
                ) by {
                    lemma_transfer_below(root, from[i], to, true);
                }
            }
        },
        ActionView::Cp { from, to } => {
            if stays_below(to) {
                assert forall|i: int| 0 <= i < from.len() implies step_below(
                    root,
                    transfer(root, from[i], root.prefix() + to, false),
                ) by {
                    lemma_transfer_below(root, from[i], to, false);
                }
            }
        },
        ActionView::Mp4(paths) => {
            assert forall|i: int| 0 <= i < paths.len() implies step_below(
                root,
                transcoding(root, paths[i]),
            ) by {
                lemma_transcoding_below(root, paths[i]);
            }
        },
    }
}

} // verus!
