//! The vocabulary of the protocol: what a client may ask, and what the
//! server answers.

use vstd::prelude::*;
use crate::unit::{paths_view, same_paths, same_text, same_units, units_view, Unit, UnitView};
use crate::Failure;

verus! {

/// A request. Every path in it is relative to the server's root.
#[derive(Debug, Clone, PartialEq, Eq)]
pub enum Action {
    /// List the entries of a directory.
    Ls(String),
    /// Remove the units, in order.
    Rm(Vec<Unit>),
    /// Move each source into the directory `to`, under its own name.
    Mv { from: Vec<String>, to: String },
    /// Copy each source into the directory `to`, under its own name.
    Cp { from: Vec<String>, to: String },
    /// Transcode each file to an mp4 file beside it.
    Mp4(Vec<String>),
}

/// The answer to one request.
#[derive(Debug, Clone, PartialEq, Eq)]
pub enum Reaction {
    /// The entries of the directory that was listed.
    Ls(Vec<Unit>),
    /// The request was carried out.
    Fine,
    /// The request failed, and why.
    Failed(Failure),
}

/// A request as a mathematical value.
pub enum ActionView {
    Ls(Seq<char>),
    Rm(Seq<UnitView>),
    Mv { from: Seq<Seq<char>>, to: Seq<char> },
    Cp { from: Seq<Seq<char>>, to: Seq<char> },
    Mp4(Seq<Seq<char>>),
}

/// An answer as a mathematical value.
pub enum ReactionView {
    Ls(Seq<UnitView>),
    Fine,
    Failed(Failure),
}

impl View for Action {
    type V = ActionView;

    open spec fn view(&self) -> ActionView {
        match *self {
            Action::Ls(path) => ActionView::Ls(path@),
            Action::Rm(units) => ActionView::Rm(units_view(units@)),
            Action::Mv { from, to } => ActionView::Mv { from: paths_view(from@), to: to@ },
            Action::Cp { from, to } => ActionView::Cp { from: paths_view(from@), to: to@ },
            Action::Mp4(paths) => ActionView::Mp4(paths_view(paths@)),
        }
    }
}

impl View for Reaction {
    type V = ReactionView;

    open spec fn view(&self) -> ReactionView {
        match *self {
            Reaction::Ls(units) => ReactionView::Ls(units_view(units@)),
            Reaction::Fine => ReactionView::Fine,
            Reaction::Failed(failure) => ReactionView::Failed(failure),
        }
    }
}

impl Action {
    /// Tells whether this request and the other are the same request.
    pub fn same(&self, other: &Action) -> (same: bool)
        ensures
            same == (self@ == other@),
    {
        match (self, other) {
            (Action::Ls(a), Action::Ls(b)) => same_text(a.as_str(), b.as_str()),
            (Action::Rm(a), Action::Rm(b)) => same_units(a, b),
            (Action::Mv { from: a, to: c }, Action::Mv { from: b, to: d }) => same_paths(a, b)
                && same_text(c.as_str(), d.as_str()),
            (Action::Cp { from: a, to: c }, Action::Cp { from: b, to: d }) => same_paths(a, b)
                && same_text(c.as_str(), d.as_str()),
            (Action::Mp4(a), Action::Mp4(b)) => same_paths(a, b),
            _ => false,
        }
    }
}

impl Reaction {
    /// Tells whether this answer and the other are the same answer.
    pub fn same(&self, other: &Reaction) -> (same: bool)
        ensures
            same == (self@ == other@),
    {
        match (self, other) {
            (Reaction::Ls(a), Reaction::Ls(b)) => same_units(a, b),
            (Reaction::Fine, Reaction::Fine) => true,
            (Reaction::Failed(a), Reaction::Failed(b)) => *a == *b,
            _ => false,
        }
    }
}

} // verus!
