//! The client's side of the protocol: what to send for a request, and what
//! to make of the bytes that came back.

use vstd::prelude::*;
use crate::message::{Action, ActionView, Reaction, ReactionView};
use crate::unit::{units_view, Unit, UnitView};
use crate::wire::{frame_reaction, Bytes};
use crate::Failure;

verus! {

/// Why a request brought no result.
#[derive(Debug, Clone, Copy, PartialEq, Eq, Structural)]
pub enum Refusal {
    /// What came back is no frame of an answer: the connection was closed
    /// early, or the bytes are garbled. Nothing is known of what was done.
    Malformed,
    /// What came back is an answer, but not one to this kind of request.
    Unexpected,
    /// The server reports that the request failed. Part of it may have been
    /// carried out all the same.
    Failed(Failure),
}

/// An answer fits a request where it is a listing for a request to list, and
/// `Fine` for any other request.
pub open spec fn fits(action: ActionView, reaction: ReactionView) -> bool {
    match reaction {
        ReactionView::Ls(_) => action is Ls,
        ReactionView::Fine => !(action is Ls),
        ReactionView::Failed(_) => false,
    }
}

/// What the bytes that came back mean for a request.
pub open spec fn answer_of(action: ActionView, data: Seq<u8>) -> Result<ReactionView, Refusal> {
    match frame_reaction(data) {
        None => Err(Refusal::Malformed),
        Some(ReactionView::Failed(failure)) => Err(Refusal::Failed(failure)),
        Some(reaction) => if fits(action, reaction) {
            Ok(reaction)
        } else {
            Err(Refusal::Unexpected)
        },
    }
}

/// The listing that the bytes that came back hold.
pub open spec fn listing_of(data: Seq<u8>) -> Result<Seq<UnitView>, Refusal> {
    match frame_reaction(data) {
        None => Err(Refusal::Malformed),
        Some(ReactionView::Failed(failure)) => Err(Refusal::Failed(failure)),
        Some(ReactionView::Ls(units)) => Ok(units),
        Some(ReactionView::Fine) => Err(Refusal::Unexpected),
    }
}

/// Reads the answer to a request out of the bytes that came back.
///
/// Gives the answer where it fits the request, and else tells apart bytes
/// that hold no answer, an answer of the wrong kind, and a failure that the
/// server reports.
pub fn read_answer(action: &Action, data: Vec<u8>) -> (answer: Result<Reaction, Refusal>)
    ensures
        match answer {
            Ok(r) => answer_of(action@, data@) == Ok::<ReactionView, Refusal>(r@),
            Err(e) => answer_of(action@, data@) == Err::<ReactionView, Refusal>(e),
        },
{
    let reaction = match Reaction::from_bytes(data) {
        Ok(reaction) => reaction,
        Err(_) => {
            return Err(Refusal::Malformed);
        },
    };
    let listing_asked = match action {
        Action::Ls(_) => true,
        _ => false,
    };
    match reaction {
        Reaction::Failed(failure) => Err(Refusal::Failed(failure)),
        Reaction::Ls(units) => if listing_asked {
            Ok(Reaction::Ls(units))
        } else {
            Err(Refusal::Unexpected)
        },
        Reaction::Fine => if listing_asked {
            Err(Refusal::Unexpected)
        } else {
            Ok(Reaction::Fine)
        },
    }
}

/// Reads the listing out of the bytes that came back for a request to list.
pub fn read_listing(data: Vec<u8>) -> (units: Result<Vec<Unit>, Refusal>)
    ensures
        match units {
            Ok(u) => listing_of(data@) == Ok::<Seq<UnitView>, Refusal>(units_view(u@)),
            Err(e) => listing_of(data@) == Err::<Seq<UnitView>, Refusal>(e),
        },
{
    match Reaction::from_bytes(data) {
        Ok(Reaction::Ls(units)) => Ok(units),
        Ok(Reaction::Fine) => Err(Refusal::Unexpected),
        Ok(Reaction::Failed(failure)) => Err(Refusal::Failed(failure)),
        Err(_) => Err(Refusal::Malformed),
    }
}

} // verus!
