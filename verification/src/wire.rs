//! Messages on the wire: a message is written as an item, the item as CBOR
//! by `ciborium`, and the CBOR bytes are sealed into a frame.

use vstd::prelude::*;
use ciborium::Value;
use crate::cbor::{
    array_value, cbor_bytes, cbor_parse, cbor_read, cbor_write, entry_trees_of, map_value, plain,
    reads_back, text_value, tree_of, trees_of, value_array, value_map, value_text, Tree,
};
use crate::codec::{
    action_tree, failure_name, kind_name, lemma_action_read_back, lemma_reaction_read_back,
    name_failure, name_kind, paths_tree, reaction_tree, tagged, transfer_tree, tree_action,
    tree_paths, tree_reaction, tree_transfer, tree_unit, tree_units, unit_tree, units_tree,
};
use crate::frame::{lemma_open_sealed, lemma_sealed_marker_only_last, open, opened, seal, sealed};
use crate::message::{Action, ActionView, Reaction, ReactionView};
use crate::unit::{paths_view, same_text, units_view, Unit, UnitKind};
use crate::{Failure, LAST};

verus! {

/// The item that holds a text.
fn text_item(text: &str) -> (value: Value)
    ensures
        tree_of(value) == Tree::Text(text@),
{
    text_value(text.to_owned())
}

/// The item of a variant with data.
fn tagged_item(tag: &str, body: Value) -> (value: Value)
    ensures
        tree_of(value) == tagged(tag@, tree_of(body)),
{
    let mut entries: Vec<(Value, Value)> = Vec::new();
    entries.push((text_item(tag), body));
    proof {
        assert(entry_trees_of(entries@) =~= seq![(Tree::Text(tag@), tree_of(body))]);
    }
    map_value(entries)
}

/// The item of a record of two fields.
fn record_item(first: &str, a: Value, second: &str, b: Value) -> (value: Value)
    ensures
        tree_of(value) == Tree::Pairs(
            seq![(Tree::Text(first@), tree_of(a)), (Tree::Text(second@), tree_of(b))],
        ),
{
    let mut entries: Vec<(Value, Value)> = Vec::new();
    entries.push((text_item(first), a));
    entries.push((text_item(second), b));
    proof {
        assert(entry_trees_of(entries@) =~= seq![
            (Tree::Text(first@), tree_of(a)),
            (Tree::Text(second@), tree_of(b)),
        ]);
    }
    map_value(entries)
}

/// The name of a kind, as it is written.
pub fn kind_text(kind: UnitKind) -> (name: &'static str)
    ensures
        name@ == kind_name(kind),
{
    match kind {
        UnitKind::Directory => "Directory",
        UnitKind::Video => "Video",
        UnitKind::Audio => "Audio",
        UnitKind::File => "File",
    }
}

/// The kind that a name stands for, if any.
pub fn text_kind(name: &str) -> (kind: Option<UnitKind>)
    ensures
        kind == name_kind(name@),
{
    if same_text(name, "Directory") {
        Some(UnitKind::Directory)
    } else if same_text(name, "Video") {
        Some(UnitKind::Video)
    } else if same_text(name, "Audio") {
        Some(UnitKind::Audio)
    } else if same_text(name, "File") {
        Some(UnitKind::File)
    } else {
        None
    }
}

/// The name of a failure, as it is written.
pub fn failure_text(failure: Failure) -> (name: &'static str)
    ensures
        name@ == failure_name(failure),
{
    match failure {
        Failure::MalformedFrame => "MalformedFrame",
        Failure::OutsideRoot => "OutsideRoot",
        Failure::IoFailure => "IoFailure",
        Failure::ProcessFailure => "ProcessFailure",
    }
}

/// The failure that a name stands for, if any.
pub fn text_failure(name: &str) -> (failure: Option<Failure>)
    ensures
        failure == name_failure(name@),
{
    if same_text(name, "MalformedFrame") {
        Some(Failure::MalformedFrame)
    } else if same_text(name, "OutsideRoot") {
        Some(Failure::OutsideRoot)
    } else if same_text(name, "IoFailure") {
        Some(Failure::IoFailure)
    } else if same_text(name, "ProcessFailure") {
        Some(Failure::ProcessFailure)
    } else {
        None
    }
}

/// The item of a unit.
fn unit_item(unit: &Unit) -> (value: Value)
    ensures
        tree_of(value) == unit_tree(unit@),
{
    let path = text_item(unit.path.as_str());
    let kind = text_item(kind_text(unit.kind));
    record_item("path", path, "kind", kind)
}

/// The unit that an item stands for, if it is one.
fn item_unit(value: &Value) -> (unit: Option<Unit>)
    ensures
        match unit {
            Some(u) => tree_unit(tree_of(*value)) == Some(u@),
            None => tree_unit(tree_of(*value)) is None,
        },
{
    let entries = match value_map(value) {
        Some(e) => e,
        None => {
            return None;
        },
    };
    if entries.len() != 2 {
        return None;
    }
    let first = &entries[0];
    let second = &entries[1];
    let path = match (value_text(&first.0), value_text(&first.1)) {
        (Some(key), Some(path)) => {
            if !same_text(key, "path") {
                return None;
            }
            path
        },
        _ => {
            return None;
        },
    };
    match (value_text(&second.0), value_text(&second.1)) {
        (Some(key), Some(name)) => {
            if !same_text(key, "kind") {
                return None;
            }
            match text_kind(name) {
                Some(kind) => Some(Unit { path: path.to_owned(), kind }),
                None => None,
            }
        },
        _ => None,
    }
}

/// The item of a list of paths.
fn paths_item(paths: &Vec<String>) -> (value: Value)
    ensures
        tree_of(value) == paths_tree(paths_view(paths@)),
{
    let mut items: Vec<Value> = Vec::new();
    let mut i: usize = 0;
    while i < paths.len()
        invariant
            i <= paths.len(),
            items@.len() == i,
            forall|j: int| 0 <= j < i ==> tree_of(#[trigger] items@[j]) == Tree::Text(paths@[j]@),
        decreases paths.len() - i,
    {
        items.push(text_item(paths[i].as_str()));
        i += 1;
    }
    proof {
        assert(trees_of(items@) =~= paths_tree(paths_view(paths@))->List_0);
    }
    array_value(items)
}

/// The paths that an item stands for, if it is a list of texts.
fn item_paths(value: &Value) -> (paths: Option<Vec<String>>)
    ensures
        match paths {
            Some(p) => tree_paths(tree_of(*value)) == Some(paths_view(p@)),
            None => tree_paths(tree_of(*value)) is None,
        },
{
    let items = match value_array(value) {
        Some(v) => v,
        None => {
            return None;
        },
    };
    let ghost trees = trees_of(items@);
    let mut paths: Vec<String> = Vec::new();
    let mut i: usize = 0;
    while i < items.len()
        invariant
            i <= items.len(),
            paths@.len() == i,
            trees == trees_of(items@),
            tree_of(*value) == Tree::List(trees),
            forall|j: int| 0 <= j < i ==> #[trigger] trees[j] == Tree::Text(paths@[j]@),
        decreases items.len() - i,
    {
        match value_text(&items[i]) {
            Some(text) => {
                paths.push(text.to_owned());
            },
            None => {
                assert(!(trees[i as int] is Text));
                return None;
            },
        }
        i += 1;
    }
    proof {
        assert(tree_paths(tree_of(*value))->0 =~= paths_view(paths@));
    }
    Some(paths)
}

/// The item of a list of units.
fn units_item(units: &Vec<Unit>) -> (value: Value)
    ensures
        tree_of(value) == units_tree(units_view(units@)),
{
    let mut items: Vec<Value> = Vec::new();
    let mut i: usize = 0;
    while i < units.len()
        invariant
            i <= units.len(),
            items@.len() == i,
            forall|j: int| 0 <= j < i ==> tree_of(#[trigger] items@[j]) == unit_tree(units@[j]@),
        decreases units.len() - i,
    {
        items.push(unit_item(&units[i]));
        i += 1;
    }
    proof {
        assert(trees_of(items@) =~= units_tree(units_view(units@))->List_0);
    }
    array_value(items)
}

/// The units that an item stands for, if it is a list of units.
fn item_units(value: &Value) -> (units: Option<Vec<Unit>>)
    ensures
        match units {
            Some(u) => tree_units(tree_of(*value)) == Some(units_view(u@)),
            None => tree_units(tree_of(*value)) is None,
        },
{
    let items = match value_array(value) {
        Some(v) => v,
        None => {
            return None;
        },
    };
    let ghost trees = trees_of(items@);
    let mut units: Vec<Unit> = Vec::new();
    let mut i: usize = 0;
    while i < items.len()
        invariant
            i <= items.len(),
            units@.len() == i,
            trees == trees_of(items@),
            tree_of(*value) == Tree::List(trees),
            forall|j: int| 0 <= j < i ==> tree_unit(#[trigger] trees[j]) == Some(units@[j]@),
        decreases items.len() - i,
    {
        match item_unit(&items[i]) {
            Some(unit) => {
                units.push(unit);
            },
            None => {
                assert(tree_unit(trees[i as int]) is None);
                return None;
            },
        }
        i += 1;
    }
    proof {
        assert(tree_units(tree_of(*value))->0 =~= units_view(units@));
    }
    Some(units)
}

/// The item of a move's or a copy's data.
fn transfer_item(from: &Vec<String>, to: &String) -> (value: Value)
    ensures
        tree_of(value) == transfer_tree(paths_view(from@), to@),
{
    let sources = paths_item(from);
    let target = text_item(to.as_str());
    record_item("from", sources, "to", target)
}

/// The sources and the target that an item stands for, if it is such data.
fn item_transfer(value: &Value) -> (transfer: Option<(Vec<String>, String)>)
    ensures
        match transfer {
            Some(t) => tree_transfer(tree_of(*value)) == Some((paths_view(t.0@), t.1@)),
            None => tree_transfer(tree_of(*value)) is None,
        },
{
    let entries = match value_map(value) {
        Some(e) => e,
        None => {
            return None;
        },
    };
    if entries.len() != 2 {
        return None;
    }
    let first = &entries[0];
    let second = &entries[1];
    let from = match value_text(&first.0) {
        Some(key) => {
            if !same_text(key, "from") {
                return None;
            }
            match item_paths(&first.1) {
                Some(paths) => paths,
                None => {
                    return None;
                },
            }
        },
        None => {
            return None;
        },
    };
    match (value_text(&second.0), value_text(&second.1)) {
        (Some(key), Some(to)) => {
            if !same_text(key, "to") {
                return None;
            }
            Some((from, to.to_owned()))
        },
        _ => None,
    }
}

/// The item that a request is written as.
fn action_item(action: &Action) -> (value: Value)
    ensures
        tree_of(value) == action_tree(action@),
{
    match action {
        Action::Ls(path) => tagged_item("Ls", text_item(path.as_str())),
        Action::Rm(units) => tagged_item("Rm", units_item(units)),
        Action::Mv { from, to } => tagged_item("Mv", transfer_item(from, to)),
        Action::Cp { from, to } => tagged_item("Cp", transfer_item(from, to)),
        Action::Mp4(paths) => tagged_item("Mp4", paths_item(paths)),
    }
}

/// The one pair of an item that is a variant with data: the variant's name
/// and the data.
fn item_variant(value: &Value) -> (pair: Option<(&str, &Value)>)
    ensures
        match pair {
            Some(p) => tree_of(*value) == tagged(p.0@, tree_of(*p.1)),
            None => match tree_of(*value) {
                Tree::Pairs(e) => !(e.len() == 1 && e[0].0 is Text),
                _ => true,
            },
        },
{
    let entries = match value_map(value) {
        Some(e) => e,
        None => {
            return None;
        },
    };
    if entries.len() != 1 {
        return None;
    }
    let entry = &entries[0];
    match value_text(&entry.0) {
        Some(tag) => {
            proof {
                assert(entry_trees_of(entries@) =~= seq![(Tree::Text(tag@), tree_of(entry.1))]);
            }
            Some((tag, &entry.1))
        },
        None => None,
    }
}

/// The request that an item stands for, if it is one.
fn item_action(value: &Value) -> (action: Option<Action>)
    ensures
        match action {
            Some(a) => tree_action(tree_of(*value)) == Some(a@),
            None => tree_action(tree_of(*value)) is None,
        },
{
    let (tag, body) = match item_variant(value) {
        Some(pair) => pair,
        None => {
            return None;
        },
    };
    if same_text(tag, "Ls") {
        match value_text(body) {
            Some(path) => Some(Action::Ls(path.to_owned())),
            None => None,
        }
    } else if same_text(tag, "Rm") {
        match item_units(body) {
            Some(units) => Some(Action::Rm(units)),
            None => None,
        }
    } else if same_text(tag, "Mv") {
        match item_transfer(body) {
            Some((from, to)) => Some(Action::Mv { from, to }),
            None => None,
        }
    } else if same_text(tag, "Cp") {
        match item_transfer(body) {
            Some((from, to)) => Some(Action::Cp { from, to }),
            None => None,
        }
    } else if same_text(tag, "Mp4") {
        match item_paths(body) {
            Some(paths) => Some(Action::Mp4(paths)),
            None => None,
        }
    } else {
        None
    }
}

/// The item that an answer is written as.
fn reaction_item(reaction: &Reaction) -> (value: Value)
    ensures
        tree_of(value) == reaction_tree(reaction@),
{
    match reaction {
        Reaction::Ls(units) => tagged_item("Ls", units_item(units)),
        Reaction::Fine => text_item("Fine"),
        Reaction::Failed(failure) => tagged_item("Failed", text_item(failure_text(*failure))),
    }
}

/// The answer that an item stands for, if it is one.
fn item_reaction(value: &Value) -> (reaction: Option<Reaction>)
    ensures
        match reaction {
            Some(r) => tree_reaction(tree_of(*value)) == Some(r@),
            None => tree_reaction(tree_of(*value)) is None,
        },
{
    match value_text(value) {
        Some(name) => {
            return if same_text(name, "Fine") {
                Some(Reaction::Fine)
            } else {
                None
            };
        },
        None => {},
    }
    let (tag, body) = match item_variant(value) {
        Some(pair) => pair,
        None => {
            return None;
        },
    };
    if same_text(tag, "Ls") {
        match item_units(body) {
            Some(units) => Some(Reaction::Ls(units)),
            None => None,
        }
    } else if same_text(tag, "Failed") {
        match value_text(body) {
            Some(name) => match text_failure(name) {
                Some(failure) => Some(Reaction::Failed(failure)),
                None => None,
            },
            None => None,
        }
    } else {
        None
    }
}

/// The frame that a request is sent as.
pub open spec fn action_frame(action: ActionView) -> Seq<u8> {
    sealed(cbor_bytes(action_tree(action)))
}

/// The request that the bytes carry, or `None` where they are no frame, the
/// frame's payload is no CBOR item, or the item is no request.
pub open spec fn frame_action(data: Seq<u8>) -> Option<ActionView> {
    match opened(data) {
        Some(payload) => match cbor_parse(payload) {
            Some(tree) => tree_action(tree),
            None => None,
        },
        None => None,
    }
}

/// The frame that an answer is sent as.
pub open spec fn reaction_frame(reaction: ReactionView) -> Seq<u8> {
    sealed(cbor_bytes(reaction_tree(reaction)))
}

/// The answer that the bytes carry, or `None` where they are no frame, the
/// frame's payload is no CBOR item, or the item is no answer.
pub open spec fn frame_reaction(data: Seq<u8>) -> Option<ReactionView> {
    match opened(data) {
        Some(payload) => match cbor_parse(payload) {
            Some(tree) => tree_reaction(tree),
            None => None,
        },
        None => None,
    }
}

/// A message that travels as one frame.
pub trait Bytes: View + Sized {
    /// The frame of a message.
    spec fn encoded(message: Self::V) -> Seq<u8>;

    /// The message that the bytes carry, if they carry one.
    spec fn decoded(data: Seq<u8>) -> Option<Self::V>;

    /// Writes the message as one frame. The end marker is the frame's last
    /// byte and occurs nowhere else in it.
    fn bytes(&self) -> (data: Vec<u8>)
        ensures
            data@ == Self::encoded(self@),
            data@.len() >= 1,
            data@.last() == LAST,
            forall|i: int| 0 <= i < data@.len() - 1 ==> data@[i] != LAST,
    ;

    /// Reads the message out of one frame, and fails with `MalformedFrame`
    /// exactly where the bytes carry none.
    fn from_bytes(data: Vec<u8>) -> (message: Result<Self, Failure>)
        ensures
            match message {
                Ok(m) => Self::decoded(data@) == Some(m@),
                Err(e) => e == Failure::MalformedFrame && Self::decoded(data@) is None,
            },
    ;
}

/// Seals the CBOR bytes of a plain item into a frame.
fn item_frame(value: &Value) -> (data: Vec<u8>)
    requires
        plain(tree_of(*value)),
    ensures
        data@ == sealed(cbor_bytes(tree_of(*value))),
{
    match cbor_write(value) {
        Some(payload) => seal(payload.as_slice()),
        None => vstd::pervasive::unreached(),
    }
}

/// Reads the item out of a frame.
fn frame_item(data: &Vec<u8>) -> (value: Option<Value>)
    ensures
        match value {
            Some(v) => opened(data@) is Some && cbor_parse(opened(data@)->0) == Some(tree_of(v)),
            None => opened(data@) is None || cbor_parse(opened(data@)->0) is None,
        },
{
    match open(data.as_slice()) {
        Some(payload) => cbor_read(payload.as_slice()),
        None => None,
    }
}

impl Bytes for Action {
    open spec fn encoded(message: ActionView) -> Seq<u8> {
        action_frame(message)
    }

    open spec fn decoded(data: Seq<u8>) -> Option<ActionView> {
        frame_action(data)
    }

    fn bytes(&self) -> (data: Vec<u8>) {
        let value = action_item(self);
        proof {
            lemma_action_read_back(self@);
            lemma_sealed_marker_only_last(cbor_bytes(action_tree(self@)));
        }
        item_frame(&value)
    }

    fn from_bytes(data: Vec<u8>) -> (message: Result<Action, Failure>) {
        match frame_item(&data) {
            Some(value) => match item_action(&value) {
                Some(action) => Ok(action),
                None => Err(Failure::MalformedFrame),
            },
            None => Err(Failure::MalformedFrame),
        }
    }
}

impl Bytes for Reaction {
    open spec fn encoded(message: ReactionView) -> Seq<u8> {
        reaction_frame(message)
    }

    open spec fn decoded(data: Seq<u8>) -> Option<ReactionView> {
        frame_reaction(data)
    }

    fn bytes(&self) -> (data: Vec<u8>) {
        let value = reaction_item(self);
        proof {
            lemma_reaction_read_back(self@);
            lemma_sealed_marker_only_last(cbor_bytes(reaction_tree(self@)));
        }
        item_frame(&value)
    }

    fn from_bytes(data: Vec<u8>) -> (message: Result<Reaction, Failure>) {
        match frame_item(&data) {
            Some(value) => match item_reaction(&value) {
                Some(reaction) => Ok(reaction),
                None => Err(Failure::MalformedFrame),
            },
            None => Err(Failure::MalformedFrame),
        }
    }
}

impl Action {
    /// Writes the request as one frame and reads the frame back before
    /// handing it out: a frame that comes back from here is one that
    /// `from_bytes` reads as this request. `None` where it is not.
    pub fn checked_bytes(&self) -> (data: Option<Vec<u8>>)
        ensures
            match data {
                Some(d) => d@ == action_frame(self@) && frame_action(d@) == Some(self@),
                None => frame_action(action_frame(self@)) != Some(self@),
            },
    {
        let data = self.bytes();
        let copy = data.clone();
        assert(copy@ =~= data@);
        match Action::from_bytes(copy) {
            Ok(back) => if back.same(self) {
                Some(data)
            } else {
                None
            },
            Err(_) => None,
        }
    }
}

impl Reaction {
    /// Writes the answer as one frame and reads the frame back before
    /// handing it out: a frame that comes back from here is one that
    /// `from_bytes` reads as this answer. `None` where it is not.
    pub fn checked_bytes(&self) -> (data: Option<Vec<u8>>)
        ensures
            match data {
                Some(d) => d@ == reaction_frame(self@) && frame_reaction(d@) == Some(self@),
                None => frame_reaction(reaction_frame(self@)) != Some(self@),
            },
    {
        let data = self.bytes();
        let copy = data.clone();
        assert(copy@ =~= data@);
        match Reaction::from_bytes(copy) {
            Ok(back) => if back.same(self) {
                Some(data)
            } else {
                None
            },
            Err(_) => None,
        }
    }
}

/// In the frame of a request the end marker is the last byte and occurs
/// nowhere else, whatever the request's paths hold.
pub proof fn law_action_frame_marker(action: ActionView)
    ensures
        action_frame(action).len() >= 1,
        action_frame(action).last() == LAST,
        forall|i: int| 0 <= i < action_frame(action).len() - 1 ==> action_frame(action)[i] != LAST,
{
    lemma_sealed_marker_only_last(cbor_bytes(action_tree(action)));
}

/// In the frame of an answer the end marker is the last byte and occurs
/// nowhere else, whatever the answer's paths hold.
pub proof fn law_reaction_frame_marker(reaction: ReactionView)
    ensures
        reaction_frame(reaction).len() >= 1,
        reaction_frame(reaction).last() == LAST,
        forall|i: int|
            0 <= i < reaction_frame(reaction).len() - 1 ==> reaction_frame(reaction)[i] != LAST,
{
    lemma_sealed_marker_only_last(cbor_bytes(reaction_tree(reaction)));
}

/// Reading the frame of a request gives the request back, provided that the
/// CBOR reader gives back the item that the CBOR writer was handed.
pub proof fn law_action_round_trip(action: ActionView)
    ensures
        reads_back(action_tree(action)) ==> frame_action(action_frame(action)) == Some(action),
{
    lemma_open_sealed(cbor_bytes(action_tree(action)));
    lemma_action_read_back(action);
}

/// Reading the frame of an answer gives the answer back, provided that the
/// CBOR reader gives back the item that the CBOR writer was handed.
pub proof fn law_reaction_round_trip(reaction: ReactionView)
    ensures
        reads_back(reaction_tree(reaction)) ==> frame_reaction(reaction_frame(reaction)) == Some(
            reaction,
        ),
{
    lemma_open_sealed(cbor_bytes(reaction_tree(reaction)));
    lemma_reaction_read_back(reaction);
}

} // verus!
