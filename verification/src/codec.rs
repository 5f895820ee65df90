//! How a message is written as a self-describing item and read back.
//!
//! A variant that carries data is a list of one pair, the variant's name and
//! its data; a variant without data is its name alone. A record is a list of
//! pairs of field name and value, in the order of its fields. A reader that
//! knows fewer variants still reads the ones it knows.

use vstd::prelude::*;
use crate::cbor::{plain, Tree};
use crate::message::{ActionView, ReactionView};
use crate::unit::{UnitKind, UnitView};
use crate::Failure;

verus! {

/// The name under which a kind is written.
pub open spec fn kind_name(kind: UnitKind) -> Seq<char> {
    match kind {
        UnitKind::Directory => "Directory"@,
        UnitKind::Video => "Video"@,
        UnitKind::Audio => "Audio"@,
        UnitKind::File => "File"@,
    }
}

/// The kind that a name stands for.
pub open spec fn name_kind(name: Seq<char>) -> Option<UnitKind> {
    if name == "Directory"@ {
        Some(UnitKind::Directory)
    } else if name == "Video"@ {
        Some(UnitKind::Video)
    } else if name == "Audio"@ {
        Some(UnitKind::Audio)
    } else if name == "File"@ {
        Some(UnitKind::File)
    } else {
        None
    }
}

/// The name under which a failure is written.
pub open spec fn failure_name(failure: Failure) -> Seq<char> {
    match failure {
        Failure::MalformedFrame => "MalformedFrame"@,
        Failure::OutsideRoot => "OutsideRoot"@,
        Failure::IoFailure => "IoFailure"@,
        Failure::ProcessFailure => "ProcessFailure"@,
    }
}

/// The failure that a name stands for.
pub open spec fn name_failure(name: Seq<char>) -> Option<Failure> {
    if name == "MalformedFrame"@ {
        Some(Failure::MalformedFrame)
    } else if name == "OutsideRoot"@ {
        Some(Failure::OutsideRoot)
    } else if name == "IoFailure"@ {
        Some(Failure::IoFailure)
    } else if name == "ProcessFailure"@ {
        Some(Failure::ProcessFailure)
    } else {
        None
    }
}

/// A variant with data: one pair of the variant's name and the data.
pub open spec fn tagged(tag: Seq<char>, body: Tree) -> Tree {
    Tree::Pairs(seq![(Tree::Text(tag), body)])
}

/// A unit: its path, then its kind.
pub open spec fn unit_tree(unit: UnitView) -> Tree {
    Tree::Pairs(
        seq![
            (Tree::Text("path"@), Tree::Text(unit.path)),
            (Tree::Text("kind"@), Tree::Text(kind_name(unit.kind))),
        ],
    )
}

/// The unit that a tree stands for, if it is one.
pub open spec fn tree_unit(tree: Tree) -> Option<UnitView> {
    match tree {
        Tree::Pairs(e) => if e.len() == 2 && e[0].0 == Tree::Text("path"@) && e[0].1 is Text
            && e[1].0 == Tree::Text("kind"@) && e[1].1 is Text && name_kind(e[1].1->Text_0)
            is Some {
            Some(UnitView { path: e[0].1->Text_0, kind: name_kind(e[1].1->Text_0)->0 })
        } else {
            None
        },
        _ => None,
    }
}

/// A list of paths: one text each.
pub open spec fn paths_tree(paths: Seq<Seq<char>>) -> Tree {
    Tree::List(Seq::new(paths.len(), |i: int| Tree::Text(paths[i])))
}

/// The paths that a tree stands for, if it is a list of texts.
pub open spec fn tree_paths(tree: Tree) -> Option<Seq<Seq<char>>> {
    match tree {
        Tree::List(items) => if forall|i: int| 0 <= i < items.len() ==> (#[trigger] items[i])
            is Text {
            Some(Seq::new(items.len(), |i: int| items[i]->Text_0))
        } else {
            None
        },
        _ => None,
    }
}

/// A list of units: one record each.
pub open spec fn units_tree(units: Seq<UnitView>) -> Tree {
    Tree::List(Seq::new(units.len(), |i: int| unit_tree(units[i])))
}

/// The units that a tree stands for, if it is a list of units.
pub open spec fn tree_units(tree: Tree) -> Option<Seq<UnitView>> {
    match tree {
        Tree::List(items) => if forall|i: int|
            0 <= i < items.len() ==> tree_unit(#[trigger] items[i]) is Some {
            Some(Seq::new(items.len(), |i: int| tree_unit(items[i])->0))
        } else {
            None
        },
        _ => None,
    }
}

/// The data of a move or a copy: the sources, then the target directory.
pub open spec fn transfer_tree(from: Seq<Seq<char>>, to: Seq<char>) -> Tree {
    Tree::Pairs(seq![(Tree::Text("from"@), paths_tree(from)), (Tree::Text("to"@), Tree::Text(to))])
}

/// The sources and the target that a tree stands for, if it is such data.
pub open spec fn tree_transfer(tree: Tree) -> Option<(Seq<Seq<char>>, Seq<char>)> {
    match tree {
        Tree::Pairs(e) => if e.len() == 2 && e[0].0 == Tree::Text("from"@) && tree_paths(e[0].1)
            is Some && e[1].0 == Tree::Text("to"@) && e[1].1 is Text {
            Some((tree_paths(e[0].1)->0, e[1].1->Text_0))
        } else {
            None
        },
        _ => None,
    }
}

/// The tree that a request is written as.
pub open spec fn action_tree(action: ActionView) -> Tree {
    match action {
        ActionView::Ls(path) => tagged("Ls"@, Tree::Text(path)),
        ActionView::Rm(units) => tagged("Rm"@, units_tree(units)),
        ActionView::Mv { from, to } => tagged("Mv"@, transfer_tree(from, to)),
        ActionView::Cp { from, to } => tagged("Cp"@, transfer_tree(from, to)),
        ActionView::Mp4(paths) => tagged("Mp4"@, paths_tree(paths)),
    }
}

/// The request that a tree stands for, or `None` where the tree is not one
/// pair under a known name with data of that variant's shape.
pub open spec fn tree_action(tree: Tree) -> Option<ActionView> {
    match tree {
        Tree::Pairs(e) => if e.len() == 1 && e[0].0 is Text {
            let tag = e[0].0->Text_0;
            let body = e[0].1;
            if tag == "Ls"@ {
                match body {
                    Tree::Text(path) => Some(ActionView::Ls(path)),
                    _ => None,
                }
            } else if tag == "Rm"@ {
                match tree_units(body) {
                    Some(units) => Some(ActionView::Rm(units)),
                    None => None,
                }
            } else if tag == "Mv"@ {
                match tree_transfer(body) {
                    Some(t) => Some(ActionView::Mv { from: t.0, to: t.1 }),
                    None => None,
                }
            } else if tag == "Cp"@ {
                match tree_transfer(body) {
                    Some(t) => Some(ActionView::Cp { from: t.0, to: t.1 }),
                    None => None,
                }
            } else if tag == "Mp4"@ {
                match tree_paths(body) {
                    Some(paths) => Some(ActionView::Mp4(paths)),
                    None => None,
                }
            } else {
                None
            }
        } else {
            None
        },
        _ => None,
    }
}

/// The tree that an answer is written as.
pub open spec fn reaction_tree(reaction: ReactionView) -> Tree {
    match reaction {
        ReactionView::Ls(units) => tagged("Ls"@, units_tree(units)),
        ReactionView::Fine => Tree::Text("Fine"@),
        ReactionView::Failed(failure) => tagged("Failed"@, Tree::Text(failure_name(failure))),
    }
}

/// The answer that a tree stands for, or `None` where the tree is neither
/// the name of a variant without data nor one pair under a known name with
/// data of that variant's shape.
pub open spec fn tree_reaction(tree: Tree) -> Option<ReactionView> {
    match tree {
        Tree::Text(name) => if name == "Fine"@ {
            Some(ReactionView::Fine)
        } else {
            None
        },
        Tree::Pairs(e) => if e.len() == 1 && e[0].0 is Text {
            let tag = e[0].0->Text_0;
            let body = e[0].1;
            if tag == "Ls"@ {
                match tree_units(body) {
                    Some(units) => Some(ReactionView::Ls(units)),
                    None => None,
                }
            } else if tag == "Failed"@ {
                match body {
                    Tree::Text(name) => match name_failure(name) {
                        Some(failure) => Some(ReactionView::Failed(failure)),
                        None => None,
                    },
                    _ => None,
                }
            } else {
                None
            }
        } else {
            None
        },
        _ => None,
    }
}

/// Reading the name of a kind gives the kind back.
pub proof fn lemma_kind_name_read_back(kind: UnitKind)
    ensures
        name_kind(kind_name(kind)) == Some(kind),
{
    reveal_strlit("Directory");
    reveal_strlit("Video");
    reveal_strlit("Audio");
    reveal_strlit("File");
    assert("Directory"@.len() == 9);
    assert("Video"@[0] == 'V');
    assert("Audio"@[0] == 'A');
    assert("File"@.len() == 4);
}

/// Reading the name of a failure gives the failure back.
pub proof fn lemma_failure_name_read_back(failure: Failure)
    ensures
        name_failure(failure_name(failure)) == Some(failure),
{
    reveal_strlit("MalformedFrame");
    reveal_strlit("OutsideRoot");
    reveal_strlit("IoFailure");
    reveal_strlit("ProcessFailure");
    assert("MalformedFrame"@.len() == 14);
    assert("OutsideRoot"@.len() == 11);
    assert("IoFailure"@.len() == 9);
    assert("ProcessFailure"@[0] == 'P');
    assert("MalformedFrame"@[0] == 'M');
}

/// The tree of a unit is plain and stands for that unit.
pub proof fn lemma_unit_read_back(unit: UnitView)
    ensures
        plain(unit_tree(unit)),
        tree_unit(unit_tree(unit)) == Some(unit),
{
    reveal_with_fuel(plain, 2);
    lemma_kind_name_read_back(unit.kind);
}

/// The tree of a list of paths is plain and stands for that list.
pub proof fn lemma_paths_read_back(paths: Seq<Seq<char>>)
    ensures
        plain(paths_tree(paths)),
        tree_paths(paths_tree(paths)) == Some(paths),
{
    reveal_with_fuel(plain, 2);
    assert(tree_paths(paths_tree(paths))->0 =~= paths);
}

/// The tree of a list of units is plain and stands for that list.
pub proof fn lemma_units_read_back(units: Seq<UnitView>)
    ensures
        plain(units_tree(units)),
        tree_units(units_tree(units)) == Some(units),
{
    let items = units_tree(units)->List_0;
    assert forall|i: int| 0 <= i < items.len() implies plain(#[trigger] items[i]) && tree_unit(
        items[i],
    ) == Some(units[i]) by {
        lemma_unit_read_back(units[i]);
    }
    assert(tree_units(units_tree(units))->0 =~= units);
}

/// The tree of a move's or a copy's data is plain and stands for that data.
pub proof fn lemma_transfer_read_back(from: Seq<Seq<char>>, to: Seq<char>)
    ensures
        plain(transfer_tree(from, to)),
        tree_transfer(transfer_tree(from, to)) == Some((from, to)),
{
    reveal_with_fuel(plain, 2);
    lemma_paths_read_back(from);
}

/// The tree of a request is plain, and reading it gives the request back.
pub proof fn lemma_action_read_back(action: ActionView)
    ensures
        plain(action_tree(action)),
        tree_action(action_tree(action)) == Some(action),
{
    reveal_with_fuel(plain, 2);
    reveal_strlit("Ls");
    reveal_strlit("Rm");
    reveal_strlit("Mv");
    reveal_strlit("Cp");
    reveal_strlit("Mp4");
    assert("Ls"@[0] == 'L');
    assert("Rm"@[0] == 'R');
    assert("Mv"@[1] == 'v');
    assert("Cp"@[0] == 'C');
    assert("Mp4"@.len() == 3);
    match action {
        ActionView::Ls(path) => {},
        ActionView::Rm(units) => {
            lemma_units_read_back(units);
        },
        ActionView::Mv { from, to } => {
            lemma_transfer_read_back(from, to);
        },
        ActionView::Cp { from, to } => {
            lemma_transfer_read_back(from, to);
        },
        ActionView::Mp4(paths) => {
            lemma_paths_read_back(paths);
        },
    }
}

/// The tree of an answer is plain, and reading it gives the answer back.
pub proof fn lemma_reaction_read_back(reaction: ReactionView)
    ensures
        plain(reaction_tree(reaction)),
        tree_reaction(reaction_tree(reaction)) == Some(reaction),
{
    reveal_with_fuel(plain, 2);
    reveal_strlit("Ls");
    reveal_strlit("Failed");
    assert("Ls"@[0] == 'L');
    assert("Failed"@[0] == 'F');
    match reaction {
        ReactionView::Ls(units) => {
            lemma_units_read_back(units);
        },
        ReactionView::Fine => {},
        ReactionView::Failed(failure) => {
            lemma_failure_name_read_back(failure);
        },
    }
}

} // verus!
