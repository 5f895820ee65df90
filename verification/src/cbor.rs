//! The self-describing items that messages are written as, and the calls
//! into `ciborium` that turn such an item into bytes and back.
//!
//! Nothing in this file is proved of `ciborium`: each function below with a
//! body that Verus does not read states what the crate's source shows of the
//! call it makes.

use vstd::prelude::*;

verus! {

/// `ciborium::Value`, a CBOR item held in memory; opaque to the verifier.
#[verifier::external_type_specification]
#[verifier::external_body]
pub struct ExValue(ciborium::Value);

/// What an item holds, as far as messages use it: a text, a list of items,
/// or a list of pairs of items. Every other item is `Other`.
pub enum Tree {
    Text(Seq<char>),
    List(Seq<Tree>),
    Pairs(Seq<(Tree, Tree)>),
    Other,
}

/// What a `ciborium::Value` holds: `Text`, `Array` and `Map` with their
/// contents, `Other` for each of its remaining variants.
pub uninterp spec fn tree_of(value: ciborium::Value) -> Tree;

/// The bytes that `ciborium::ser::into_writer` writes for a value that holds
/// the tree.
pub uninterp spec fn cbor_bytes(tree: Tree) -> Seq<u8>;

/// What the value holds that `ciborium::de::from_reader` reads from the
/// bytes, or `None` where it reports an error.
pub uninterp spec fn cbor_parse(bytes: Seq<u8>) -> Option<Tree>;

/// The trees of a list of values, in order.
pub open spec fn trees_of(items: Seq<ciborium::Value>) -> Seq<Tree> {
    Seq::new(items.len(), |i: int| tree_of(items[i]))
}

/// The trees of a list of pairs of values, in order.
pub open spec fn entry_trees_of(entries: Seq<(ciborium::Value, ciborium::Value)>) -> Seq<
    (Tree, Tree),
> {
    Seq::new(entries.len(), |i: int| (tree_of(entries[i].0), tree_of(entries[i].1)))
}

/// A tree is plain where it is made of texts, lists and pair lists only.
pub open spec fn plain(tree: Tree) -> bool
    decreases tree,
{
    match tree {
        Tree::Text(_) => true,
        Tree::List(items) => forall|i: int|
            0 <= i < items.len() ==> plain(#[trigger] items[i]),
        Tree::Pairs(entries) => forall|i: int|
            0 <= i < entries.len() ==> plain((#[trigger] entries[i]).0) && plain(entries[i].1),
        Tree::Other => false,
    }
}

/// The reader gives back the tree that the writer was handed. Nothing here
/// states this of any tree: it is what is asked of `ciborium` wherever a
/// frame is to be read as the message that was written.
pub open spec fn reads_back(tree: Tree) -> bool {
    cbor_parse(cbor_bytes(tree)) == Some(tree)
}

/// `ciborium::Value::Text`: the value that holds the text.
#[verifier::external_body]
pub(crate) fn text_value(text: String) -> (value: ciborium::Value)
    ensures
        tree_of(value) == Tree::Text(text@),
{
    ciborium::Value::Text(text)
}

/// `ciborium::Value::Array`: the value that holds the items, in order.
#[verifier::external_body]
pub(crate) fn array_value(items: Vec<ciborium::Value>) -> (value: ciborium::Value)
    ensures
        tree_of(value) == Tree::List(trees_of(items@)),
{
    ciborium::Value::Array(items)
}

/// `ciborium::Value::Map`: the value that holds the pairs, in order.
#[verifier::external_body]
pub(crate) fn map_value(entries: Vec<(ciborium::Value, ciborium::Value)>) -> (value:
    ciborium::Value)
    ensures
        tree_of(value) == Tree::Pairs(entry_trees_of(entries@)),
{
    ciborium::Value::Map(entries)
}

/// `ciborium::Value::as_text`: the text of a `Text` value, `None` for every
/// other value.
#[verifier::external_body]
pub(crate) fn value_text(value: &ciborium::Value) -> (text: Option<&str>)
    ensures
        match text {
            Some(s) => tree_of(*value) == Tree::Text(s@),
            None => !(tree_of(*value) is Text),
        },
{
    value.as_text()
}

/// `ciborium::Value::as_array`: the items of an `Array` value, `None` for
/// every other value.
#[verifier::external_body]
pub(crate) fn value_array(value: &ciborium::Value) -> (items: Option<&Vec<ciborium::Value>>)
    ensures
        match items {
            Some(v) => tree_of(*value) == Tree::List(trees_of(v@)),
            None => !(tree_of(*value) is List),
        },
{
    value.as_array()
}

/// `ciborium::Value::as_map`: the pairs of a `Map` value, `None` for every
/// other value.
#[verifier::external_body]
pub(crate) fn value_map(value: &ciborium::Value) -> (entries: Option<
    &Vec<(ciborium::Value, ciborium::Value)>,
>)
    ensures
        match entries {
            Some(v) => tree_of(*value) == Tree::Pairs(entry_trees_of(v@)),
            None => !(tree_of(*value) is Pairs),
        },
{
    value.as_map()
}

/// `ciborium::ser::into_writer` into a fresh vector. It fails only where the
/// writer does, and a vector takes every write: for a plain value the bytes
/// come back, and they depend on what the value holds alone.
#[verifier::external_body]
pub(crate) fn cbor_write(value: &ciborium::Value) -> (bytes: Option<Vec<u8>>)
    ensures
        plain(tree_of(*value)) ==> bytes is Some && bytes->0@ == cbor_bytes(tree_of(*value)),
{
    let mut buffer = Vec::new();
    match ciborium::ser::into_writer(value, &mut buffer) {
        Ok(()) => Some(buffer),
        Err(_) => None,
    }
}

/// `ciborium::de::from_reader` on a slice, reading one value from its start.
/// Whether it succeeds and what the value holds depend on the bytes alone.
#[verifier::external_body]
pub(crate) fn cbor_read(bytes: &[u8]) -> (value: Option<ciborium::Value>)
    ensures
        cbor_parse(bytes@) == match value {
            Some(v) => Some(tree_of(v)),
            None => None,
        },
{
    match ciborium::de::from_reader::<ciborium::Value, _>(bytes) {
        Ok(v) => Some(v),
        Err(_) => None,
    }
}

} // verus!
