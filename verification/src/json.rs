//! Value trees as JSON text: reading a document and rendering one, both done
//! by `serde_json`.

use vstd::prelude::*;
use crate::model::{distinct_keys, TreeModel};
use crate::tree::{members_of, models_of, Entry, ValueTree};

verus! {

/// `serde_json::Value`, the form in which the parser hands a document out and
/// the renderer takes one in. What it holds is named by `json_model`.
#[verifier::external_type_specification]
#[verifier::external_body]
pub struct ExValue(serde_json::Value);

/// `serde_json::Error`, carried from the parser and the renderer to the place
/// where it is turned into a `ConfError`.
#[verifier::external_type_specification]
#[verifier::external_body]
pub struct ExError(serde_json::Error);

/// What a `serde_json::Value` holds: its scalars as they are, the items of an
/// array in their order, and the members of an object in the order in which
/// its map hands them out, which is the order in which they were put in.
pub uninterp spec fn json_model(value: serde_json::Value) -> TreeModel;

/// How deep a `serde_json::Value` nests: more than each of the values that it
/// holds.
pub uninterp spec fn json_depth(value: serde_json::Value) -> nat;

/// The document that `serde_json::from_str` reads from a text, or `None` where
/// it refuses the text.
pub uninterp spec fn parsed_text(text: Seq<char>) -> Option<TreeModel>;

/// The text that `serde_json::to_string_pretty` renders for a document, or
/// `None` where it fails.
pub uninterp spec fn pretty_text(document: TreeModel) -> Option<Seq<char>>;

/// Why reading or rendering a document failed.
#[derive(Debug, Clone, Copy, PartialEq, Eq)]
pub enum ConfError {
    /// The text is no JSON document.
    Parse,
    /// The tree could not be rendered as text.
    Serialize,
}

/// Calls `serde_json::from_str` for a `serde_json::Value`. Nothing is proved
/// of it: its outcome on a text is given the name `parsed_text`.
#[verifier::external_body]
fn parse_json(text: &str) -> (r: Result<serde_json::Value, serde_json::Error>)
    ensures
        parsed_text(text@) == match r {
            Ok(value) => Some(json_model(value)),
            Err(_) => None,
        },
{
    serde_json::from_str::<serde_json::Value>(text)
}

/// Calls `serde_json::to_string_pretty` on a `serde_json::Value`. Nothing is
/// proved of it: its outcome on a document is given the name `pretty_text`.
#[verifier::external_body]
fn render_json(value: &serde_json::Value) -> (r: Result<String, serde_json::Error>)
    ensures
        pretty_text(json_model(*value)) == match r {
            Ok(text) => Some(text@),
            Err(_) => None,
        },
{
    serde_json::to_string_pretty(value)
}

/// One node of a `serde_json::Value`, opened: a scalar, or the children that
/// the node holds, still inside the value.
enum JsonRef<'a> {
    Null,
    Bool(bool),
    Number(&'a serde_json::Number),
    String(&'a String),
    Array(&'a Vec<serde_json::Value>),
    Object(Vec<(&'a String, &'a serde_json::Value)>),
}

impl<'a> JsonRef<'a> {
    /// What the node holds, each child by what it holds.
    spec fn model(self) -> TreeModel {
        match self {
            JsonRef::Null => TreeModel::Null,
            JsonRef::Bool(b) => TreeModel::Bool(b),
            JsonRef::Number(n) => TreeModel::Number(*n),
            JsonRef::String(s) => TreeModel::Text(s@),
            JsonRef::Array(items) => TreeModel::Array(
                Seq::new(items@.len(), |i: int| json_model(items@[i])),
            ),
            JsonRef::Object(members) => TreeModel::Object(
                Seq::new(members@.len(), |i: int| (members@[i].0@, json_model(*members@[i].1))),
            ),
        }
    }

    /// Every child of the node nests less deep than `depth`.
    spec fn below(self, depth: nat) -> bool {
        match self {
            JsonRef::Array(items) => forall|i: int|
                0 <= i < items@.len() ==> (#[trigger] json_depth(items@[i])) < depth,
            JsonRef::Object(members) => forall|i: int|
                0 <= i < members@.len() ==> (#[trigger] json_depth(*members@[i].1)) < depth,
            _ => true,
        }
    }
}

/// One node of a `serde_json::Value` to be made: a scalar, or the children
/// that the node is to hold.
enum JsonNode {
    Null,
    Bool(bool),
    Number(serde_json::Number),
    String(String),
    Array(Vec<serde_json::Value>),
    Object(Vec<(String, serde_json::Value)>),
}

impl JsonNode {
    /// What the node holds, each child by what it holds.
    spec fn model(self) -> TreeModel {
        match self {
            JsonNode::Null => TreeModel::Null,
            JsonNode::Bool(b) => TreeModel::Bool(b),
            JsonNode::Number(n) => TreeModel::Number(n),
            JsonNode::String(s) => TreeModel::Text(s@),
            JsonNode::Array(items) => TreeModel::Array(
                Seq::new(items@.len(), |i: int| json_model(items@[i])),
            ),
            JsonNode::Object(members) => TreeModel::Object(
                Seq::new(members@.len(), |i: int| (members@[i].0@, json_model(members@[i].1))),
            ),
        }
    }
}

/// Tells the variants of a `serde_json::Value` apart and hands out what the
/// node holds; the members of an object come from `serde_json::Map::iter`.
/// The claim is that the node is what `json_model` names, one level down,
/// that the keys of an object are distinct, as they are in a map, and that
/// each child nests less deep than the value.
#[verifier::external_body]
fn open_json<'a>(value: &'a serde_json::Value) -> (r: JsonRef<'a>)
    ensures
        r.model() == json_model(*value),
        distinct_keys(r.model().members()),
        r.below(json_depth(*value)),
{
    match value {
        serde_json::Value::Null => JsonRef::Null,
        serde_json::Value::Bool(b) => JsonRef::Bool(*b),
        serde_json::Value::Number(n) => JsonRef::Number(n),
        serde_json::Value::String(s) => JsonRef::String(s),
        serde_json::Value::Array(items) => JsonRef::Array(items),
        serde_json::Value::Object(map) => JsonRef::Object(map.iter().collect()),
    }
}

/// Makes the `serde_json::Value` of a node; the map of an object is
/// collected from its members in their order. The claim is that the value is
/// what the node held: with distinct keys the map keeps every member, and,
/// being the order-preserving map of `serde_json`, in the order in which it
/// came.
#[verifier::external_body]
fn close_json(node: JsonNode) -> (r: serde_json::Value)
    requires
        distinct_keys(node.model().members()),
    ensures
        json_model(r) == node.model(),
{
    match node {
        JsonNode::Null => serde_json::Value::Null,
        JsonNode::Bool(b) => serde_json::Value::Bool(b),
        JsonNode::Number(n) => serde_json::Value::Number(n),
        JsonNode::String(s) => serde_json::Value::String(s),
        JsonNode::Array(items) => serde_json::Value::Array(items),
        JsonNode::Object(members) => serde_json::Value::Object(members.into_iter().collect()),
    }
}

/// The tree that holds what a `serde_json::Value` holds, members in the order
/// of the value's maps.
pub fn from_json(value: &serde_json::Value) -> (r: ValueTree)
    ensures
        r@ == json_model(*value),
        r@.wf(),
    decreases json_depth(*value),
{
    let node = open_json(value);
    let r = match node {
        JsonRef::Null => ValueTree::Null,
        JsonRef::Bool(b) => ValueTree::Bool(b),
        JsonRef::Number(n) => ValueTree::Number(n.clone()),
        JsonRef::String(s) => ValueTree::String(s.clone()),
        JsonRef::Array(items) => {
            let mut nodes: Vec<ValueTree> = Vec::new();
            let mut i: usize = 0;
            while i < items.len()
                invariant
                    i <= items@.len(),
                    nodes@.len() == i,
                    forall|k: int|
                        0 <= k < items@.len() ==> (#[trigger] json_depth(items@[k]))
                            < json_depth(*value),
                    forall|j: int|
                        0 <= j < i ==> (#[trigger] nodes@[j])@ == json_model(items@[j])
                            && nodes@[j]@.wf(),
                decreases items@.len() - i,
            {
                nodes.push(from_json(&items[i]));
                i += 1;
            }
            assert(models_of(nodes@) =~= node.model()->Array_0);
            ValueTree::Array(nodes)
        },
        JsonRef::Object(members) => {
            let mut entries: Vec<Entry> = Vec::new();
            let mut i: usize = 0;
            while i < members.len()
                invariant
                    i <= members@.len(),
                    entries@.len() == i,
                    forall|k: int|
                        0 <= k < members@.len() ==> (#[trigger] json_depth(*members@[k].1))
                            < json_depth(*value),
                    forall|j: int|
                        0 <= j < i ==> (#[trigger] entries@[j]).key@ == members@[j].0@
                            && entries@[j].value@ == json_model(*members@[j].1)
                            && entries@[j].value@.wf(),
                decreases members@.len() - i,
            {
                let key = members[i].0.clone();
                let child = from_json(members[i].1);
                entries.push(Entry { key, value: child });
                i += 1;
            }
            assert(members_of(entries@) =~= node.model().members());
            ValueTree::Object(entries)
        },
    };
    proof {
        r.lemma_view_members();
    }
    r
}

/// The `serde_json::Value` that holds what a tree holds, members in the
/// tree's order.
pub fn to_json(tree: &ValueTree) -> (r: serde_json::Value)
    requires
        tree@.wf(),
    ensures
        json_model(r) == tree@,
    decreases tree,
{
    proof {
        tree.lemma_view_members();
    }
    match tree {
        ValueTree::Null => close_json(JsonNode::Null),
        ValueTree::Bool(b) => close_json(JsonNode::Bool(*b)),
        ValueTree::Number(n) => close_json(JsonNode::Number(n.clone())),
        ValueTree::String(s) => close_json(JsonNode::String(s.clone())),
        ValueTree::Array(items) => {
            let mut values: Vec<serde_json::Value> = Vec::new();
            let mut i: usize = 0;
            while i < items.len()
                invariant
                    i <= items@.len(),
                    values@.len() == i,
                    tree is Array,
                    tree->Array_0 == *items,
                    tree@ == TreeModel::Array(models_of(items@)),
                    tree@.wf(),
                    forall|j: int| 0 <= j < i ==> json_model(#[trigger] values@[j]) == items@[j]@,
                decreases items@.len() - i,
            {
                assert(decreases_to!(tree => items@[i as int]));
                assert(tree@->Array_0[i as int].wf());
                values.push(to_json(&items[i]));
                i += 1;
            }
            let node = JsonNode::Array(values);
            assert(node.model()->Array_0 =~= models_of(items@));
            close_json(node)
        },
        ValueTree::Object(entries) => {
            let mut members: Vec<(String, serde_json::Value)> = Vec::new();
            let mut i: usize = 0;
            while i < entries.len()
                invariant
                    i <= entries@.len(),
                    members@.len() == i,
                    tree is Object,
                    tree->Object_0 == *entries,
                    tree@ == TreeModel::Object(members_of(entries@)),
                    tree@.wf(),
                    forall|j: int|
                        0 <= j < i ==> (#[trigger] members@[j]).0@ == entries@[j].key@
                            && json_model(members@[j].1) == entries@[j].value@,
                decreases entries@.len() - i,
            {
                assert(decreases_to!(tree => entries@[i as int].value));
                assert(tree@->Object_0[i as int].1.wf());
                let key = entries[i].key.clone();
                let value = to_json(&entries[i].value);
                members.push((key, value));
                i += 1;
            }
            let node = JsonNode::Object(members);
            assert(node.model().members() =~= members_of(entries@));
            close_json(node)
        },
    }
}

/// What reading `text` gives, said of each outcome of the parser: the
/// document that it read, or the error where it refused the text.
pub open spec fn reading(parsed: Option<TreeModel>, r: Result<ValueTree, ConfError>) -> bool {
    match parsed {
        Some(document) => r is Ok && r->Ok_0@ == document,
        None => r == Err::<ValueTree, ConfError>(ConfError::Parse),
    }
}

/// Reads a JSON document from `text`.
pub fn parse_tree(text: &str) -> (r: Result<ValueTree, ConfError>)
    ensures
        reading(parsed_text(text@), r),
        r is Ok ==> r->Ok_0@.wf(),
{
    match parse_json(text) {
        Ok(value) => Ok(from_json(&value)),
        Err(_) => Err(ConfError::Parse),
    }
}

/// What rendering a document gives, said of each outcome of the renderer:
/// the text that it wrote, or the error where it failed.
pub open spec fn rendering(rendered: Option<Seq<char>>, r: Result<String, ConfError>) -> bool {
    match rendered {
        Some(text) => r is Ok && r->Ok_0@ == text,
        None => r == Err::<String, ConfError>(ConfError::Serialize),
    }
}

/// Renders a tree as indented JSON text.
pub fn render_tree(tree: &ValueTree) -> (r: Result<String, ConfError>)
    requires
        tree@.wf(),
    ensures
        rendering(pretty_text(tree@), r),
{
    let value = to_json(tree);
    match render_json(&value) {
        Ok(text) => Ok(text),
        Err(_) => Err(ConfError::Serialize),
    }
}

} // verus!
