//! What holds of the operations on a value tree, whatever the tree.

use vstd::prelude::*;
use crate::model::{
    extended, lemma_extended_lookup, lemma_extended_shape, lemma_has_position,
    lemma_with_member_lookup, lemma_without_lookup, position, TreeModel,
};

verus! {

/// A value stored in an object under a key is what that key gives afterwards,
/// and the object then has the key.
pub proof fn law_set_then_get(node: TreeModel, key: Seq<char>, value: TreeModel)
    requires
        node is Object,
    ensures
        node.with_member(key, value).lookup(key) == Some(value),
        node.with_member(key, value).has(key),
{
    lemma_with_member_lookup(node, key, value, key);
}

/// Storing a value under one key changes what no other key gives.
pub proof fn law_set_keeps_others(
    node: TreeModel,
    key: Seq<char>,
    value: TreeModel,
    other: Seq<char>,
)
    requires
        other != key,
    ensures
        node.with_member(key, value).lookup(other) == node.lookup(other),
{
    if node is Object {
        lemma_with_member_lookup(node, key, value, other);
    }
}

/// After a key has been removed from a node, the node does not have it, and
/// every other key gives what it gave before.
pub proof fn law_remove_then_has(node: TreeModel, key: Seq<char>, other: Seq<char>)
    requires
        node.wf(),
    ensures
        !node.without(key).has(key),
        node.without(key).lookup(key).is_none(),
        other != key ==> node.without(key).lookup(other) == node.lookup(other),
{
    lemma_without_lookup(node, key, other);
}

/// Storing the same value under the same key a second time changes nothing.
pub proof fn law_set_twice(node: TreeModel, key: Seq<char>, value: TreeModel)
    ensures
        node.with_member(key, value).with_member(key, value) == node.with_member(key, value),
{
    if node is Object {
        let once = node.with_member(key, value);
        lemma_with_member_lookup(node, key, value, key);
        lemma_has_position(once, key);
        let p = position(once.members(), key);
        assert(once.members().update(p, (key, value)) =~= once.members());
    }
}

/// Merging in a node that is no object, or an object without members, changes
/// nothing: the node has members as before, and each key gives what it gave.
pub proof fn law_merge_nothing(
    node: TreeModel,
    key: Seq<char>,
    incoming: TreeModel,
    other: Seq<char>,
)
    requires
        incoming.members().len() == 0,
    ensures
        node.merged(key, incoming) == node,
        node.merged(key, incoming).members().len() > 0 <==> node.members().len() > 0,
        node.merged(key, incoming).lookup(other) == node.lookup(other),
{
}

/// Merging an object with members into a node that holds an object under the
/// key: the value under the key then has the keys that it had and those that
/// came in, and nothing else; a key that came in gives the value that came
/// with it, and any other key gives what it gave before.
pub proof fn law_merge_union(
    node: TreeModel,
    key: Seq<char>,
    incoming: TreeModel,
    inner: Seq<char>,
)
    requires
        node.has(key),
        node.lookup(key).unwrap() is Object,
        incoming.wf(),
        incoming.members().len() > 0,
    ensures
        node.merged(key, incoming).lookup(key) is Some,
        ({
            let before = node.lookup(key).unwrap();
            let after = node.merged(key, incoming).lookup(key).unwrap();
            &&& after.has(inner) <==> before.has(inner) || incoming.has(inner)
            &&& incoming.has(inner) ==> after.lookup(inner) == incoming.lookup(inner)
            &&& !incoming.has(inner) ==> after.lookup(inner) == before.lookup(inner)
        }),
{
    lemma_has_position(node, key);
    let before = node.lookup(key).unwrap();
    let grown = extended(before, incoming.members());
    lemma_with_member_lookup(node, key, grown, key);
    lemma_extended_lookup(before, incoming.members(), inner);
    lemma_extended_shape(before, incoming.members());
    assert(incoming == TreeModel::Object(incoming.members()));
    if incoming.has(inner) {
        lemma_has_position(incoming, inner);
    }
    if before.has(inner) {
        lemma_has_position(before, inner);
    }
}

/// Merging under a key whose value is no object leaves that value as it is.
pub proof fn law_merge_keeps_scalar(node: TreeModel, key: Seq<char>, incoming: TreeModel)
    requires
        node.has(key),
        !(node.lookup(key).unwrap() is Object),
    ensures
        node.merged(key, incoming).lookup(key) == node.lookup(key),
{
    lemma_has_position(node, key);
    let before = node.lookup(key).unwrap();
    lemma_extended_shape(before, incoming.members());
    lemma_with_member_lookup(node, key, before, key);
}

/// Merging under a key that the node does not have stores what came in under
/// that key.
pub proof fn law_merge_new_key(node: TreeModel, key: Seq<char>, incoming: TreeModel)
    requires
        node is Object,
        !node.has(key),
        incoming.members().len() > 0,
    ensures
        node.merged(key, incoming).lookup(key) == Some(incoming),
{
    lemma_with_member_lookup(node, key, incoming, key);
}

} // verus!
