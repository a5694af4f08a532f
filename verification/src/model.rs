//! The mathematical model of a value tree and of the operations on it.

use vstd::prelude::*;

verus! {

/// What a value tree is: a scalar, a sequence of trees, or the members of an
/// object in the order in which they are kept.
pub enum TreeModel {
    Null,
    Bool(bool),
    Number(serde_json::Number),
    Text(Seq<char>),
    Array(Seq<TreeModel>),
    Object(Seq<(Seq<char>, TreeModel)>),
}

/// Member `i` of `members` exists and is stored under `key`.
pub open spec fn key_at(members: Seq<(Seq<char>, TreeModel)>, key: Seq<char>, i: int) -> bool {
    0 <= i < members.len() && members[i].0 == key
}

/// Some member of `members` is stored under `key`.
pub open spec fn has_key(members: Seq<(Seq<char>, TreeModel)>, key: Seq<char>) -> bool {
    exists|i: int| key_at(members, key, i)
}

/// Member `i` of `members` is the first one stored under `key`.
pub open spec fn first_at(members: Seq<(Seq<char>, TreeModel)>, key: Seq<char>, i: int) -> bool {
    key_at(members, key, i) && forall|j: int| 0 <= j < i ==> (#[trigger] members[j]).0 != key
}

/// The place of the first member stored under `key`, where there is one.
pub open spec fn position(members: Seq<(Seq<char>, TreeModel)>, key: Seq<char>) -> int {
    choose|i: int| first_at(members, key, i)
}

/// No two members share a key.
pub open spec fn distinct_keys(members: Seq<(Seq<char>, TreeModel)>) -> bool {
    forall|i: int, j: int|
        0 <= i < j < members.len() ==> (#[trigger] members[i]).0 != (#[trigger] members[j]).0
}

/// `target` after each of `items` has been stored in it, first to last.
pub open spec fn extended(target: TreeModel, items: Seq<(Seq<char>, TreeModel)>) -> TreeModel
    decreases items.len(),
{
    if items.len() == 0 {
        target
    } else {
        extended(target, items.drop_last()).with_member(items.last().0, items.last().1)
    }
}

impl TreeModel {
    /// The members of an object; none for any other node.
    pub open spec fn members(self) -> Seq<(Seq<char>, TreeModel)> {
        match self {
            TreeModel::Object(members) => members,
            _ => Seq::empty(),
        }
    }

    /// The keys of an object, in the order of its members.
    pub open spec fn keys(self) -> Seq<Seq<char>> {
        Seq::new(self.members().len(), |i: int| self.members()[i].0)
    }

    /// The values of an object, in the order of its members.
    pub open spec fn values(self) -> Seq<TreeModel> {
        Seq::new(self.members().len(), |i: int| self.members()[i].1)
    }

    /// Every object in the tree keeps each key once.
    pub open spec fn wf(self) -> bool
        decreases self,
    {
        match self {
            TreeModel::Array(items) => forall|i: int|
                0 <= i < items.len() ==> (#[trigger] items[i]).wf(),
            TreeModel::Object(members) => distinct_keys(members) && forall|i: int|
                0 <= i < members.len() ==> (#[trigger] members[i]).1.wf(),
            _ => true,
        }
    }

    /// The node is an object with a member under `key`.
    pub open spec fn has(self, key: Seq<char>) -> bool {
        has_key(self.members(), key)
    }

    /// The value stored under `key`, where the node is an object that has one.
    pub open spec fn lookup(self, key: Seq<char>) -> Option<TreeModel> {
        if self.has(key) {
            Some(self.members()[position(self.members(), key)].1)
        } else {
            None
        }
    }

    /// The node with `value` stored under `key`: in place of the value that was
    /// there, or as a new last member. A node that is no object stays as it is.
    pub open spec fn with_member(self, key: Seq<char>, value: TreeModel) -> TreeModel {
        match self {
            TreeModel::Object(members) => if has_key(members, key) {
                TreeModel::Object(members.update(position(members, key), (key, value)))
            } else {
                TreeModel::Object(members.push((key, value)))
            },
            _ => self,
        }
    }

    /// The node without the member under `key`.
    pub open spec fn without(self, key: Seq<char>) -> TreeModel {
        match self {
            TreeModel::Object(members) => if has_key(members, key) {
                TreeModel::Object(members.remove(position(members, key)))
            } else {
                self
            },
            _ => self,
        }
    }

    /// The node after `incoming` has been merged in under `key`.
    ///
    /// Nothing changes unless `incoming` is an object with at least one member.
    /// Where the node has at least one member and has one under `key`, the
    /// members of `incoming` are stored in that member's value one by one,
    /// which changes nothing where that value is no object; otherwise
    /// `incoming` itself is stored under `key`.
    pub open spec fn merged(self, key: Seq<char>, incoming: TreeModel) -> TreeModel {
        if incoming.members().len() == 0 {
            self
        } else if self.has(key) && self.members().len() > 0 {
            self.with_member(key, extended(self.lookup(key).unwrap(), incoming.members()))
        } else {
            self.with_member(key, incoming)
        }
    }
}

/// The first member under a key is found at one place only.
pub proof fn lemma_position_unique(members: Seq<(Seq<char>, TreeModel)>, key: Seq<char>, i: int)
    requires
        first_at(members, key, i),
    ensures
        has_key(members, key),
        position(members, key) == i,
{
    let p = position(members, key);
    assert(first_at(members, key, p));
    assert(key_at(members, key, i));
    if p < i {
        assert(members[p].0 != key);
    } else if i < p {
        assert(members[i].0 != key);
    }
}

/// Where any member is stored under a key, one of them is the first.
pub proof fn lemma_position_exists(members: Seq<(Seq<char>, TreeModel)>, key: Seq<char>, i: int)
    requires
        key_at(members, key, i),
    ensures
        first_at(members, key, position(members, key)),
        position(members, key) <= i,
    decreases i,
{
    if forall|j: int| 0 <= j < i ==> (#[trigger] members[j]).0 != key {
        assert(first_at(members, key, i));
        lemma_position_unique(members, key, i);
    } else {
        let j = choose|j: int| 0 <= j < i && (#[trigger] members[j]).0 != key == false;
        assert(key_at(members, key, j));
        lemma_position_exists(members, key, j);
    }
}

/// A node that has a member under some key is an object, and the first such
/// member has a place among its members.
pub proof fn lemma_has_position(t: TreeModel, key: Seq<char>)
    requires
        t.has(key),
    ensures
        t is Object,
        first_at(t.members(), key, position(t.members(), key)),
{
    let i = choose|i: int| key_at(t.members(), key, i);
    lemma_position_exists(t.members(), key, i);
}

/// In a well-formed tree, what is stored under a key is well formed.
pub proof fn lemma_lookup_wf(t: TreeModel, key: Seq<char>)
    requires
        t.wf(),
        t.has(key),
    ensures
        t.lookup(key).unwrap().wf(),
{
    lemma_has_position(t, key);
    let p = position(t.members(), key);
    assert(t.members()[p].1.wf());
}

/// Storing a well-formed value in a well-formed tree leaves it well formed.
pub proof fn lemma_with_member_wf(t: TreeModel, key: Seq<char>, value: TreeModel)
    ensures
        t.wf() && value.wf() ==> t.with_member(key, value).wf(),
{
    if t.wf() && value.wf() {
        lemma_with_member_wf_inner(t, key, value);
    }
}

proof fn lemma_with_member_wf_inner(t: TreeModel, key: Seq<char>, value: TreeModel)
    requires
        t.wf(),
        value.wf(),
    ensures
        t.with_member(key, value).wf(),
{
    match t {
        TreeModel::Object(m) => {
            if has_key(m, key) {
                lemma_has_position(t, key);
                let p = position(m, key);
                let m2 = m.update(p, (key, value));
                assert forall|a: int, b: int| 0 <= a < b < m2.len() implies (#[trigger] m2[a]).0
                    != (#[trigger] m2[b]).0 by {
                    assert(m[a].0 != m[b].0);
                }
                assert forall|a: int| 0 <= a < m2.len() implies (#[trigger] m2[a]).1.wf() by {
                    if a != p {
                        assert(m[a].1.wf());
                    }
                }
            } else {
                let m2 = m.push((key, value));
                assert forall|a: int, b: int| 0 <= a < b < m2.len() implies (#[trigger] m2[a]).0
                    != (#[trigger] m2[b]).0 by {
                    if b == m.len() {
                        assert(!key_at(m, key, a));
                    } else {
                        assert(m[a].0 != m[b].0);
                    }
                }
                assert forall|a: int| 0 <= a < m2.len() implies (#[trigger] m2[a]).1.wf() by {
                    if a < m.len() {
                        assert(m[a].1.wf());
                    }
                }
            }
        },
        _ => {},
    }
}

/// Taking a member out of a well-formed tree leaves it well formed.
pub proof fn lemma_without_wf(t: TreeModel, key: Seq<char>)
    requires
        t.wf(),
    ensures
        t.without(key).wf(),
{
    if t.has(key) {
        lemma_has_position(t, key);
        let m = t.members();
        let p = position(m, key);
        let m2 = m.remove(p);
        assert forall|a: int, b: int| 0 <= a < b < m2.len() implies (#[trigger] m2[a]).0
            != (#[trigger] m2[b]).0 by {
            let a1 = if a < p { a } else { a + 1 };
            let b1 = if b < p { b } else { b + 1 };
            assert(m[a1].0 != m[b1].0);
        }
        assert forall|a: int| 0 <= a < m2.len() implies (#[trigger] m2[a]).1.wf() by {
            let a1 = if a < p { a } else { a + 1 };
            assert(m[a1].1.wf());
        }
    }
}

/// After a value has been stored under a key in an object, that key gives the
/// value, and every other key gives what it gave before.
pub proof fn lemma_with_member_lookup(
    t: TreeModel,
    key: Seq<char>,
    value: TreeModel,
    other: Seq<char>,
)
    requires
        t is Object,
    ensures
        t.with_member(key, value) is Object,
        t.with_member(key, value).lookup(key) == Some(value),
        other != key ==> t.with_member(key, value).lookup(other) == t.lookup(other),
{
    let m = t.members();
    let m2 = t.with_member(key, value).members();
    let p = if has_key(m, key) { position(m, key) } else { m.len() as int };
    if has_key(m, key) {
        lemma_has_position(t, key);
    }
    assert(m2.len() > p && m2[p] == (key, value));
    assert forall|j: int| 0 <= j < m2.len() && j != p implies j < m.len() && #[trigger] m2[j]
        == m[j] by {
        if !has_key(m, key) {
            assert(j < m.len());
        }
    }
    assert forall|j: int| 0 <= j < p implies (#[trigger] m2[j]).0 != key by {
        if has_key(m, key) {
            assert(m[j].0 != key);
        } else {
            assert(!key_at(m, key, j));
        }
    }
    lemma_position_unique(m2, key, p);
    if other != key {
        if has_key(m, other) {
            lemma_has_position(t, other);
            let q = position(m, other);
            assert(q != p);
            assert(m2[q] == m[q]);
            assert forall|j: int| 0 <= j < q implies (#[trigger] m2[j]).0 != other by {
                if j != p {
                    assert(m[j].0 != other);
                }
            }
            lemma_position_unique(m2, other, q);
        } else {
            assert forall|j: int| !key_at(m2, other, j) by {
                if 0 <= j < m2.len() && j != p {
                    assert(!key_at(m, other, j));
                }
            }
        }
    }
}

/// After the member under a key has been taken out of a well-formed object,
/// that key gives nothing, and every other key gives what it gave before.
pub proof fn lemma_without_lookup(t: TreeModel, key: Seq<char>, other: Seq<char>)
    requires
        t.wf(),
    ensures
        !t.without(key).has(key),
        other != key ==> t.without(key).lookup(other) == t.lookup(other),
{
    if t.has(key) {
        lemma_has_position(t, key);
        let m = t.members();
        let p = position(m, key);
        let m2 = m.remove(p);
        assert(t.without(key).members() == m2);
        assert forall|j: int| !key_at(m2, key, j) by {
            if 0 <= j < m2.len() {
                if j < p {
                    assert(m[j].0 != key);
                } else {
                    assert(m[p].0 != m[j + 1].0);
                }
            }
        }
        if other != key {
            if has_key(m, other) {
                lemma_has_position(t, other);
                let q = position(m, other);
                assert(q != p);
                let q2 = if q < p { q } else { q - 1 };
                assert(m2[q2] == m[q]);
                assert forall|j: int| 0 <= j < q2 implies (#[trigger] m2[j]).0 != other by {
                    let j1 = if j < p { j } else { j + 1 };
                    assert(m[j1].0 != other);
                }
                lemma_position_unique(m2, other, q2);
            } else {
                assert forall|j: int| !key_at(m2, other, j) by {
                    if 0 <= j < m2.len() {
                        let j1 = if j < p { j } else { j + 1 };
                        assert(!key_at(m, other, j1));
                    }
                }
            }
        }
    }
}

/// Storing members in a node that is no object changes nothing; storing them
/// in an object gives an object. Where the node and the members are well
/// formed, so is the result.
pub proof fn lemma_extended_shape(target: TreeModel, items: Seq<(Seq<char>, TreeModel)>)
    ensures
        extended(target, items) is Object <==> target is Object,
        !(target is Object) ==> extended(target, items) == target,
        target.wf() && TreeModel::Object(items).wf() ==> extended(target, items).wf(),
    decreases items.len(),
{
    if items.len() > 0 {
        let rest = items.drop_last();
        lemma_extended_shape(target, rest);
        if target.wf() && TreeModel::Object(items).wf() {
            assert forall|a: int, b: int| 0 <= a < b < rest.len() implies (#[trigger] rest[a]).0
                != (#[trigger] rest[b]).0 by {
                assert(items[a].0 != items[b].0);
            }
            assert forall|a: int| 0 <= a < rest.len() implies (#[trigger] rest[a]).1.wf() by {
                assert(items[a].1.wf());
            }
            assert(TreeModel::Object(rest).wf());
            assert(items[items.len() - 1].1.wf());
            lemma_with_member_wf(extended(target, rest), items.last().0, items.last().1);
        }
    }
}

/// After members with distinct keys have been stored in an object, each of
/// their keys gives the value that came with it, and every other key gives
/// what it gave before.
pub proof fn lemma_extended_lookup(
    target: TreeModel,
    items: Seq<(Seq<char>, TreeModel)>,
    key: Seq<char>,
)
    requires
        target is Object,
        distinct_keys(items),
    ensures
        extended(target, items).lookup(key) == if has_key(items, key) {
            TreeModel::Object(items).lookup(key)
        } else {
            target.lookup(key)
        },
    decreases items.len(),
{
    if items.len() == 0 {
        assert forall|j: int| !key_at(items, key, j) by {}
    } else {
        let rest = items.drop_last();
        let n = items.len() - 1;
        let before = extended(target, rest);
        assert forall|a: int, b: int| 0 <= a < b < rest.len() implies (#[trigger] rest[a]).0
            != (#[trigger] rest[b]).0 by {
            assert(items[a].0 != items[b].0);
        }
        lemma_extended_lookup(target, rest, key);
        lemma_extended_shape(target, rest);
        lemma_with_member_lookup(before, items[n].0, items[n].1, key);
        if key == items[n].0 {
            assert forall|j: int| 0 <= j < n implies (#[trigger] items[j]).0 != key by {
                assert(items[j].0 != items[n].0);
            }
            lemma_position_unique(items, key, n);
        } else {
            if has_key(rest, key) {
                lemma_has_position(TreeModel::Object(rest), key);
                let q = position(rest, key);
                assert(items[q] == rest[q]);
                assert forall|j: int| 0 <= j < q implies (#[trigger] items[j]).0 != key by {
                    assert(rest[j].0 != key);
                }
                lemma_position_unique(items, key, q);
            } else {
                assert forall|j: int| !key_at(items, key, j) by {
                    if 0 <= j < n {
                        assert(!key_at(rest, key, j));
                    }
                }
            }
        }
    }
}

/// Merging into a well-formed tree what is well formed leaves it well formed.
pub proof fn lemma_merged_wf(t: TreeModel, key: Seq<char>, incoming: TreeModel)
    requires
        t.wf(),
        incoming.wf(),
    ensures
        t.merged(key, incoming).wf(),
{
    if incoming.members().len() > 0 {
        if t.has(key) {
            lemma_lookup_wf(t, key);
            lemma_extended_shape(t.lookup(key).unwrap(), incoming.members());
            lemma_with_member_wf(
                t,
                key,
                extended(t.lookup(key).unwrap(), incoming.members()),
            );
        } else {
            lemma_with_member_wf(t, key, incoming);
        }
    }
}

} // verus!
