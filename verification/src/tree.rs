//! The value tree and the key-based operations on its nodes.

use vstd::prelude::*;
use crate::model::{
    extended, first_at, has_key, lemma_lookup_wf, lemma_merged_wf, lemma_position_unique,
    lemma_with_member_lookup, lemma_with_member_wf, lemma_without_lookup, lemma_without_wf,
    position, TreeModel,
};

verus! {

/// `serde_json::Number`, carried through as it is: nothing is said of what a
/// number holds.
#[verifier::external_type_specification]
#[verifier::external_body]
pub struct ExNumber(serde_json::Number);

/// `str`'s `==` from std: two string slices are equal exactly when they hold
/// the same characters.
pub assume_specification[ <str as PartialEq>::eq ](a: &str, b: &str) -> (r: bool)
    ensures
        r == (a@ == b@),
;

/// `Clone` for `serde_json::Number`: the copy is the same number.
pub assume_specification[ <serde_json::Number as Clone>::clone ](n: &serde_json::Number) -> (r:
    serde_json::Number)
    ensures
        r == *n,
;

/// One member of an object: a key and the value stored under it.
#[derive(Debug, PartialEq)]
pub struct Entry {
    pub key: String,
    pub value: ValueTree,
}

/// A node of a value tree.
#[derive(Debug, PartialEq)]
pub enum ValueTree {
    Null,
    Bool(bool),
    Number(serde_json::Number),
    String(String),
    Array(Vec<ValueTree>),
    Object(Vec<Entry>),
}

/// What each of a vector of nodes stands for.
pub open spec fn models_of(items: Seq<ValueTree>) -> Seq<TreeModel> {
    Seq::new(items.len(), |i: int| items[i]@)
}

/// The members that a vector of entries stands for.
pub open spec fn members_of(entries: Seq<Entry>) -> Seq<(Seq<char>, TreeModel)> {
    Seq::new(entries.len(), |i: int| (entries[i].key@, entries[i].value@))
}

/// Looks for the first entry stored under `key`.
fn find(entries: &Vec<Entry>, key: &str) -> (r: Option<usize>)
    ensures
        match r {
            Some(i) => first_at(members_of(entries@), key@, i as int)
                && position(members_of(entries@), key@) == i,
            None => !has_key(members_of(entries@), key@),
        },
{
    let mut i: usize = 0;
    while i < entries.len()
        invariant
            i <= entries@.len(),
            forall|j: int| 0 <= j < i ==> (#[trigger] members_of(entries@)[j]).0 != key@,
        decreases entries@.len() - i,
    {
        if entries[i].key.as_str().eq(key) {
            proof {
                lemma_position_unique(members_of(entries@), key@, i as int);
            }
            return Some(i);
        }
        i += 1;
    }
    None
}

impl ValueTree {
    /// What the node stands for.
    pub open spec fn model(self) -> TreeModel
        decreases self,
    {
        match self {
            ValueTree::Null => TreeModel::Null,
            ValueTree::Bool(b) => TreeModel::Bool(b),
            ValueTree::Number(n) => TreeModel::Number(n),
            ValueTree::String(s) => TreeModel::Text(s@),
            ValueTree::Array(items) => TreeModel::Array(
                Seq::new(
                    items@.len(),
                    |i: int|
                        if 0 <= i < items@.len() {
                            items@[i].model()
                        } else {
                            TreeModel::Null
                        },
                ),
            ),
            ValueTree::Object(entries) => TreeModel::Object(
                Seq::new(
                    entries@.len(),
                    |i: int|
                        if 0 <= i < entries@.len() {
                            (entries@[i].key@, entries@[i].value.model())
                        } else {
                            (Seq::empty(), TreeModel::Null)
                        },
                ),
            ),
        }
    }
}

impl View for ValueTree {
    type V = TreeModel;

    open spec fn view(&self) -> TreeModel {
        self.model()
    }
}

impl ValueTree {
    /// An object without members.
    pub fn new_object() -> (r: ValueTree)
        ensures
            r@ == TreeModel::Object(Seq::empty()),
            r@.wf(),
    {
        let r = ValueTree::Object(Vec::new());
        assert(r@.members() =~= Seq::empty());
        r
    }

    /// For an object, the view holds the members that its entries stand for.
    pub proof fn lemma_view_members(self)
        ensures
            self matches ValueTree::Object(entries) ==> self@ == TreeModel::Object(
                members_of(entries@),
            ),
            self matches ValueTree::Array(items) ==> self@ == TreeModel::Array(models_of(items@)),
            self@ is Object <==> self is Object,
    {
        match self {
            ValueTree::Object(entries) => {
                assert(self@.members() =~= members_of(entries@));
            },
            ValueTree::Array(items) => {
                assert(self@->Array_0 =~= models_of(items@));
            },
            _ => {},
        }
    }

    /// A copy of the whole tree below this node.
    pub fn duplicate(&self) -> (r: ValueTree)
        ensures
            r@ == self@,
        decreases self,
    {
        proof {
            self.lemma_view_members();
        }
        let r = match self {
            ValueTree::Null => ValueTree::Null,
            ValueTree::Bool(b) => ValueTree::Bool(*b),
            ValueTree::Number(n) => ValueTree::Number(n.clone()),
            ValueTree::String(s) => ValueTree::String(s.clone()),
            ValueTree::Array(items) => {
                let mut copies: Vec<ValueTree> = Vec::new();
                let mut i: usize = 0;
                while i < items.len()
                    invariant
                        i <= items@.len(),
                        self is Array,
                        self->Array_0 == *items,
                        copies@.len() == i,
                        forall|j: int| 0 <= j < i ==> (#[trigger] copies@[j])@ == items@[j]@,
                    decreases items@.len() - i,
                {
                    assert(decreases_to!(self => items@[i as int]));
                    let copy = items[i].duplicate();
                    copies.push(copy);
                    i += 1;
                }
                assert(models_of(copies@) =~= models_of(items@));
                ValueTree::Array(copies)
            },
            ValueTree::Object(entries) => {
                let mut copies: Vec<Entry> = Vec::new();
                let mut i: usize = 0;
                while i < entries.len()
                    invariant
                        i <= entries@.len(),
                        self is Object,
                        self->Object_0 == *entries,
                        copies@.len() == i,
                        forall|j: int|
                            0 <= j < i ==> (#[trigger] copies@[j]).key@ == entries@[j].key@
                                && copies@[j].value@ == entries@[j].value@,
                    decreases entries@.len() - i,
                {
                    assert(decreases_to!(self => entries@[i as int].value));
                    let key = entries[i].key.clone();
                    let value = entries[i].value.duplicate();
                    copies.push(Entry { key, value });
                    i += 1;
                }
                assert(members_of(copies@) =~= members_of(entries@));
                ValueTree::Object(copies)
            },
        };
        proof {
            r.lemma_view_members();
        }
        r
    }

    /// The keys of an object that has members, in their order; `None` for an
    /// object without members and for any other node.
    pub fn list_keys(&self) -> (r: Option<Vec<String>>)
        ensures
            match r {
                Some(keys) => self@.members().len() > 0 && keys.deep_view() == self@.keys(),
                None => self@.members().len() == 0,
            },
    {
        proof {
            self.lemma_view_members();
        }
        match self {
            ValueTree::Object(entries) => {
                if entries.len() == 0 {
                    return None;
                }
                let mut keys: Vec<String> = Vec::new();
                let mut i: usize = 0;
                while i < entries.len()
                    invariant
                        i <= entries@.len(),
                        keys@.len() == i,
                        forall|j: int| 0 <= j < i ==> (#[trigger] keys@[j])@ == entries@[j].key@,
                    decreases entries@.len() - i,
                {
                    keys.push(entries[i].key.clone());
                    i += 1;
                }
                assert(keys.deep_view() =~= self@.keys());
                Some(keys)
            },
            _ => None,
        }
    }

    /// Copies of the values of an object that has members, in their order;
    /// `None` for an object without members and for any other node.
    pub fn list_values(&self) -> (r: Option<Vec<ValueTree>>)
        ensures
            match r {
                Some(values) => self@.members().len() > 0 && models_of(values@) == self@.values(),
                None => self@.members().len() == 0,
            },
    {
        proof {
            self.lemma_view_members();
        }
        match self {
            ValueTree::Object(entries) => {
                if entries.len() == 0 {
                    return None;
                }
                let mut values: Vec<ValueTree> = Vec::new();
                let mut i: usize = 0;
                while i < entries.len()
                    invariant
                        i <= entries@.len(),
                        values@.len() == i,
                        forall|j: int| 0 <= j < i ==> (#[trigger] values@[j])@ == entries@[j].value@,
                    decreases entries@.len() - i,
                {
                    values.push(entries[i].value.duplicate());
                    i += 1;
                }
                assert(models_of(values@) =~= self@.values());
                Some(values)
            },
            _ => None,
        }
    }

    /// Whether the node is an object.
    pub fn is_object(&self) -> (r: bool)
        ensures
            r == (self@ is Object),
    {
        match self {
            ValueTree::Object(_) => true,
            _ => false,
        }
    }

    /// The entries of an object; `None` for any other node.
    pub fn as_object(&self) -> (r: Option<&Vec<Entry>>)
        ensures
            match r {
                Some(entries) => self@ == TreeModel::Object(members_of(entries@)),
                None => !(self@ is Object),
            },
    {
        proof {
            self.lemma_view_members();
        }
        match self {
            ValueTree::Object(entries) => Some(entries),
            _ => None,
        }
    }

    /// The entries of an object, to be changed in place; `None` for any other
    /// node. The node is well formed afterwards where the entries are left
    /// with distinct keys and well-formed values.
    pub fn as_object_mut(&mut self) -> (r: Option<&mut Vec<Entry>>)
        ensures
            match r {
                Some(entries) => old(self)@ == TreeModel::Object(members_of(entries@))
                    && final(self)@ == TreeModel::Object(members_of(final(entries)@)),
                None => !(old(self)@ is Object) && final(self)@ == old(self)@,
            },
    {
        proof {
            self.lemma_view_members();
        }
        let ghost after = *final(self);
        match self {
            ValueTree::Object(entries) => {
                proof {
                    after.lemma_view_members();
                }
                Some(entries)
            },
            _ => None,
        }
    }

    /// Whether every object in the tree keeps each key once.
    pub fn is_well_formed(&self) -> (r: bool)
        ensures
            r == self@.wf(),
        decreases self,
    {
        proof {
            self.lemma_view_members();
        }
        match self {
            ValueTree::Array(items) => {
                let mut i: usize = 0;
                while i < items.len()
                    invariant
                        i <= items@.len(),
                        self->Array_0 == *items,
                        self@ == TreeModel::Array(models_of(items@)),
                        forall|a: int| 0 <= a < i ==> (#[trigger] models_of(items@)[a]).wf(),
                    decreases items@.len() - i,
                {
                    if !items[i].is_well_formed() {
                        assert(!self@->Array_0[i as int].wf());
                        return false;
                    }
                    i += 1;
                }
                true
            },
            ValueTree::Object(entries) => {
                let mut i: usize = 0;
                while i < entries.len()
                    invariant
                        i <= entries@.len(),
                        self->Object_0 == *entries,
                        self@ == TreeModel::Object(members_of(entries@)),
                        forall|a: int| 0 <= a < i ==> (#[trigger] members_of(entries@)[a]).1.wf(),
                        forall|a: int, b: int|
                            0 <= a < b < i ==> (#[trigger] members_of(entries@)[a]).0 != (
                            #[trigger] members_of(entries@)[b]).0,
                    decreases entries@.len() - i,
                {
                    if !entries[i].value.is_well_formed() {
                        assert(!self@->Object_0[i as int].1.wf());
                        return false;
                    }
                    let mut j: usize = 0;
                    while j < i
                        invariant
                            j <= i < entries@.len(),
                            self@ == TreeModel::Object(members_of(entries@)),
                            forall|a: int|
                                0 <= a < j ==> (#[trigger] members_of(entries@)[a]).0
                                    != members_of(entries@)[i as int].0,
                        decreases i - j,
                    {
                        if entries[j].key == entries[i].key {
                            assert(self@->Object_0[j as int].0 == self@->Object_0[i as int].0);
                            return false;
                        }
                        j += 1;
                    }
                    i += 1;
                }
                true
            },
            _ => true,
        }
    }

    /// Whether the node is an object with at least one member.
    pub fn any_keys(&self) -> (r: bool)
        ensures
            r == (self@.members().len() > 0),
    {
        match self {
            ValueTree::Object(entries) => entries.len() > 0,
            _ => false,
        }
    }

    /// Whether the node is an object with a member under `key`.
    pub fn has(&self, key: &str) -> (r: bool)
        ensures
            r == self@.has(key@),
    {
        proof {
            self.lemma_view_members();
        }
        match self {
            ValueTree::Object(entries) => find(entries, key).is_some(),
            _ => false,
        }
    }

    /// The value stored under `key`, where the node is an object that has one.
    /// Nothing is created.
    pub fn get(&self, key: &str) -> (r: Option<&ValueTree>)
        ensures
            self@.lookup(key@) == match r {
                Some(child) => Some(child@),
                None => None,
            },
            self@.wf() && r.is_some() ==> r.unwrap()@.wf(),
    {
        proof {
            self.lemma_view_members();
            if self@.wf() && self@.has(key@) {
                lemma_lookup_wf(self@, key@);
            }
        }
        match self {
            ValueTree::Object(entries) => match find(entries, key) {
                Some(i) => Some(&entries[i].value),
                None => None,
            },
            _ => None,
        }
    }

    /// Stores `value` under `key`: in place of the value that was there, or as
    /// a new last member. A node that is no object is left as it is.
    pub fn set(&mut self, key: String, value: ValueTree)
        ensures
            final(self)@ == old(self)@.with_member(key@, value@),
            old(self)@ is Object ==> final(self)@.lookup(key@) == Some(value@),
            old(self)@.wf() && value@.wf() ==> final(self)@.wf(),
    {
        proof {
            self.lemma_view_members();
            lemma_with_member_wf(self@, key@, value@);
            if self@ is Object {
                lemma_with_member_lookup(self@, key@, value@, key@);
            }
        }
        match self {
            ValueTree::Object(entries) => {
                let ghost before = entries@;
                match find(entries, key.as_str()) {
                    Some(i) => {
                        entries[i].value = value;
                        assert(members_of(entries@) =~= members_of(before).update(
                            i as int,
                            (key@, value@),
                        ));
                    },
                    None => {
                        entries.push(Entry { key, value });
                        assert(members_of(entries@) =~= members_of(before).push((key@, value@)));
                    },
                }
            },
            _ => {},
        }
        proof {
            self.lemma_view_members();
        }
    }

    /// Takes the member under `key` out of the node and hands its value back.
    /// Where there is none, nothing changes.
    pub fn remove(&mut self, key: &str) -> (r: Option<ValueTree>)
        ensures
            final(self)@ == old(self)@.without(key@),
            old(self)@.lookup(key@) == match r {
                Some(child) => Some(child@),
                None => None,
            },
            old(self)@.wf() ==> final(self)@.wf() && !final(self)@.has(key@) && (r.is_some()
                ==> r.unwrap()@.wf()),
    {
        proof {
            self.lemma_view_members();
            if self@.wf() {
                lemma_without_wf(self@, key@);
                lemma_without_lookup(self@, key@, key@);
                if self@.has(key@) {
                    lemma_lookup_wf(self@, key@);
                }
            }
        }
        let r = match self {
            ValueTree::Object(entries) => {
                let ghost before = entries@;
                match find(entries, key) {
                    Some(i) => {
                        let entry = entries.remove(i);
                        assert(members_of(entries@) =~= members_of(before).remove(i as int));
                        Some(entry.value)
                    },
                    None => None,
                }
            },
            _ => None,
        };
        proof {
            self.lemma_view_members();
        }
        r
    }

    /// The value stored under `key`, to be changed in place. Nothing is
    /// created.
    pub fn get_mut(&mut self, key: &str) -> (r: Option<&mut ValueTree>)
        ensures
            match r {
                Some(child) => old(self)@.lookup(key@) == Some(child@) && final(self)@ == old(
                    self,
                )@.with_member(key@, final(child)@),
                None => old(self)@.lookup(key@).is_none() && final(self)@ == old(self)@,
            },
            old(self)@.wf() && r.is_some() ==> r.unwrap()@.wf() && (final(r.unwrap())@.wf()
                ==> final(self)@.wf()),
    {
        proof {
            self.lemma_view_members();
        }
        let ghost after = *final(self);
        match self {
            ValueTree::Object(entries) => match find(entries, key) {
                Some(i) => {
                    let ghost before = entries@;
                    let ghost entries_after = *final(entries);
                    let child = &mut entries[i].value;
                    proof {
                        after.lemma_view_members();
                        assert(members_of(entries_after@) =~= members_of(before).update(
                            i as int,
                            (key@, final(child)@),
                        ));
                        if old(self)@.wf() {
                            lemma_lookup_wf(old(self)@, key@);
                        }
                        lemma_with_member_wf(old(self)@, key@, final(child)@);
                    }
                    Some(child)
                },
                None => None,
            },
            _ => None,
        }
    }

    /// Stores an object without members under `key`, in place of whatever was
    /// there, and hands it out to be filled. A node that is no object is left
    /// as it is.
    pub fn new_child_object(&mut self, key: String) -> (r: Option<&mut ValueTree>)
        ensures
            match r {
                Some(child) => old(self)@ is Object && child@ == TreeModel::Object(Seq::empty())
                    && final(self)@ == old(self)@.with_member(key@, final(child)@),
                None => !(old(self)@ is Object) && final(self)@ == old(self)@,
            },
            old(self)@.wf() && r.is_some() && final(r.unwrap())@.wf() ==> final(self)@.wf(),
    {
        proof {
            self.lemma_view_members();
        }
        let ghost after = *final(self);
        match self {
            ValueTree::Object(entries) => {
                let ghost before = entries@;
                let ghost entries_after = *final(entries);
                let fresh = ValueTree::new_object();
                let i: usize = match find(entries, key.as_str()) {
                    Some(i) => {
                        entries[i].value = fresh;
                        i
                    },
                    None => {
                        entries.push(Entry { key, value: fresh });
                        entries.len() - 1
                    },
                };
                let child = &mut entries[i].value;
                proof {
                    after.lemma_view_members();
                    lemma_with_member_wf(old(self)@, key@, final(child)@);
                    if has_key(members_of(before), key@) {
                        assert(members_of(entries_after@) =~= members_of(before).update(
                            i as int,
                            (key@, final(child)@),
                        ));
                    } else {
                        assert(members_of(entries_after@) =~= members_of(before).push(
                            (key@, final(child)@),
                        ));
                    }
                }
                Some(child)
            },
            _ => None,
        }
    }

    /// Merges `incoming` into the node under `key`.
    ///
    /// Nothing happens unless `incoming` is an object with at least one member.
    /// Where the node has at least one member and has one under `key`, copies
    /// of the members of `incoming` are stored in that member's value one by
    /// one, first to last, each in place of what its key held there; the merge
    /// goes one level deep, and a value that is no object stays as it is.
    /// Otherwise a copy of `incoming` is stored under `key`.
    pub fn merge_object(&mut self, key: &str, incoming: &ValueTree)
        ensures
            final(self)@ == old(self)@.merged(key@, incoming@),
            incoming@.members().len() == 0 ==> final(self)@ == old(self)@,
            old(self)@.wf() && incoming@.wf() ==> final(self)@.wf(),
    {
        proof {
            incoming.lemma_view_members();
            if self@.wf() && incoming@.wf() {
                lemma_merged_wf(self@, key@, incoming@);
            }
        }
        match incoming {
            ValueTree::Object(items) => {
                if items.len() == 0 {
                    return ;
                }
                if self.has(key) && self.any_keys() {
                    match self.get_mut(key) {
                        Some(child) => store_all(child, items),
                        None => {},
                    }
                } else {
                    self.set(key.to_owned(), incoming.duplicate());
                }
            },
            _ => {},
        }
    }
}

/// Stores a copy of each of `items` in `target`, first to last.
fn store_all(target: &mut ValueTree, items: &Vec<Entry>)
    ensures
        final(target)@ == extended(old(target)@, members_of(items@)),
{
    let mut i: usize = 0;
    while i < items.len()
        invariant
            i <= items@.len(),
            target@ == extended(old(target)@, members_of(items@).subrange(0, i as int)),
        decreases items@.len() - i,
    {
        target.set(items[i].key.clone(), items[i].value.duplicate());
        i += 1;
        assert(members_of(items@).subrange(0, i as int).drop_last() =~= members_of(
            items@,
        ).subrange(0, i - 1));
    }
    assert(members_of(items@).subrange(0, i as int) =~= members_of(items@));
}

} // verus!
