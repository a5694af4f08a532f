//! The configuration store: one value tree and the place where it is kept.

use vstd::prelude::*;
use std::path::PathBuf;
use crate::json::{parse_tree, parsed_text, pretty_text, render_tree, rendering, ConfError};
use crate::model::TreeModel;
use crate::tree::ValueTree;

verus! {

/// `std::path::PathBuf`, carried through as it is: the store never looks
/// inside a path.
#[verifier::external_type_specification]
#[verifier::external_body]
pub struct ExPathBuf(PathBuf);

/// `Clone` for `PathBuf`: the copy is the same path.
pub assume_specification[ <PathBuf as Clone>::clone ](path: &PathBuf) -> (r: PathBuf)
    ensures
        r == *path,
;

/// A configuration held in memory, with the path of the file that it is
/// loaded from and saved to.
///
/// The store reads and writes no file itself. Its caller reads the file and
/// hands the contents to `load_or_default` or `reload`, and writes to the file
/// the text that `save` returns.
#[derive(Debug)]
pub struct Conf {
    live_config: ValueTree,
    location: PathBuf,
}

/// The store that loading gives for each outcome of reading the file: the
/// document read from its contents, or an object without members where there
/// was no file to read.
pub open spec fn loaded(contents: Option<Seq<char>>, path: PathBuf, r: Result<Conf, ConfError>)
    -> bool {
    match contents {
        None => r is Ok && r->Ok_0.root() == TreeModel::Object(Seq::empty())
            && r->Ok_0.path() == path,
        Some(text) => match parsed_text(text) {
            Some(document) => r is Ok && r->Ok_0.root() == document && r->Ok_0.path() == path,
            None => r is Err && r->Err_0 == ConfError::Parse,
        },
    }
}

impl Conf {
    /// The tree that the store holds.
    pub closed spec fn root(&self) -> TreeModel {
        self.live_config@
    }

    /// The path that the store is kept at.
    pub closed spec fn path(&self) -> PathBuf {
        self.location
    }

    /// Every object in the store's tree keeps each key once.
    pub open spec fn wf(&self) -> bool {
        self.root().wf()
    }

    /// A store that holds `root` and is kept at `path`.
    pub fn with_root(path: PathBuf, root: ValueTree) -> (r: Conf)
        requires
            root@.wf(),
        ensures
            r.root() == root@,
            r.path() == path,
            r.wf(),
    {
        Conf { live_config: root, location: path }
    }

    /// A copy of the store: the same tree, kept at the same path.
    pub fn duplicate(&self) -> (r: Conf)
        ensures
            r.root() == self.root(),
            r.path() == self.path(),
    {
        Conf { live_config: self.live_config.duplicate(), location: self.location.clone() }
    }

    /// Makes the store for the file at `path`, given its contents: `None`
    /// where the file is not there or cannot be opened, and the store is then
    /// an object without members. Contents that are no JSON document are an
    /// error.
    pub fn load_or_default(path: PathBuf, contents: Option<&str>) -> (r: Result<Conf, ConfError>)
        ensures
            loaded(
                match contents {
                    Some(text) => Some(text@),
                    None => None,
                },
                path,
                r,
            ),
            r is Ok ==> r->Ok_0.wf(),
    {
        match contents {
            None => Ok(Conf::with_root(path, ValueTree::new_object())),
            Some(text) => match parse_tree(text) {
                Ok(root) => Ok(Conf::with_root(path, root)),
                Err(e) => Err(e),
            },
        }
    }

    /// Changes the path that the store is kept at. The tree stays as it is,
    /// and nothing is written.
    pub fn set_path(&mut self, path: PathBuf)
        ensures
            final(self).path() == path,
            final(self).root() == old(self).root(),
    {
        self.location = path;
    }

    /// The path that the store is kept at.
    pub fn location(&self) -> (r: &PathBuf)
        ensures
            *r == self.path(),
    {
        &self.location
    }

    /// The tree that the store holds.
    pub fn tree(&self) -> (r: &ValueTree)
        ensures
            r@ == self.root(),
    {
        &self.live_config
    }

    /// Makes a fresh store for the same path from the contents that the file
    /// has now, as `load_or_default` does. This store stays as it is.
    pub fn reload(&self, contents: Option<&str>) -> (r: Result<Conf, ConfError>)
        ensures
            loaded(
                match contents {
                    Some(text) => Some(text@),
                    None => None,
                },
                self.path(),
                r,
            ),
            r is Ok ==> r->Ok_0.wf(),
    {
        Conf::load_or_default(self.location.clone(), contents)
    }

    /// The text to write to the file at `location()`: the tree as indented
    /// JSON.
    pub fn save(&self) -> (r: Result<String, ConfError>)
        requires
            self.wf(),
        ensures
            rendering(pretty_text(self.root()), r),
    {
        render_tree(&self.live_config)
    }

    /// The whole tree as indented JSON text. The cost grows with the tree.
    pub fn to_display_string(&self) -> (r: Result<String, ConfError>)
        requires
            self.wf(),
        ensures
            rendering(pretty_text(self.root()), r),
    {
        render_tree(&self.live_config)
    }

    /// Whether the store has at least one key.
    pub fn any_keys(&self) -> (r: bool)
        ensures
            r == (self.root().members().len() > 0),
    {
        self.live_config.any_keys()
    }

    /// Whether the store has `key`.
    pub fn has(&self, key: &str) -> (r: bool)
        ensures
            r == self.root().has(key@),
    {
        self.live_config.has(key)
    }

    /// The value stored under `key`, where there is one.
    pub fn get(&self, key: String) -> (r: Option<&ValueTree>)
        ensures
            self.root().lookup(key@) == match r {
                Some(child) => Some(child@),
                None => None,
            },
            self.wf() && r.is_some() ==> r.unwrap()@.wf(),
    {
        self.live_config.get(key.as_str())
    }

    /// The value stored under `key`, where there is one.
    pub fn get_st(&self, key: &str) -> (r: Option<&ValueTree>)
        ensures
            self.root().lookup(key@) == match r {
                Some(child) => Some(child@),
                None => None,
            },
            self.wf() && r.is_some() ==> r.unwrap()@.wf(),
    {
        self.live_config.get(key)
    }

    /// Stores `val` under `key`, in place of what was there.
    pub fn set(&mut self, key: String, val: ValueTree)
        ensures
            final(self).root() == old(self).root().with_member(key@, val@),
            old(self).root() is Object ==> final(self).root().lookup(key@) == Some(val@),
            final(self).path() == old(self).path(),
            old(self).wf() && val@.wf() ==> final(self).wf(),
    {
        self.live_config.set(key, val);
    }

    /// Stores `val` under `key`, in place of what was there.
    pub fn set_st(&mut self, key: &str, val: ValueTree)
        ensures
            final(self).root() == old(self).root().with_member(key@, val@),
            old(self).root() is Object ==> final(self).root().lookup(key@) == Some(val@),
            final(self).path() == old(self).path(),
            old(self).wf() && val@.wf() ==> final(self).wf(),
    {
        self.live_config.set(key.to_owned(), val);
    }

    /// Stores the string `val` under `key`, in place of what was there.
    pub fn set_str_st(&mut self, key: &str, val: &str)
        ensures
            final(self).root() == old(self).root().with_member(key@, TreeModel::Text(val@)),
            old(self).root() is Object ==> final(self).root().lookup(key@) == Some(
                TreeModel::Text(val@),
            ),
            final(self).path() == old(self).path(),
            old(self).wf() ==> final(self).wf(),
    {
        self.live_config.set(key.to_owned(), ValueTree::String(val.to_owned()));
    }

    /// Takes `key` out of the store and hands back the value that it held.
    pub fn del(&mut self, key: String) -> (r: Option<ValueTree>)
        ensures
            final(self).root() == old(self).root().without(key@),
            final(self).path() == old(self).path(),
            old(self).root().lookup(key@) == match r {
                Some(child) => Some(child@),
                None => None,
            },
            old(self).wf() ==> final(self).wf() && !final(self).root().has(key@) && (r.is_some()
                ==> r.unwrap()@.wf()),
    {
        self.live_config.remove(key.as_str())
    }

    /// Takes `key` out of the store and hands back the value that it held.
    pub fn del_st(&mut self, key: &str) -> (r: Option<ValueTree>)
        ensures
            final(self).root() == old(self).root().without(key@),
            final(self).path() == old(self).path(),
            old(self).root().lookup(key@) == match r {
                Some(child) => Some(child@),
                None => None,
            },
            old(self).wf() ==> final(self).wf() && !final(self).root().has(key@) && (r.is_some()
                ==> r.unwrap()@.wf()),
    {
        self.live_config.remove(key)
    }

    /// Stores an object without members under `key`, in place of whatever was
    /// there, and hands it out to be filled.
    pub fn new_child_object(&mut self, key: String) -> (r: Option<&mut ValueTree>)
        ensures
            final(self).path() == old(self).path(),
            match r {
                Some(child) => old(self).root() is Object && child@ == TreeModel::Object(
                    Seq::empty(),
                ) && final(self).root() == old(self).root().with_member(key@, final(child)@),
                None => !(old(self).root() is Object) && final(self).root() == old(self).root(),
            },
            old(self).wf() && r.is_some() && final(r.unwrap())@.wf() ==> final(self).wf(),
    {
        self.live_config.new_child_object(key)
    }

    /// Merges `incoming` into the store under `key`, as
    /// `ValueTree::merge_object` does.
    pub fn merge_object(&mut self, key: &str, incoming: &ValueTree)
        ensures
            final(self).root() == old(self).root().merged(key@, incoming@),
            final(self).path() == old(self).path(),
            incoming@.members().len() == 0 ==> final(self).root() == old(self).root(),
            old(self).wf() && incoming@.wf() ==> final(self).wf(),
    {
        self.live_config.merge_object(key, incoming);
    }
}

} // verus!
