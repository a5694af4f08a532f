use figcon::json::{from_json, parse_tree, render_tree, to_json};
use figcon::{Conf, ConfError, Entry, ValueTree};
use std::path::PathBuf;

fn whole(n: i64) -> ValueTree {
    ValueTree::Number(serde_json::Number::from(n))
}

fn plain(s: &str) -> ValueTree {
    ValueTree::String(s.to_owned())
}

fn entry(key: &str, value: ValueTree) -> Entry {
    Entry { key: key.to_owned(), value }
}

#[test]
fn parse_reads_each_kind_of_node() {
    let tree = parse_tree(r#"{"n": null, "b": true, "i": -3, "s": "x", "l": [1, "a"], "o": {"k": false}}"#)
        .unwrap();
    assert_eq!(
        tree,
        ValueTree::Object(vec![
            entry("n", ValueTree::Null),
            entry("b", ValueTree::Bool(true)),
            entry("i", whole(-3)),
            entry("s", plain("x")),
            entry("l", ValueTree::Array(vec![whole(1), plain("a")])),
            entry("o", ValueTree::Object(vec![entry("k", ValueTree::Bool(false))])),
        ])
    );
}

#[test]
fn parse_keeps_the_last_of_a_repeated_key() {
    let tree = parse_tree(r#"{"a": 1, "b": 2, "a": 3}"#).unwrap();
    assert_eq!(tree.get("a"), Some(&whole(3)));
    assert_eq!(tree.list_keys().unwrap().len(), 2);
}

#[test]
fn parse_refuses_what_is_no_document() {
    assert_eq!(parse_tree("{\"a\": "), Err(ConfError::Parse));
    assert_eq!(parse_tree(""), Err(ConfError::Parse));
    assert_eq!(parse_tree("{} x"), Err(ConfError::Parse));
}

#[test]
fn render_is_indented_json() {
    let mut tree = ValueTree::new_object();
    tree.set("a".to_owned(), whole(1));
    tree.new_child_object("sub".to_owned()).unwrap().set("x".to_owned(), plain("y"));
    tree.set("l".to_owned(), ValueTree::Array(vec![ValueTree::Null, ValueTree::Bool(true)]));
    assert_eq!(
        render_tree(&tree).unwrap(),
        "{\n  \"a\": 1,\n  \"sub\": {\n    \"x\": \"y\"\n  },\n  \"l\": [\n    null,\n    true\n  ]\n}"
    );
    assert_eq!(render_tree(&ValueTree::new_object()).unwrap(), "{}");
    assert_eq!(render_tree(&plain("s")).unwrap(), "\"s\"");
}

#[test]
fn render_then_parse_gives_the_tree_back() {
    let mut tree = ValueTree::new_object();
    tree.set("z".to_owned(), whole(1));
    tree.set("a".to_owned(), ValueTree::Array(vec![plain("x"), ValueTree::new_object()]));
    tree.new_child_object("m".to_owned()).unwrap().set("k".to_owned(), ValueTree::Null);
    let text = render_tree(&tree).unwrap();
    assert_eq!(parse_tree(&text).unwrap(), tree);
}

#[test]
fn load_without_a_file_gives_an_empty_store() {
    let conf = Conf::load_or_default(PathBuf::from("cfg.json"), None).unwrap();
    assert!(!conf.any_keys());
    assert_eq!(*conf.tree(), ValueTree::new_object());
    assert_eq!(conf.location(), &PathBuf::from("cfg.json"));
}

#[test]
fn load_reads_the_contents() {
    let conf = Conf::load_or_default(PathBuf::from("cfg.json"), Some("{\"a\": 1}")).unwrap();
    assert!(conf.any_keys());
    assert_eq!(conf.get_st("a"), Some(&whole(1)));
    assert_eq!(conf.get("a".to_owned()), Some(&whole(1)));
    assert_eq!(conf.get_st("b"), None);
}

#[test]
fn load_fails_on_contents_that_do_not_parse() {
    let r = Conf::load_or_default(PathBuf::from("cfg.json"), Some("{not json"));
    assert_eq!(r.err(), Some(ConfError::Parse));
}

#[test]
fn load_takes_a_document_that_is_no_object() {
    let mut conf = Conf::load_or_default(PathBuf::from("cfg.json"), Some("[1, 2]")).unwrap();
    assert!(!conf.any_keys());
    conf.set_st("a", whole(1));
    assert!(!conf.has("a"));
    assert_eq!(conf.del_st("a"), None);
    assert_eq!(*conf.tree(), ValueTree::Array(vec![whole(1), whole(2)]));
}

#[test]
fn set_path_changes_the_path_only() {
    let mut conf = Conf::load_or_default(PathBuf::from("one.json"), Some("{\"a\": 1}")).unwrap();
    conf.set_path(PathBuf::from("two.json"));
    assert_eq!(conf.location(), &PathBuf::from("two.json"));
    assert_eq!(conf.get_st("a"), Some(&whole(1)));
}

#[test]
fn reload_makes_a_fresh_store_for_the_same_path() {
    let mut conf = Conf::load_or_default(PathBuf::from("cfg.json"), None).unwrap();
    conf.set_st("mine", whole(1));
    let fresh = conf.reload(Some("{\"theirs\": 2}")).unwrap();
    assert_eq!(fresh.location(), &PathBuf::from("cfg.json"));
    assert_eq!(fresh.get_st("theirs"), Some(&whole(2)));
    assert!(!fresh.has("mine"));
    assert!(conf.has("mine"));
    assert!(!conf.has("theirs"));
    assert_eq!(conf.reload(Some("nope")).err(), Some(ConfError::Parse));
    assert!(!conf.reload(None).unwrap().any_keys());
}

#[test]
fn keys_are_set_and_deleted() {
    let mut conf = Conf::load_or_default(PathBuf::from("cfg.json"), None).unwrap();
    conf.set_st("Static String Key", plain("Static Value Type"));
    conf.set_str_st("Another String", "Simple Static String Value");
    conf.set("Dynamic String Key".to_owned(), whole(1234));
    assert_eq!(conf.get_st("Static String Key"), Some(&plain("Static Value Type")));
    assert_eq!(conf.get_st("Another String"), Some(&plain("Simple Static String Value")));
    assert_eq!(conf.get("Dynamic String Key".to_owned()), Some(&whole(1234)));
    assert_eq!(conf.del_st("Another String"), Some(plain("Simple Static String Value")));
    assert!(!conf.has("Another String"));
    assert_eq!(conf.del("Dynamic String Key".to_owned()), Some(whole(1234)));
    assert_eq!(conf.del("Dynamic String Key".to_owned()), None);
    assert_eq!(conf.save().unwrap(), "{\n  \"Static String Key\": \"Static Value Type\"\n}");
    assert_eq!(conf.to_display_string().unwrap(), conf.save().unwrap());
}

#[test]
fn duplicate_is_a_store_of_its_own() {
    let mut conf = Conf::load_or_default(PathBuf::from("cfg.json"), Some("{\"a\": 1}")).unwrap();
    let copy = conf.duplicate();
    conf.set_st("a", whole(2));
    conf.set_path(PathBuf::from("other.json"));
    assert_eq!(copy.get_st("a"), Some(&whole(1)));
    assert_eq!(copy.location(), &PathBuf::from("cfg.json"));
}

#[test]
fn store_merges_as_its_tree_does() {
    let mut conf =
        Conf::load_or_default(PathBuf::from("cfg.json"), Some("{\"k\": {\"a\": 1, \"b\": 2}}"))
            .unwrap();
    let incoming = parse_tree("{\"b\": 20, \"c\": 30}").unwrap();
    conf.merge_object("k", &incoming);
    assert_eq!(*conf.tree(), parse_tree("{\"k\": {\"a\": 1, \"b\": 20, \"c\": 30}}").unwrap());
    conf.merge_object("k", &ValueTree::new_object());
    assert_eq!(*conf.tree(), parse_tree("{\"k\": {\"a\": 1, \"b\": 20, \"c\": 30}}").unwrap());
}

#[test]
fn load_change_save_reload() {
    let mut conf = Conf::load_or_default(PathBuf::from("cfg.json"), None).unwrap();
    assert!(!conf.any_keys());
    conf.set_st("a", whole(1));
    assert_eq!(conf.get_st("a"), Some(&whole(1)));
    conf.new_child_object("sub".to_owned()).unwrap().set("x".to_owned(), plain("y"));
    assert_eq!(conf.get_st("sub").unwrap().get("x"), Some(&plain("y")));
    let written = conf.save().unwrap();
    let again = conf.reload(Some(&written)).unwrap();
    assert_eq!(again.tree(), conf.tree());
    assert_eq!(again.get_st("a"), Some(&whole(1)));
    assert_eq!(again.get_st("sub").unwrap().get("x"), Some(&plain("y")));
    assert_eq!(again.location(), conf.location());
    assert_eq!(conf.del_st("a"), Some(whole(1)));
    assert!(!conf.has("a"));
}

fn sample_value() -> serde_json::Value {
    let mut inner = serde_json::Map::new();
    inner.insert("k".to_owned(), serde_json::Value::Bool(false));
    let mut map = serde_json::Map::new();
    map.insert("z".to_owned(), serde_json::Value::Null);
    map.insert("i".to_owned(), serde_json::Value::Number(serde_json::Number::from(-3)));
    map.insert("s".to_owned(), serde_json::Value::String("x".to_owned()));
    map.insert(
        "l".to_owned(),
        serde_json::Value::Array(vec![
            serde_json::Value::Number(serde_json::Number::from(1)),
            serde_json::Value::Object(inner.clone()),
        ]),
    );
    map.insert("o".to_owned(), serde_json::Value::Object(inner));
    serde_json::Value::Object(map)
}

fn sample_tree() -> ValueTree {
    ValueTree::Object(vec![
        entry("z", ValueTree::Null),
        entry("i", whole(-3)),
        entry("s", plain("x")),
        entry(
            "l",
            ValueTree::Array(vec![
                whole(1),
                ValueTree::Object(vec![entry("k", ValueTree::Bool(false))]),
            ]),
        ),
        entry("o", ValueTree::Object(vec![entry("k", ValueTree::Bool(false))])),
    ])
}

#[test]
fn from_json_keeps_every_node_in_its_place() {
    assert_eq!(from_json(&sample_value()), sample_tree());
    assert_eq!(from_json(&serde_json::Value::Null), ValueTree::Null);
    assert!(from_json(&sample_value()).is_well_formed());
}

#[test]
fn to_json_keeps_every_node_in_its_place() {
    let value = to_json(&sample_tree());
    assert_eq!(value, sample_value());
    let keys: Vec<&String> = value.as_object().unwrap().keys().collect();
    assert_eq!(keys, vec!["z", "i", "s", "l", "o"]);
    assert_eq!(to_json(&ValueTree::Bool(true)), serde_json::Value::Bool(true));
}
