use figcon::{Entry, ValueTree};

fn number(n: i64) -> ValueTree {
    ValueTree::Number(serde_json::Number::from(n))
}

fn text(s: &str) -> ValueTree {
    ValueTree::String(s.to_owned())
}

fn object(members: Vec<(&str, ValueTree)>) -> ValueTree {
    let mut node = ValueTree::new_object();
    for (key, value) in members {
        node.set(key.to_owned(), value);
    }
    node
}

#[test]
fn new_object_has_no_keys() {
    let node = ValueTree::new_object();
    assert!(node.is_object());
    assert!(!node.any_keys());
    assert_eq!(node, ValueTree::Object(vec![]));
    assert_eq!(node.list_keys(), None);
    assert_eq!(node.list_values(), None);
}

#[test]
fn scalars_and_arrays_are_not_objects() {
    for node in [
        ValueTree::Null,
        ValueTree::Bool(true),
        number(3),
        text("s"),
        ValueTree::Array(vec![number(1)]),
    ] {
        assert!(!node.is_object());
        assert!(!node.any_keys());
        assert_eq!(node.list_keys(), None);
        assert_eq!(node.list_values(), None);
        assert_eq!(node.get("a"), None);
        assert!(!node.has("a"));
    }
}

#[test]
fn set_then_get_gives_the_value() {
    let mut node = ValueTree::new_object();
    assert!(!node.has("k"));
    node.set("k".to_owned(), number(7));
    assert_eq!(node.get("k"), Some(&number(7)));
    assert!(node.has("k"));
    assert!(node.any_keys());
}

#[test]
fn set_overwrites_in_place() {
    let mut node = object(vec![("a", number(1)), ("b", number(2)), ("c", number(3))]);
    node.set("b".to_owned(), text("two"));
    assert_eq!(
        node,
        ValueTree::Object(vec![
            Entry { key: "a".to_owned(), value: number(1) },
            Entry { key: "b".to_owned(), value: text("two") },
            Entry { key: "c".to_owned(), value: number(3) },
        ])
    );
    assert_eq!(node.list_keys(), Some(vec!["a".to_owned(), "b".to_owned(), "c".to_owned()]));
}

#[test]
fn set_on_a_scalar_does_nothing() {
    let mut node = number(5);
    node.set("a".to_owned(), number(1));
    assert_eq!(node, number(5));
    let mut items = ValueTree::Array(vec![number(1)]);
    items.set("a".to_owned(), number(1));
    assert_eq!(items, ValueTree::Array(vec![number(1)]));
}

#[test]
fn set_twice_is_set_once() {
    let mut once = object(vec![("a", number(1))]);
    once.set("k".to_owned(), text("v"));
    let mut twice = object(vec![("a", number(1))]);
    twice.set("k".to_owned(), text("v"));
    twice.set("k".to_owned(), text("v"));
    assert_eq!(once, twice);
}

#[test]
fn remove_hands_back_the_value() {
    let mut node = object(vec![("a", number(1)), ("b", number(2)), ("c", number(3))]);
    assert_eq!(node.remove("b"), Some(number(2)));
    assert!(!node.has("b"));
    assert_eq!(node.remove("b"), None);
    assert_eq!(node.list_keys(), Some(vec!["a".to_owned(), "c".to_owned()]));
    assert_eq!(node.get("a"), Some(&number(1)));
    assert_eq!(node.get("c"), Some(&number(3)));
}

#[test]
fn remove_on_a_scalar_gives_nothing() {
    let mut node = text("s");
    assert_eq!(node.remove("a"), None);
    assert_eq!(node, text("s"));
    assert!(!node.has("a"));
}

#[test]
fn list_keys_and_values_keep_the_order() {
    let node = object(vec![("z", number(1)), ("a", text("x")), ("m", ValueTree::Null)]);
    assert_eq!(node.list_keys(), Some(vec!["z".to_owned(), "a".to_owned(), "m".to_owned()]));
    assert_eq!(node.list_values(), Some(vec![number(1), text("x"), ValueTree::Null]));
}

#[test]
fn duplicate_copies_the_whole_tree() {
    let node = object(vec![
        ("n", number(-4)),
        ("s", text("x")),
        ("l", ValueTree::Array(vec![ValueTree::Bool(false), object(vec![("i", number(1))])])),
        ("o", object(vec![("p", ValueTree::Null)])),
    ]);
    assert_eq!(node.duplicate(), node);
}

#[test]
fn get_mut_changes_the_child_in_place() {
    let mut node = object(vec![("a", number(1)), ("b", number(2))]);
    match node.get_mut("a") {
        Some(child) => *child = text("one"),
        None => panic!("the key is there"),
    }
    assert_eq!(node, object(vec![("a", text("one")), ("b", number(2))]));
    assert!(node.get_mut("c").is_none());
    assert!(number(1).get_mut("a").is_none());
}

#[test]
fn new_child_object_is_empty_and_can_be_filled() {
    let mut node = object(vec![("sub", number(1)), ("b", number(2))]);
    {
        let sub = node.new_child_object("sub".to_owned()).unwrap();
        assert_eq!(*sub, ValueTree::new_object());
        sub.set("x".to_owned(), text("y"));
    }
    assert_eq!(node.get("sub").unwrap().get("x"), Some(&text("y")));
    assert_eq!(node.list_keys(), Some(vec!["sub".to_owned(), "b".to_owned()]));
    node.new_child_object("fresh".to_owned());
    assert_eq!(node.get("fresh"), Some(&ValueTree::new_object()));
    assert_eq!(
        node.list_keys(),
        Some(vec!["sub".to_owned(), "b".to_owned(), "fresh".to_owned()])
    );
}

#[test]
fn new_child_object_on_a_scalar_gives_nothing() {
    let mut node = ValueTree::Bool(true);
    assert!(node.new_child_object("a".to_owned()).is_none());
    assert_eq!(node, ValueTree::Bool(true));
}

#[test]
fn merge_of_nothing_changes_nothing() {
    let start = object(vec![("k", object(vec![("a", number(1))]))]);
    for incoming in [ValueTree::new_object(), ValueTree::Null, number(1), ValueTree::Array(vec![])]
    {
        let mut node = start.duplicate();
        node.merge_object("k", &incoming);
        assert_eq!(node, start);
        assert!(node.any_keys());
        assert_eq!(node.get("k"), start.get("k"));
        let mut bare = ValueTree::new_object();
        bare.merge_object("k", &incoming);
        assert!(!bare.any_keys());
        assert_eq!(bare.get("k"), None);
    }
}

#[test]
fn merge_extends_the_object_under_the_key() {
    let mut node = object(vec![
        ("other", number(0)),
        ("k", object(vec![("a", number(1)), ("b", number(2))])),
    ]);
    let incoming = object(vec![("b", text("new")), ("c", number(3))]);
    node.merge_object("k", &incoming);
    assert_eq!(
        node,
        object(vec![
            ("other", number(0)),
            ("k", object(vec![("a", number(1)), ("b", text("new")), ("c", number(3))])),
        ])
    );
}

#[test]
fn merge_goes_one_level_deep() {
    let mut node = object(vec![("k", object(vec![("in", object(vec![("a", number(1))]))]))]);
    let incoming = object(vec![("in", object(vec![("b", number(2))]))]);
    node.merge_object("k", &incoming);
    assert_eq!(node, object(vec![("k", object(vec![("in", object(vec![("b", number(2))]))]))]));
}

#[test]
fn merge_under_a_new_key_stores_what_came_in() {
    let mut node = object(vec![("a", number(1))]);
    let incoming = object(vec![("x", number(9))]);
    node.merge_object("k", &incoming);
    assert_eq!(node, object(vec![("a", number(1)), ("k", object(vec![("x", number(9))]))]));
    let mut bare = ValueTree::new_object();
    bare.merge_object("k", &incoming);
    assert_eq!(bare, object(vec![("k", object(vec![("x", number(9))]))]));
}

#[test]
fn merge_leaves_a_scalar_under_the_key_alone() {
    let mut node = object(vec![("k", number(1))]);
    node.merge_object("k", &object(vec![("x", number(9))]));
    assert_eq!(node, object(vec![("k", number(1))]));
}

#[test]
fn merge_into_a_scalar_does_nothing() {
    let mut node = text("s");
    node.merge_object("k", &object(vec![("x", number(9))]));
    assert_eq!(node, text("s"));
}

#[test]
fn as_object_gives_the_entries() {
    let node = object(vec![("a", number(1))]);
    assert_eq!(node.as_object(), Some(&vec![Entry { key: "a".to_owned(), value: number(1) }]));
    assert_eq!(ValueTree::new_object().as_object(), Some(&vec![]));
    assert_eq!(number(1).as_object(), None);
    assert_eq!(ValueTree::Array(vec![]).as_object(), None);
}

#[test]
fn as_object_mut_changes_the_entries_in_place() {
    let mut node = object(vec![("a", number(1))]);
    node.as_object_mut().unwrap().push(Entry { key: "b".to_owned(), value: number(2) });
    assert_eq!(node, object(vec![("a", number(1)), ("b", number(2))]));
    assert!(text("s").as_object_mut().is_none());
}

#[test]
fn well_formed_trees_keep_each_key_once() {
    assert!(ValueTree::Null.is_well_formed());
    assert!(ValueTree::new_object().is_well_formed());
    assert!(object(vec![("a", number(1)), ("b", object(vec![("a", number(2))]))]).is_well_formed());
    let twice = ValueTree::Object(vec![
        Entry { key: "a".to_owned(), value: number(1) },
        Entry { key: "b".to_owned(), value: number(2) },
        Entry { key: "a".to_owned(), value: number(3) },
    ]);
    assert!(!twice.is_well_formed());
    assert!(!ValueTree::Array(vec![number(1), twice.duplicate()]).is_well_formed());
    assert!(!ValueTree::Object(vec![Entry { key: "in".to_owned(), value: twice }]).is_well_formed());
}

#[test]
fn lookups_take_the_first_of_a_repeated_key() {
    let mut twice = ValueTree::Object(vec![
        Entry { key: "a".to_owned(), value: number(1) },
        Entry { key: "a".to_owned(), value: number(3) },
    ]);
    assert_eq!(twice.get("a"), Some(&number(1)));
    twice.set("a".to_owned(), number(5));
    assert_eq!(twice.list_values(), Some(vec![number(5), number(3)]));
    assert_eq!(twice.remove("a"), Some(number(5)));
    assert_eq!(twice.get("a"), Some(&number(3)));
}
