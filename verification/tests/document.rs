use dotcfg::text::{i64_text, trim_str, u64_text};
use dotcfg::tree::{
    empty_table, get_node, get_value, node_text, set_node, set_value, split_key, FloatRepr, KeyPath,
    Node,
};
use dotcfg::DotCfgError;

fn s(x: &str) -> Node {
    Node::Str(x.to_string())
}

fn text(doc: &Node, key: &str) -> String {
    get_value(doc, key).unwrap().unwrap()
}

#[test]
fn toml_val_to_string_variants() {
    // `get()` returns String for all types, so non-strings are stringified
    assert_eq!(node_text(&s("hi")).unwrap(), "hi");
    assert_eq!(node_text(&Node::Int(42)).unwrap(), "42");
    assert_eq!(node_text(&Node::Bool(true)).unwrap(), "true");
}

#[test]
fn get_set_toml_helper() {
    let mut val = empty_table();
    set_value(&mut val, "username", "tayo").unwrap();
    assert_eq!(text(&val, "username"), "tayo");
    set_value(&mut val, "user.username", "jane").unwrap();
    assert_eq!(text(&val, "user.username"), "jane");
    assert!(get_value(&val, "missing").is_err());
}

#[test]
fn toml_node_helpers_roundtrip_typed_values() {
    let mut val = empty_table();

    set_node(&mut val, "port", Node::Int(8080)).unwrap();
    set_node(&mut val, "features.auto_update", Node::Bool(true)).unwrap();

    let port: u16 = match get_node(&val, "port").unwrap() {
        Node::Int(n) => u16::try_from(*n).unwrap(),
        other => panic!("{:?}", other),
    };
    assert_eq!(port, 8080);
    assert_eq!(
        get_node(&val, "features.auto_update").unwrap(),
        &Node::Bool(true)
    );

    // stringifying still works on the same nodes — `get()` is unchanged
    assert_eq!(text(&val, "port"), "8080");
    assert!(get_node(&val, "missing").is_err());
}

#[test]
fn json_val_to_string_variants() {
    assert_eq!(node_text(&s("hi")).unwrap(), "hi");
    assert_eq!(node_text(&Node::UInt(42)).unwrap(), "42");
    assert_eq!(node_text(&Node::Bool(false)).unwrap(), "false");
}

#[test]
fn get_set_json_helper() {
    let mut val = empty_table();
    set_value(&mut val, "username", "tayo").unwrap();
    assert_eq!(text(&val, "username"), "tayo");
    set_value(&mut val, "user.username", "jane").unwrap();
    assert_eq!(text(&val, "user.username"), "jane");
}

#[test]
fn json_node_helpers_roundtrip_typed_values() {
    let mut val = empty_table();

    set_node(
        &mut val,
        "weights",
        Node::List(vec![Node::UInt(1), Node::UInt(2), Node::UInt(3)]),
    )
    .unwrap();
    set_node(&mut val, "features.auto_update", Node::Bool(true)).unwrap();

    let weights: Vec<i32> = match get_node(&val, "weights").unwrap() {
        Node::List(items) => items
            .iter()
            .map(|n| match n {
                Node::UInt(u) => *u as i32,
                other => panic!("{:?}", other),
            })
            .collect(),
        other => panic!("{:?}", other),
    };
    assert_eq!(weights, vec![1, 2, 3]);
    assert_eq!(
        get_node(&val, "features.auto_update").unwrap(),
        &Node::Bool(true)
    );
    assert!(get_node(&val, "missing").is_err());
}

#[test]
fn yaml_val_to_string_variants() {
    assert_eq!(node_text(&s("hi")).unwrap(), "hi");
    assert_eq!(node_text(&Node::UInt(42)).unwrap(), "42");
    assert_eq!(node_text(&Node::Bool(false)).unwrap(), "false");
    assert_eq!(node_text(&Node::Null).unwrap(), "null");
}

#[test]
fn get_set_yaml_helper() {
    let mut val = empty_table();
    set_value(&mut val, "username", "tayo").unwrap();
    assert_eq!(text(&val, "username"), "tayo");
    set_value(&mut val, "user.username", "jane").unwrap();
    assert_eq!(text(&val, "user.username"), "jane");
    assert!(get_value(&val, "missing").is_err());
}

#[test]
fn yaml_node_helpers_roundtrip_typed_values() {
    let mut val = empty_table();

    set_node(&mut val, "plugins", Node::List(vec![s("fmt"), s("lint")])).unwrap();
    set_node(&mut val, "features.auto_update", Node::Bool(true)).unwrap();

    let plugins: Vec<String> = match get_node(&val, "plugins").unwrap() {
        Node::List(items) => items
            .iter()
            .map(|n| match n {
                Node::Str(x) => x.clone(),
                other => panic!("{:?}", other),
            })
            .collect(),
        other => panic!("{:?}", other),
    };
    assert_eq!(plugins, vec!["fmt", "lint"]);
    assert_eq!(
        get_node(&val, "features.auto_update").unwrap(),
        &Node::Bool(true)
    );
    assert!(get_node(&val, "missing").is_err());
}

#[test]
fn keys_split_at_the_first_dot() {
    assert_eq!(split_key("port"), KeyPath::Field("port".to_string()));
    assert_eq!(
        split_key("user.name"),
        KeyPath::Nested("user".to_string(), "name".to_string())
    );
    assert_eq!(
        split_key("a.b.c"),
        KeyPath::Nested("a".to_string(), "b.c".to_string())
    );
    assert_eq!(split_key(".x"), KeyPath::Nested(String::new(), "x".to_string()));
    assert_eq!(split_key("x."), KeyPath::Nested("x".to_string(), String::new()));
}

#[test]
fn set_preserves_other_keys() {
    let mut doc = empty_table();
    set_value(&mut doc, "username", "keep").unwrap();
    set_node(&mut doc, "port", Node::Int(9090)).unwrap();
    set_value(&mut doc, "user.email", "a@b").unwrap();
    set_value(&mut doc, "user.name", "n").unwrap();

    set_value(&mut doc, "username", "changed").unwrap();
    set_value(&mut doc, "user.email", "c@d").unwrap();

    assert_eq!(text(&doc, "username"), "changed");
    assert_eq!(text(&doc, "port"), "9090");
    assert_eq!(text(&doc, "user.email"), "c@d");
    assert_eq!(text(&doc, "user.name"), "n");
    // rewriting an existing key keeps its place
    match &doc {
        Node::Table(es) => {
            assert_eq!(es.len(), 3);
            assert_eq!(es[0], (s("username"), s("changed")));
        }
        other => panic!("{:?}", other),
    }
}

#[test]
fn missing_key_and_section_report_key_not_found() {
    let mut doc = empty_table();
    set_value(&mut doc, "name", "x").unwrap();
    assert_eq!(
        get_value(&doc, "nope").unwrap_err(),
        DotCfgError::KeyNotFound("nope".to_string())
    );
    assert_eq!(
        get_value(&doc, "nope.nope").unwrap_err(),
        DotCfgError::KeyNotFound("nope.nope".to_string())
    );
    // a section that is no table has no fields
    assert_eq!(
        get_value(&doc, "name.first").unwrap_err(),
        DotCfgError::KeyNotFound("name.first".to_string())
    );
}

#[test]
fn writes_into_non_tables_fail_and_change_nothing() {
    let mut scalar = Node::Int(3);
    assert_eq!(
        set_value(&mut scalar, "a", "b").unwrap_err(),
        DotCfgError::NotATable("root".to_string())
    );
    assert_eq!(scalar, Node::Int(3));

    let mut doc = empty_table();
    set_value(&mut doc, "name", "x").unwrap();
    assert_eq!(
        set_value(&mut doc, "name.first", "y").unwrap_err(),
        DotCfgError::NotATable("name".to_string())
    );
    assert_eq!(text(&doc, "name"), "x");
}

#[test]
fn tagged_tables_are_looked_into() {
    let inner = Node::Table(vec![(s("k"), s("v"))]);
    let mut doc = Node::Tagged("!cfg".to_string(), Box::new(Node::Table(vec![(
        s("sec"),
        Node::Tagged("!t".to_string(), Box::new(inner)),
    )])));
    assert_eq!(text(&doc, "sec.k"), "v");
    set_value(&mut doc, "sec.k2", "w").unwrap();
    set_value(&mut doc, "top", "t").unwrap();
    assert_eq!(text(&doc, "sec.k2"), "w");
    assert_eq!(text(&doc, "sec.k"), "v");
    assert_eq!(text(&doc, "top"), "t");
    // the tags stay in place
    match &doc {
        Node::Tagged(tag, _) => assert_eq!(tag, "!cfg"),
        other => panic!("{:?}", other),
    }
    // a tagged value has no plain text of its own
    assert_eq!(get_value(&doc, "sec").unwrap(), None);
}

#[test]
fn only_string_keys_match() {
    let doc = Node::Table(vec![(Node::UInt(1), s("one")), (s("1"), s("uno"))]);
    assert_eq!(text(&doc, "1"), "uno");
}

#[test]
fn scalar_texts() {
    assert_eq!(node_text(&Node::Int(-42)).unwrap(), "-42");
    assert_eq!(node_text(&Node::Int(i64::MIN)).unwrap(), i64::MIN.to_string());
    assert_eq!(node_text(&Node::UInt(u64::MAX)).unwrap(), u64::MAX.to_string());
    assert_eq!(node_text(&Node::UInt(0)).unwrap(), "0");
    assert_eq!(
        node_text(&Node::Float(FloatRepr { bits: 0.75f64.to_bits(), text: "0.75".to_string() })).unwrap(),
        "0.75"
    );
    assert_eq!(
        node_text(&Node::Datetime("1979-05-27T07:32:00Z".to_string())).unwrap(),
        "1979-05-27T07:32:00Z"
    );
    assert_eq!(node_text(&Node::List(Vec::new())), None);
    assert_eq!(node_text(&empty_table()), None);
    assert_eq!(i64_text(-7), "-7");
    assert_eq!(u64_text(1000), "1000");
}

#[test]
fn trimming_removes_unicode_whitespace() {
    assert_eq!(trim_str(" \t a b \n"), "a b");
    assert_eq!(trim_str("\u{2003}x\u{3000}"), "x");
    assert_eq!(trim_str("   "), "");
    assert_eq!(trim_str("\u{200b}x"), "\u{200b}x");
}
