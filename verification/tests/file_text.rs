use dotcfg::config::Found;
use dotcfg::format::{parse_document, render_composite, render_document};
use dotcfg::tree::{empty_table, get_node, get_value, set_node, set_value, take_node, Node};
use dotcfg::{DotCfg, DotCfgError, EnvRead, Format};

fn s(x: &str) -> Node {
    Node::Str(x.to_string())
}

fn get(cfg: &DotCfg, key: &str, file: &str) -> Result<String, DotCfgError> {
    cfg.get_in(key, EnvRead::Unset, Some(file))
}

#[test]
fn get_set_flat_key() {
    let cfg = DotCfg::new("flat");
    // the file that saving { username: "alice", port: 3000 } writes
    let file = "username = \"alice\"\nport = 3000\n".to_string();
    assert_eq!(get(&cfg, "username", &file).unwrap(), "alice");
    let file = cfg.set_in("username", "bob", Some(&file)).unwrap();
    assert_eq!(get(&cfg, "username", &file).unwrap(), "bob");
    // numeric fields are stringified via get()
    assert_eq!(get(&cfg, "port", &file).unwrap(), "3000");
}

#[test]
fn get_set_nested_key() {
    let cfg = DotCfg::new("nested");
    let file = cfg.set_in("user.username", "tayo", None).unwrap();
    assert_eq!(get(&cfg, "user.username", &file).unwrap(), "tayo");
    let file = cfg.set_in("user.username", "jane", Some(&file)).unwrap();
    assert_eq!(get(&cfg, "user.username", &file).unwrap(), "jane");
}

#[test]
fn yaml_get_set_keys() {
    let cfg = DotCfg::new("yaml_keys").yaml();
    let file = "username: alice\nport: 3000\n".to_string();

    assert_eq!(get(&cfg, "username", &file).unwrap(), "alice");
    // numeric fields are stringified via get()
    assert_eq!(get(&cfg, "port", &file).unwrap(), "3000");

    let file = cfg.set_in("username", "bob", Some(&file)).unwrap();
    assert_eq!(get(&cfg, "username", &file).unwrap(), "bob");
    // other keys survive a per-key set
    assert_eq!(get(&cfg, "port", &file).unwrap(), "3000");

    // nested `section.field` creates the mapping on demand
    let file = cfg.set_in("user.email", "bob@example.com", Some(&file)).unwrap();
    assert_eq!(get(&cfg, "user.email", &file).unwrap(), "bob@example.com");
    let file = cfg.set_in("user.email", "bob@other.test", Some(&file)).unwrap();
    assert_eq!(get(&cfg, "user.email", &file).unwrap(), "bob@other.test");

    let loaded: serde_yaml_ng::Value = serde_yaml_ng::from_str(&file).unwrap();
    assert_eq!(loaded["username"].as_str(), Some("bob"));
    assert_eq!(loaded["port"].as_u64(), Some(3000));

    assert!(matches!(
        get(&cfg, "nope", &file).unwrap_err(),
        DotCfgError::KeyNotFound(_)
    ));
}

#[test]
fn yaml_set_creates_file() {
    let cfg = DotCfg::new("yaml_create").yaml();
    let file = cfg.set_in("user.username", "tayo", None).unwrap();
    assert!(!file.is_empty());
    assert_eq!(get(&cfg, "user.username", &file).unwrap(), "tayo");
}

#[test]
fn set_val_preserves_other_keys() {
    let cfg = DotCfg::new("typed_preserve");
    let file = "username = \"keep\"\nport = 9090\n";
    let file = cfg.set_node_in("port", Node::Int(1234), Some(file)).unwrap();
    assert_eq!(get(&cfg, "username", &file).unwrap(), "keep");
    assert_eq!(get(&cfg, "port", &file).unwrap(), "1234");
}

#[test]
fn set_val_creates_file() {
    let cfg = DotCfg::new("typed_create");
    let file = cfg.set_node_in("features.auto_update", Node::Bool(true), None).unwrap();
    assert_eq!(
        cfg.get_node_in("features.auto_update", EnvRead::Unset, Some(&file)).unwrap(),
        Found::Value(Node::Bool(true))
    );
}

#[test]
fn get_as_missing_file_errors() {
    let cfg = DotCfg::new("typed_missing");
    assert!(matches!(
        cfg.get_node_in("port", EnvRead::Unset, None).unwrap_err(),
        DotCfgError::NotFound
    ));
}

#[test]
fn typed_reads_find_the_override_first() {
    let cfg = DotCfg::new("typed").with_env_prefix("app");
    let file = "port = 8080\n";
    assert_eq!(
        cfg.get_node_in("port", EnvRead::Value("9000".to_string()), Some(file)).unwrap(),
        Found::Override("APP_PORT".to_string(), "9000".to_string())
    );
    assert_eq!(
        cfg.get_node_in("port", EnvRead::Unset, Some(file)).unwrap(),
        Found::Value(Node::Int(8080))
    );
    assert_eq!(
        cfg.get_node_in("port", EnvRead::NotUnicode, Some(file)).unwrap_err(),
        DotCfgError::EnvNotUnicode("APP_PORT".to_string())
    );
    // without a prefix the reading is ignored and the file decides
    assert_eq!(
        DotCfg::new("typed")
            .get_in("port", EnvRead::Value("9000".to_string()), Some(file))
            .unwrap(),
        "8080"
    );
}

#[test]
fn every_format_reads_back_what_it_wrote() {
    for cfg in [DotCfg::new("a"), DotCfg::new("a").json(), DotCfg::new("a").yaml()] {
        let file = cfg.set_in("name", "x", None).unwrap();
        let file = cfg.set_node_in("port", Node::Int(-3), Some(&file)).unwrap();
        let file = cfg.set_node_in("debug", Node::Bool(false), Some(&file)).unwrap();
        let file = cfg.set_in("user.email", "a@b", Some(&file)).unwrap();
        assert_eq!(get(&cfg, "name", &file).unwrap(), "x");
        assert_eq!(get(&cfg, "port", &file).unwrap(), "-3");
        assert_eq!(get(&cfg, "debug", &file).unwrap(), "false");
        assert_eq!(get(&cfg, "user.email", &file).unwrap(), "a@b");
    }
}

#[test]
fn last_write_wins_in_the_file() {
    for cfg in [DotCfg::new("a"), DotCfg::new("a").json(), DotCfg::new("a").yaml()] {
        let start = cfg.set_in("keep", "1", None).unwrap();
        let twice = cfg.set_in("user.name", "first", Some(&start)).unwrap();
        let twice = cfg.set_in("user.name", "second", Some(&twice)).unwrap();
        let once = cfg.set_in("user.name", "second", Some(&start)).unwrap();
        assert_eq!(twice, once);
        assert_eq!(get(&cfg, "user.name", &twice).unwrap(), "second");
    }
}

#[test]
fn composite_values_read_as_their_format_writes_them() {
    let json = DotCfg::new("c").json();
    let file = "{\"plugins\": [\"fmt\", \"lint\"], \"user\": {\"name\": \"n\"}}";
    assert_eq!(get(&json, "plugins", file).unwrap(), "[\"fmt\",\"lint\"]");
    assert_eq!(get(&json, "user", file).unwrap(), "{\"name\":\"n\"}");
    assert_eq!(
        render_composite(Format::Json, &Node::List(vec![Node::UInt(1), Node::Null])),
        "[1,null]"
    );

    let yaml = DotCfg::new("c").yaml();
    let file = "plugins:\n- fmt\n- lint\n";
    assert_eq!(get(&yaml, "plugins", file).unwrap(), "- fmt\n- lint");

    let toml = DotCfg::new("c");
    let file = "[user]\nname = \"n\"\n";
    assert_eq!(get(&toml, "user", file).unwrap(), "name = \"n\"\n");
}

#[test]
fn unreadable_files_report_the_parser_error() {
    let toml = DotCfg::new("p");
    assert!(matches!(get(&toml, "a", "= nope").unwrap_err(), DotCfgError::TomlParse(_)));
    assert!(matches!(
        toml.set_in("a", "b", Some("= nope")).unwrap_err(),
        DotCfgError::TomlParse(_)
    ));
    let json = DotCfg::new("p").json();
    assert!(matches!(get(&json, "a", "{").unwrap_err(), DotCfgError::Json(_)));
    let yaml = DotCfg::new("p").yaml();
    assert!(matches!(get(&yaml, "a", "a: [").unwrap_err(), DotCfgError::Yaml(_)));
    assert!(matches!(
        parse_document(Format::Json, "[1,").unwrap_err(),
        DotCfgError::Json(_)
    ));
}

#[test]
fn writes_that_cannot_be_made_report_why() {
    let toml = DotCfg::new("w");
    // TOML has no null
    assert!(matches!(
        toml.set_node_in("a", Node::Null, None).unwrap_err(),
        DotCfgError::TomlSerialize(_)
    ));
    assert!(matches!(
        render_document(Format::Toml, &Node::Table(vec![(s("a"), Node::Null)])).unwrap_err(),
        DotCfgError::TomlSerialize(_)
    ));
    // the section is a string, not a table
    assert_eq!(
        toml.set_in("name.first", "y", Some("name = \"x\"\n")).unwrap_err(),
        DotCfgError::NotATable("name".to_string())
    );
    // a JSON file whose root is no object
    let json = DotCfg::new("w").json();
    assert_eq!(
        json.set_in("a", "b", Some("[1, 2]")).unwrap_err(),
        DotCfgError::NotATable("root".to_string())
    );
}

#[test]
fn parsed_documents_hold_the_values() {
    let doc = parse_document(Format::Json, "{\"a\": 1, \"b\": [true, null], \"c\": -2}").unwrap();
    assert_eq!(
        doc,
        Node::Table(vec![
            (s("a"), Node::UInt(1)),
            (s("b"), Node::List(vec![Node::Bool(true), Node::Null])),
            (s("c"), Node::Int(-2)),
        ])
    );
    let doc = parse_document(Format::Yaml, "k: v\n").unwrap();
    assert_eq!(doc, Node::Table(vec![(s("k"), s("v"))]));
    let text = render_document(Format::Json, &doc).unwrap();
    assert_eq!(text, "{\n  \"k\": \"v\"\n}");
}

fn doc_with_a_section() -> Node {
    let mut doc = empty_table();
    set_value(&mut doc, "a.b", "x").unwrap();
    doc
}

#[test]
fn keys_with_a_second_dot_are_invalid() {
    let mut doc = doc_with_a_section();
    let invalid = DotCfgError::InvalidKey("a.b.c".to_string());

    assert_eq!(get_node(&doc, "a.b.c").unwrap_err(), invalid);
    assert_eq!(get_value(&doc, "a.b.c").unwrap_err(), invalid);
    assert_eq!(take_node(doc_with_a_section(), "a.b.c").unwrap_err(), invalid);
    assert_eq!(set_value(&mut doc, "a.b.c", "y").unwrap_err(), invalid);
    assert_eq!(set_node(&mut doc, "a.b.c", Node::Int(1)).unwrap_err(), invalid);
    assert_eq!(doc, doc_with_a_section());

    // a root that is no table is reported first
    let mut scalar = Node::Int(3);
    assert_eq!(
        set_value(&mut scalar, "a.b.c", "y").unwrap_err(),
        DotCfgError::NotATable("root".to_string())
    );

    let cfg = DotCfg::new("k");
    assert_eq!(get(&cfg, "a.b.c", "[a]\nb = 1\n").unwrap_err(), invalid);
    assert_eq!(cfg.set_in("a.b.c", "y", None).unwrap_err(), invalid);
}

fn start_doc() -> Node {
    let mut doc = empty_table();
    set_value(&mut doc, "keep", "1").unwrap();
    doc
}

#[test]
fn last_write_wins_in_the_document() {
    for key in ["name", "user.name"] {
        let mut twice = start_doc();
        set_value(&mut twice, key, "first").unwrap();
        set_value(&mut twice, key, "second").unwrap();
        let mut once = start_doc();
        set_value(&mut once, key, "second").unwrap();
        assert_eq!(twice, once);
        assert_eq!(get_value(&twice, key).unwrap().unwrap(), "second");
        // no second entry for the key, at the top or in its section
        match &twice {
            Node::Table(es) => {
                assert_eq!(es.len(), 2);
                match &es[1].1 {
                    Node::Table(section) => assert_eq!(section.len(), 1),
                    other => assert_eq!(other, &s("second")),
                }
            }
            other => panic!("{:?}", other),
        }
    }
}

fn as_int(n: &Node) -> i128 {
    match n {
        Node::Int(i) => *i as i128,
        Node::UInt(u) => *u as i128,
        other => panic!("{:?}", other),
    }
}

fn node_at(cfg: &DotCfg, key: &str, file: &str) -> Node {
    match cfg.get_node_in(key, EnvRead::Unset, Some(file)).unwrap() {
        Found::Value(n) => n,
        other => panic!("{:?}", other),
    }
}

fn float(x: f64) -> Node {
    Node::Float(dotcfg::tree::FloatRepr { bits: x.to_bits(), text: x.to_string() })
}

fn assert_typed_accessors(cfg: &DotCfg) {
    let writes = vec![
        ("port", Node::UInt(8080)),
        ("retries", Node::Int(-3)),
        ("ratio", float(0.75)),
        ("debug", Node::Bool(true)),
        ("username", s("tayo")),
        ("plugins", Node::List(vec![s("fmt"), s("lint")])),
        ("weights", Node::List(vec![Node::Int(1), Node::Int(2), Node::Int(3)])),
        // nested dotted path — the intermediate table is created on demand
        ("features.auto_update", Node::Bool(true)),
    ];
    let mut file: Option<String> = None;
    for (key, node) in writes {
        file = Some(cfg.set_node_in(key, node, file.as_deref()).unwrap());
    }
    let file = file.unwrap();

    assert_eq!(as_int(&node_at(cfg, "port", &file)), 8080);
    assert_eq!(as_int(&node_at(cfg, "retries", &file)), -3);
    match node_at(cfg, "ratio", &file) {
        Node::Float(f) => assert_eq!(f64::from_bits(f.bits), 0.75),
        other => panic!("{:?}", other),
    }
    assert_eq!(node_at(cfg, "debug", &file), Node::Bool(true));
    assert_eq!(node_at(cfg, "username", &file), s("tayo"));
    assert_eq!(node_at(cfg, "plugins", &file), Node::List(vec![s("fmt"), s("lint")]));
    match node_at(cfg, "weights", &file) {
        Node::List(items) => assert_eq!(items.iter().map(as_int).collect::<Vec<_>>(), vec![1, 2, 3]),
        other => panic!("{:?}", other),
    }
    assert_eq!(node_at(cfg, "features.auto_update", &file), Node::Bool(true));

    // a whole section
    let file = cfg
        .set_node_in("nested", Node::Table(vec![(s("val"), s("deep"))]), Some(&file))
        .unwrap();
    assert_eq!(node_at(cfg, "nested", &file), Node::Table(vec![(s("val"), s("deep"))]));

    // `get()` still stringifies the same nodes
    assert_eq!(get(cfg, "port", &file).unwrap(), "8080");
    assert_eq!(get(cfg, "ratio", &file).unwrap(), "0.75");
    assert_eq!(get(cfg, "username", &file).unwrap(), "tayo");
    assert_eq!(get(cfg, "features.auto_update", &file).unwrap(), "true");

    // missing key / missing section both report KeyNotFound
    assert!(matches!(
        cfg.get_node_in("nope", EnvRead::Unset, Some(&file)).unwrap_err(),
        DotCfgError::KeyNotFound(_)
    ));
    assert!(matches!(
        cfg.get_node_in("nope.nope", EnvRead::Unset, Some(&file)).unwrap_err(),
        DotCfgError::KeyNotFound(_)
    ));
}

#[test]
fn toml_typed_accessors() {
    assert_typed_accessors(&DotCfg::new("toml_typed").toml());
}

#[test]
fn json_typed_accessors() {
    assert_typed_accessors(&DotCfg::new("json_typed").json());
}

#[test]
fn yaml_typed_accessors() {
    assert_typed_accessors(&DotCfg::new("yaml_typed").yaml());
}

#[test]
fn set_val_get_as_roundtrip() {
    let cfg = DotCfg::new("typed_roundtrip");
    let file = cfg.set_node_in("username", s("tayo"), None).unwrap();
    let file = cfg.set_node_in("port", Node::UInt(8080), Some(&file)).unwrap();

    assert_eq!(node_at(&cfg, "username", &file), s("tayo"));
    assert_eq!(as_int(&node_at(&cfg, "port", &file)), 8080);

    // the port landed as a number, so the whole file reads as a table of both
    let loaded: toml::Value = toml::from_str(&file).unwrap();
    assert_eq!(loaded["username"].as_str(), Some("tayo"));
    assert_eq!(loaded["port"].as_integer(), Some(8080));
}

#[test]
fn refused_writes_give_no_file_text() {
    let files = [
        (DotCfg::new("r"), "features = 1\n"),
        (DotCfg::new("r").json(), "{\"features\": 1}"),
        (DotCfg::new("r").yaml(), "features: 1\n"),
    ];
    for (cfg, file) in files {
        assert_eq!(
            cfg.set_node_in("features.auto_update", Node::Bool(true), Some(file)).unwrap_err(),
            DotCfgError::NotATable("features".to_string())
        );
    }
    assert!(matches!(
        DotCfg::new("r").json().set_node_in("a", Node::Bool(true), Some("{")).unwrap_err(),
        DotCfgError::Json(_)
    ));
}
