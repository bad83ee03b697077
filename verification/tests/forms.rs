use dotcfg::format::{has_form, number_node, render_composite, render_document, NumberParts};
use dotcfg::tree::{FloatRepr, Node};
use dotcfg::{DotCfg, DotCfgError, Format};

fn s(x: &str) -> Node {
    Node::Str(x.to_string())
}

fn tagged(tag: &str, inner: Node) -> Node {
    Node::Tagged(tag.to_string(), Box::new(inner))
}

#[test]
fn each_format_writes_its_own_kinds_of_value() {
    assert!(!has_form(Format::Toml, &Node::Null));
    assert!(has_form(Format::Json, &Node::Null));
    assert!(has_form(Format::Yaml, &Node::Null));

    assert!(has_form(Format::Toml, &Node::Datetime("1979-05-27T07:32:00Z".to_string())));
    assert!(!has_form(Format::Json, &Node::Datetime("1979-05-27".to_string())));
    assert!(!has_form(Format::Yaml, &Node::Datetime("1979-05-27".to_string())));

    assert!(has_form(Format::Yaml, &tagged("!t", s("x"))));
    assert!(!has_form(Format::Toml, &tagged("!t", s("x"))));
    assert!(!has_form(Format::Json, &tagged("!t", s("x"))));

    // TOML integers are signed 64-bit
    assert!(has_form(Format::Toml, &Node::UInt(9_223_372_036_854_775_807)));
    assert!(!has_form(Format::Toml, &Node::UInt(u64::MAX)));
    assert!(has_form(Format::Json, &Node::UInt(u64::MAX)));

    // TOML floats are written from float text
    let f = |t: &str| Node::Float(FloatRepr { bits: 0, text: t.to_string() });
    assert!(has_form(Format::Toml, &f("0.75")));
    assert!(has_form(Format::Toml, &f("-inf")));
    assert!(!has_form(Format::Toml, &f("three")));
}

#[test]
fn table_keys_and_nested_values_are_checked() {
    let int_key = Node::Table(vec![(Node::Int(1), s("a"))]);
    assert!(!has_form(Format::Toml, &int_key));
    assert!(!has_form(Format::Json, &int_key));
    assert!(has_form(Format::Yaml, &int_key));

    let deep_null = Node::Table(vec![(s("a"), Node::List(vec![s("x"), Node::Null]))]);
    assert!(!has_form(Format::Toml, &deep_null));
    assert!(has_form(Format::Json, &deep_null));

    let empty_tag_key = Node::Table(vec![(tagged("", s("k")), s("v"))]);
    assert!(!has_form(Format::Yaml, &empty_tag_key));
}

#[test]
fn empty_yaml_tags_are_refused_not_written() {
    let doc = Node::Table(vec![(s("a"), tagged("", Node::Null))]);
    assert!(!has_form(Format::Yaml, &doc));
    assert_eq!(
        render_document(Format::Yaml, &doc).unwrap_err(),
        DotCfgError::Yaml("the value has no YAML form".to_string())
    );
    assert_eq!(render_composite(Format::Yaml, &tagged("", s("x"))), "");
    assert_eq!(
        DotCfg::new("t")
            .yaml()
            .set_node_in("a", tagged("", Node::Null), None)
            .unwrap_err(),
        DotCfgError::Yaml("the value has no YAML form".to_string())
    );
    // a tag that is not empty is written and read back
    let cfg = DotCfg::new("t").yaml();
    let file = cfg.set_node_in("a", tagged("!t", s("x")), None).unwrap();
    assert_eq!(
        cfg.get_node_in("a", dotcfg::EnvRead::Unset, Some(&file)).unwrap(),
        dotcfg::config::Found::Value(tagged("!t", s("x")))
    );
}

#[test]
fn values_a_format_cannot_write_are_refused_with_its_error() {
    assert_eq!(
        render_document(Format::Toml, &Node::Table(vec![(s("a"), Node::Null)])).unwrap_err(),
        DotCfgError::TomlSerialize("the value has no TOML form".to_string())
    );
    assert_eq!(
        render_document(Format::Toml, &Node::Table(vec![(s("a"), Node::UInt(u64::MAX))])).unwrap_err(),
        DotCfgError::TomlSerialize("the value has no TOML form".to_string())
    );
    assert_eq!(
        render_document(Format::Json, &Node::Table(vec![(s("d"), Node::Datetime("x".to_string()))]))
            .unwrap_err(),
        DotCfgError::Json("the value has no JSON form".to_string())
    );
    assert_eq!(render_composite(Format::Toml, &Node::List(vec![Node::Null])), "");
    assert_eq!(
        render_document(Format::Json, &Node::Table(vec![(s("n"), Node::UInt(u64::MAX))])).unwrap(),
        "{\n  \"n\": 18446744073709551615\n}"
    );
}

#[test]
fn numbers_become_the_kind_they_are() {
    let parts = |u: Option<u64>, i: Option<i64>, b: Option<u64>, t: &str| NumberParts {
        unsigned: u,
        signed: i,
        float_bits: b,
        text: t.to_string(),
    };
    assert_eq!(number_node(parts(Some(7), Some(7), Some(7f64.to_bits()), "7")), Node::UInt(7));
    assert_eq!(number_node(parts(None, Some(-7), Some((-7f64).to_bits()), "-7")), Node::Int(-7));
    assert_eq!(
        number_node(parts(None, None, Some(0.5f64.to_bits()), "0.5")),
        Node::Float(FloatRepr { bits: 0.5f64.to_bits(), text: "0.5".to_string() })
    );
    assert_eq!(
        number_node(parts(None, None, None, "1e999")),
        Node::Float(FloatRepr { bits: 0, text: "1e999".to_string() })
    );
}
