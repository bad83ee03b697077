use dotcfg::env::{env_list_parts, from_env_str, read_env_value, EnvTarget, EnvValue};
use dotcfg::DotCfgError;

fn list_of(t: EnvTarget) -> EnvTarget {
    EnvTarget::List(Box::new(t))
}

fn strs(items: &[&str]) -> EnvValue {
    EnvValue::List(items.iter().map(|s| EnvValue::Str(s.to_string())).collect())
}

#[test]
fn primitives() {
    assert_eq!(
        from_env_str("V", "hello", &EnvTarget::Str).unwrap(),
        EnvValue::Str("hello".to_string())
    );
    assert_eq!(
        from_env_str("V", "9000", &EnvTarget::U16).unwrap(),
        EnvValue::Unsigned(9000)
    );
    assert_eq!(
        from_env_str("V", "-3", &EnvTarget::I32).unwrap(),
        EnvValue::Signed(-3)
    );
    // a float is read as its text; converting that text is the float's own parse
    match from_env_str("V", "0.75", &EnvTarget::F64).unwrap() {
        EnvValue::Float(text) => assert_eq!(text.parse::<f64>().unwrap(), 0.75),
        other => panic!("expected a float, got {:?}", other),
    }
    // surrounding whitespace is tolerated on parsed types
    assert_eq!(
        from_env_str("V", "  9000 ", &EnvTarget::U16).unwrap(),
        EnvValue::Unsigned(9000)
    );
}

#[test]
fn bools() {
    for raw in ["true", "TRUE", "1"] {
        assert_eq!(
            from_env_str("V", raw, &EnvTarget::Bool).unwrap(),
            EnvValue::Bool(true),
            "{raw}"
        );
    }
    for raw in ["false", "False", "0"] {
        assert_eq!(
            from_env_str("V", raw, &EnvTarget::Bool).unwrap(),
            EnvValue::Bool(false),
            "{raw}"
        );
    }
    assert!(from_env_str("V", "yes", &EnvTarget::Bool).is_err());
}

#[test]
fn comma_separated_sequences() {
    assert_eq!(
        from_env_str("V", "cli,fast", &list_of(EnvTarget::Str)).unwrap(),
        strs(&["cli", "fast"])
    );
    // elements are trimmed
    assert_eq!(
        from_env_str("V", "cli, fast", &list_of(EnvTarget::Str)).unwrap(),
        strs(&["cli", "fast"])
    );
    assert_eq!(
        from_env_str("V", "1,2,3", &list_of(EnvTarget::I32)).unwrap(),
        EnvValue::List(vec![
            EnvValue::Signed(1),
            EnvValue::Signed(2),
            EnvValue::Signed(3)
        ])
    );
    // an empty var is an empty sequence, not `[""]`
    assert_eq!(
        from_env_str("V", "", &list_of(EnvTarget::Str)).unwrap(),
        EnvValue::List(Vec::new())
    );
    // a bad element fails the whole read
    assert!(from_env_str("V", "1,nope", &list_of(EnvTarget::I32)).is_err());
}

#[test]
fn options_and_errors() {
    assert_eq!(
        from_env_str(
            "V",
            "8080",
            &EnvTarget::Optional(Box::new(EnvTarget::U16))
        )
        .unwrap(),
        EnvValue::Present(Box::new(EnvValue::Unsigned(8080)))
    );

    // malformed values are an error, never a panic, and name the var
    let err = from_env_str("MYAPP_PORT", "notanumber", &EnvTarget::U16).unwrap_err();
    assert!(err.message().contains("MYAPP_PORT"), "{}", err.message());
    assert!(err.message().contains("notanumber"), "{}", err.message());
}

#[test]
fn structs_are_rejected_with_a_clear_error() {
    let err = from_env_str("V", "host=x", &EnvTarget::Struct("Server".to_string())).unwrap_err();
    assert!(err.message().contains("nested keys"), "{}", err.message());
}

#[test]
fn parse_error_carries_var_and_reason() {
    assert_eq!(
        from_env_str("MYAPP_PORT", " x ", &EnvTarget::U16).unwrap_err(),
        DotCfgError::EnvParse(
            "MYAPP_PORT".to_string(),
            "expected u16, got ' x '".to_string()
        )
    );
    assert_eq!(
        read_env_value("maybe", &EnvTarget::Bool).unwrap_err(),
        "expected bool, got 'maybe'"
    );
    assert_eq!(
        read_env_value("ab", &EnvTarget::Char).unwrap_err(),
        "expected char, got 'ab'"
    );
    assert_eq!(
        read_env_value("x", &EnvTarget::Mapping).unwrap_err(),
        "cannot read a map from an environment variable; use nested keys instead"
    );
    assert_eq!(
        read_env_value("x", &EnvTarget::Struct("Server".to_string())).unwrap_err(),
        "cannot read struct `Server` from an environment variable; use nested keys instead"
    );
    // the failing element's own text is reported
    assert_eq!(
        read_env_value("1, nope ,x", &list_of(EnvTarget::I32)).unwrap_err(),
        "expected i32, got 'nope'"
    );
}

#[test]
fn integer_ranges_follow_the_type() {
    assert_eq!(read_env_value("-128", &EnvTarget::I8).unwrap(), EnvValue::Signed(-128));
    assert_eq!(read_env_value("127", &EnvTarget::I8).unwrap(), EnvValue::Signed(127));
    assert!(read_env_value("128", &EnvTarget::I8).is_err());
    assert!(read_env_value("-129", &EnvTarget::I8).is_err());
    assert_eq!(read_env_value("+255", &EnvTarget::U8).unwrap(), EnvValue::Unsigned(255));
    assert!(read_env_value("256", &EnvTarget::U8).is_err());
    assert!(read_env_value("-0", &EnvTarget::U8).is_err());
    assert!(read_env_value("+", &EnvTarget::I64).is_err());
    assert!(read_env_value("-", &EnvTarget::I64).is_err());
    assert!(read_env_value("", &EnvTarget::U32).is_err());
    assert!(read_env_value("1 2", &EnvTarget::U32).is_err());
    assert_eq!(
        read_env_value("340282366920938463463374607431768211455", &EnvTarget::U128).unwrap(),
        EnvValue::Unsigned(u128::MAX)
    );
    assert!(read_env_value("340282366920938463463374607431768211456", &EnvTarget::U128).is_err());
    assert_eq!(
        read_env_value("-170141183460469231731687303715884105728", &EnvTarget::I128).unwrap(),
        EnvValue::Signed(i128::MIN)
    );
    assert_eq!(
        read_env_value("0007", &EnvTarget::U16).unwrap(),
        EnvValue::Unsigned(7)
    );
}

#[test]
fn float_texts_follow_the_grammar() {
    for ok in ["1", "1.", ".5", "1.5e3", "1E-3", "+2.0", "-0", "inf", "-Infinity", "NaN", "1e+10"] {
        match read_env_value(ok, &EnvTarget::F64) {
            Ok(EnvValue::Float(text)) => assert!(text.parse::<f64>().is_ok(), "{ok}"),
            other => panic!("{ok}: {:?}", other),
        }
    }
    for bad in ["", ".", "e5", "1e", "1.2.3", "1e5e5", "infinit", "1,5", "--1", "0x10"] {
        assert!(read_env_value(bad, &EnvTarget::F32).is_err(), "{bad}");
        assert!(bad.parse::<f64>().is_err(), "{bad}");
    }
}

#[test]
fn other_shapes() {
    assert_eq!(read_env_value(" x ", &EnvTarget::Char).unwrap(), EnvValue::Char('x'));
    assert_eq!(
        read_env_value(" Red ", &EnvTarget::Enum).unwrap(),
        EnvValue::Variant("Red".to_string())
    );
    assert_eq!(
        read_env_value(" raw ", &EnvTarget::Str).unwrap(),
        EnvValue::Str(" raw ".to_string())
    );
    assert_eq!(
        read_env_value("hé", &EnvTarget::Bytes).unwrap(),
        EnvValue::Bytes("hé".as_bytes().to_vec())
    );
    assert_eq!(read_env_value("anything", &EnvTarget::Unit).unwrap(), EnvValue::Unit);
    assert_eq!(
        read_env_value("5", &EnvTarget::Newtype(Box::new(EnvTarget::U8))).unwrap(),
        EnvValue::Newtype(Box::new(EnvValue::Unsigned(5)))
    );
    // a var that is set is always `Some`, even when empty
    assert_eq!(
        read_env_value("", &EnvTarget::Optional(Box::new(EnvTarget::Str))).unwrap(),
        EnvValue::Present(Box::new(EnvValue::Str(String::new())))
    );
}

#[test]
fn list_parts_split_and_trim() {
    assert_eq!(env_list_parts("a, b ,c"), vec!["a", "b", "c"]);
    assert_eq!(env_list_parts("a,,b"), vec!["a", "", "b"]);
    assert_eq!(env_list_parts(" , "), vec!["", ""]);
    assert_eq!(env_list_parts("   "), Vec::<String>::new());
    assert_eq!(env_list_parts("\u{3000}x\u{a0}"), vec!["x"]);
    assert_eq!(env_list_parts("only"), vec!["only"]);
}
