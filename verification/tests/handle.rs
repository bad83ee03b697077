use dotcfg::config::{document_or_empty, require_document, require_loaded};
use dotcfg::env::{from_env_str, EnvTarget, EnvValue};
use dotcfg::tree::Node;
use dotcfg::{DirStrategy, DotCfg, DotCfgError, EnvRead, Format};

fn env_prefix(suffix: &str) -> String {
    format!("dotcfg_t_{}", suffix)
}

#[test]
fn env_var_name_mapping() {
    let cfg = DotCfg::new("mytool").with_env_prefix("myapp");

    // flat key
    assert_eq!(cfg.env_var_name("port").unwrap(), "MYAPP_PORT");
    // nested key — dots become underscores
    assert_eq!(cfg.env_var_name("user.name").unwrap(), "MYAPP_USER_NAME");
    // already-uppercase input is left alone
    assert_eq!(cfg.env_var_name("PORT").unwrap(), "MYAPP_PORT");
    // the prefix is uppercased too
    assert_eq!(
        DotCfg::new("mytool")
            .with_env_prefix("MyApp")
            .env_var_name("port")
            .unwrap(),
        "MYAPP_PORT"
    );

    // no prefix configured — no env var to look at
    assert!(DotCfg::new("mytool").env_var_name("port").is_none());
}

#[test]
fn env_override_three_way_fallback() {
    let prefix = env_prefix("threeway");
    let var = format!("{}_PORT", prefix.to_ascii_uppercase());

    // 1. no prefix configured — environment is never consulted
    assert!(DotCfg::new("mytool")
        .env_override("port", EnvRead::Value("9000".to_string()))
        .unwrap()
        .is_none());

    let cfg = DotCfg::new("mytool").with_env_prefix(&prefix);

    // 2. prefix set and the var exists — override wins
    let (found_var, raw) = cfg
        .env_override("port", EnvRead::Value("9000".to_string()))
        .unwrap()
        .unwrap();
    assert_eq!(found_var, var);
    assert_eq!(raw, "9000");

    // 3. prefix set but this key's var is unset — fall through to the file
    assert!(cfg
        .env_override("not_set_anywhere", EnvRead::Unset)
        .unwrap()
        .is_none());
}

#[test]
fn env_override_not_unicode_is_an_error() {
    let cfg = DotCfg::new("mytool").with_env_prefix("app");
    assert_eq!(
        cfg.env_override("user.name", EnvRead::NotUnicode).unwrap_err(),
        DotCfgError::EnvNotUnicode("APP_USER_NAME".to_string())
    );
    // without a prefix the variable is never looked at
    assert!(DotCfg::new("mytool")
        .env_override("user.name", EnvRead::NotUnicode)
        .unwrap()
        .is_none());
}

#[test]
fn env_get_returns_raw_string() {
    let prefix = env_prefix("get_raw");
    let cfg = DotCfg::new("dotcfg_no_such_app").with_env_prefix(&prefix);

    // no config file exists for this app name — the override still resolves
    assert_eq!(
        cfg.get_in("username", EnvRead::Value("jane".to_string()), None).unwrap(),
        "jane"
    );

    // an unset key with no file still reports NotFound
    assert!(matches!(
        cfg.get_in("username_other", EnvRead::Unset, None).unwrap_err(),
        DotCfgError::NotFound
    ));
}

#[test]
fn env_get_as_typed_values() {
    let prefix = env_prefix("get_as");
    let cfg = DotCfg::new("dotcfg_no_such_app").with_env_prefix(&prefix);
    let read = |key: &str, value: &str, t: &EnvTarget| {
        let (var, raw) = cfg
            .env_override(key, EnvRead::Value(value.to_string()))
            .unwrap()
            .unwrap();
        from_env_str(&var, &raw, t)
    };

    assert_eq!(read("port", "9000", &EnvTarget::U16).unwrap(), EnvValue::Unsigned(9000));
    assert_eq!(read("debug", "true", &EnvTarget::Bool).unwrap(), EnvValue::Bool(true));
    assert_eq!(
        read("plugins", "fmt,lint", &EnvTarget::List(Box::new(EnvTarget::Str))).unwrap(),
        EnvValue::List(vec![
            EnvValue::Str("fmt".to_string()),
            EnvValue::Str("lint".to_string())
        ])
    );
    // nested key maps through the same transform
    assert_eq!(
        cfg.env_var_name("features.auto_update").unwrap(),
        format!("{}_FEATURES_AUTO_UPDATE", prefix.to_ascii_uppercase())
    );
    assert_eq!(
        read("features.auto_update", "false", &EnvTarget::Bool).unwrap(),
        EnvValue::Bool(false)
    );

    // a malformed override is an error, not a panic and not a silent fallback
    assert!(matches!(
        read("bad", "notanumber", &EnvTarget::U16).unwrap_err(),
        DotCfgError::EnvParse(_, _)
    ));
}

#[test]
fn builders_set_one_setting_each() {
    let cfg = DotCfg::new("mytool");
    assert_eq!(cfg.app_name(), "mytool");
    assert_eq!(cfg.strategy(), DirStrategy::Dot);
    assert_eq!(cfg.format(), Format::Toml);
    assert_eq!(cfg.file_name(), "config.toml");
    assert_eq!(cfg.dot_dir_name(), ".mytool");

    let cfg = cfg.xdg().json().filename("settings");
    assert_eq!(cfg.strategy(), DirStrategy::Xdg);
    assert_eq!(cfg.format(), Format::Json);
    assert_eq!(cfg.file_name(), "settings.json");
    assert_eq!(cfg.app_name(), "mytool");

    let cfg = cfg.yaml().dot();
    assert_eq!(cfg.strategy(), DirStrategy::Dot);
    assert_eq!(cfg.file_name(), "settings.yaml");
    assert_eq!(cfg.toml().file_name(), "settings.toml");
}

#[test]
fn format_extensions() {
    assert_eq!(Format::Toml.extension(), "toml");
    assert_eq!(Format::Json.extension(), "json");
    assert_eq!(Format::Yaml.extension(), "yaml");
}

#[test]
fn missing_file_decisions() {
    assert_eq!(require_loaded::<u16>(None).unwrap_err(), DotCfgError::NotFound);
    assert_eq!(require_loaded(Some(7u16)).unwrap(), 7);
    assert_eq!(document_or_empty(None), Node::Table(Vec::new()));
    assert_eq!(
        document_or_empty(Some(Node::Bool(true))),
        Node::Bool(true)
    );
    assert_eq!(require_document(Some(Node::Null)).unwrap(), Node::Null);
}

#[test]
fn error_messages() {
    assert_eq!(DotCfgError::NoHomeDir.message(), "Could not find home directory");
    assert_eq!(DotCfgError::NotFound.message(), "Config not found. Run setup first.");
    assert_eq!(
        DotCfgError::KeyNotFound("a.b".to_string()).message(),
        "Key not found: 'a.b'"
    );
    assert_eq!(
        DotCfgError::InvalidKey("x".to_string()).message(),
        "Invalid key: 'x'. Use 'field' or 'section.field'"
    );
    assert_eq!(
        DotCfgError::NotATable("root".to_string()).message(),
        "'root' is not a table"
    );
    assert_eq!(
        DotCfgError::EnvParse("APP_PORT".to_string(), "expected u16, got 'x'".to_string()).message(),
        "Invalid value in environment variable 'APP_PORT': expected u16, got 'x'"
    );
    assert_eq!(DotCfgError::Io("denied".to_string()).message(), "IO error: denied");
    assert_eq!(
        DotCfgError::TomlParse("bad".to_string()).message(),
        "TOML parse error: bad"
    );
    assert_eq!(DotCfgError::Json("bad".to_string()).message(), "JSON error: bad");
    assert_eq!(DotCfgError::Yaml("bad".to_string()).message(), "YAML error: bad");
}
