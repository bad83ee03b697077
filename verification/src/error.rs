//! Error types for `dotcfg`.

use vstd::prelude::*;
use vstd::string::*;

verus! {

/// Errors returned by [`DotCfg`](crate::DotCfg) operations.
///
/// Errors raised by the file system or by a format's parser or serializer are
/// carried as the message that the failing component reported.
#[derive(Debug, Clone, PartialEq)]
pub enum DotCfgError {
    /// Could not find home directory (`$HOME` not set or resolvable).
    NoHomeDir,
    /// Config file does not exist at the expected path.
    NotFound,
    /// Requested key does not exist in the config file.
    KeyNotFound(String),
    /// Key syntax is invalid. Use `field` or `section.field`.
    InvalidKey(String),
    /// Expected a table/section but found a different value type.
    NotATable(String),
    /// An environment override variable is set but does not hold valid unicode.
    EnvNotUnicode(String),
    /// An environment override variable holds a value that cannot be read as the
    /// requested type: the variable's name and what went wrong.
    EnvParse(String, String),
    /// Underlying IO error (read/write/create dir).
    Io(String),
    /// TOML parsing failed.
    TomlParse(String),
    /// TOML serialization failed.
    TomlSerialize(String),
    /// JSON (de)serialization failed.
    Json(String),
    /// YAML (de)serialization failed.
    Yaml(String),
}

/// The text that describes an error to a user.
pub open spec fn error_message(e: DotCfgError) -> Seq<char> {
    match e {
        DotCfgError::NoHomeDir => "Could not find home directory"@,
        DotCfgError::NotFound => "Config not found. Run setup first."@,
        DotCfgError::KeyNotFound(k) => "Key not found: '"@ + k@ + "'"@,
        DotCfgError::InvalidKey(k) => "Invalid key: '"@ + k@ + "'. Use 'field' or 'section.field'"@,
        DotCfgError::NotATable(s) => "'"@ + s@ + "' is not a table"@,
        DotCfgError::EnvNotUnicode(v) => "Environment variable '"@ + v@ + "' is not valid unicode"@,
        DotCfgError::EnvParse(v, m) => "Invalid value in environment variable '"@ + v@ + "': "@ + m@,
        DotCfgError::Io(m) => "IO error: "@ + m@,
        DotCfgError::TomlParse(m) => "TOML parse error: "@ + m@,
        DotCfgError::TomlSerialize(m) => "TOML serialize error: "@ + m@,
        DotCfgError::Json(m) => "JSON error: "@ + m@,
        DotCfgError::Yaml(m) => "YAML error: "@ + m@,
    }
}

/// `a`, then `b`.
fn join2(a: &str, b: &str) -> (r: String)
    ensures
        r@ == a@ + b@,
{
    let mut r = String::from_str(a);
    r.append(b);
    r
}

/// `a`, then `b`, then `c`.
fn join3(a: &str, b: &str, c: &str) -> (r: String)
    ensures
        r@ == a@ + b@ + c@,
{
    let mut r = String::from_str(a);
    r.append(b);
    r.append(c);
    r
}

impl DotCfgError {
    /// The human-readable description of this error.
    pub fn message(&self) -> (r: String)
        ensures
            r@ == error_message(*self),
    {
        match self {
            DotCfgError::NoHomeDir => String::from_str("Could not find home directory"),
            DotCfgError::NotFound => String::from_str("Config not found. Run setup first."),
            DotCfgError::KeyNotFound(k) => join3("Key not found: '", k.as_str(), "'"),
            DotCfgError::InvalidKey(k) => join3(
                "Invalid key: '",
                k.as_str(),
                "'. Use 'field' or 'section.field'",
            ),
            DotCfgError::NotATable(s) => join3("'", s.as_str(), "' is not a table"),
            DotCfgError::EnvNotUnicode(v) => join3(
                "Environment variable '",
                v.as_str(),
                "' is not valid unicode",
            ),
            DotCfgError::EnvParse(v, m) => {
                let mut r = join3("Invalid value in environment variable '", v.as_str(), "': ");
                r.append(m.as_str());
                r
            },
            DotCfgError::Io(m) => join2("IO error: ", m.as_str()),
            DotCfgError::TomlParse(m) => join2("TOML parse error: ", m.as_str()),
            DotCfgError::TomlSerialize(m) => join2("TOML serialize error: ", m.as_str()),
            DotCfgError::Json(m) => join2("JSON error: ", m.as_str()),
            DotCfgError::Yaml(m) => join2("YAML error: ", m.as_str()),
        }
    }
}

} // verus!
