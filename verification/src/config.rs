//! The `DotCfg` handle: which app, which directory layout, which file format
//! and file name, and which environment prefix overrides per-key reads.

use vstd::prelude::*;
use vstd::string::*;

use crate::error::DotCfgError;
use crate::format::{
    composite_text, document_of, parse_document, parse_error, render_composite, render_document,
    render_error, text_of,
};
use crate::text::{
    ascii_upper, env_segment, is_ascii_lower, lemma_ascii_upper, replace_char, to_ascii_upper,
};
use crate::tree::{
    can_set, empty_table, lookup_error, node_at, node_set, node_text, scalar_text,
    set_error, set_node, take_node, Node,
};

verus! {

/// Where the config folder lives
#[derive(Debug, Clone, Copy, PartialEq, Eq, Structural)]
pub enum DirStrategy {
    /// `~/.toolname/` — like `.cargo`, `.ssh`, `.git`
    Dot,
    /// `~/.config/toolname/` — XDG standard
    Xdg,
}

/// Config file format
#[derive(Debug, Clone, Copy, PartialEq, Eq, Structural)]
pub enum Format {
    Toml,
    Json,
    Yaml,
}

/// The file extension of a format.
pub open spec fn format_ext(f: Format) -> Seq<char> {
    match f {
        Format::Toml => "toml"@,
        Format::Json => "json"@,
        Format::Yaml => "yaml"@,
    }
}

impl Format {
    /// The file extension of this format: `toml`, `json` or `yaml`.
    pub fn extension(&self) -> (r: &'static str)
        ensures
            r@ == format_ext(*self),
    {
        match self {
            Format::Toml => "toml",
            Format::Json => "json",
            Format::Yaml => "yaml",
        }
    }
}

/// What reading an environment variable gave.
#[derive(Debug, Clone, PartialEq)]
pub enum EnvRead {
    /// The variable is not set.
    Unset,
    /// The variable is set to this value.
    Value(String),
    /// The variable is set, to something that is not valid unicode.
    NotUnicode,
}

/// The name of the environment variable that overrides `key` under `prefix`:
/// `<PREFIX>_<KEY>`, upper-cased, with every `.` of the key replaced by `_`.
pub open spec fn env_name(prefix: Seq<char>, key: Seq<char>) -> Seq<char> {
    ascii_upper(prefix) + seq!['_'] + ascii_upper(replace_char(key, '.', '_'))
}

/// Law: the environment variable that overrides a key is named in upper case:
/// it is the prefix, `_`, and the key with each `.` made `_`, each character
/// upper-cased where it is an ASCII lower-case letter, so that no character of
/// the name is an ASCII lower-case letter.
pub proof fn lemma_env_name_upper(prefix: Seq<char>, key: Seq<char>)
    ensures
        env_name(prefix, key).len() == prefix.len() + 1 + key.len(),
        forall|i: int|
            0 <= i < env_name(prefix, key).len() ==> !is_ascii_lower(#[trigger] env_name(prefix, key)[i]),
        env_name(prefix, key)[prefix.len() as int] == '_',
        forall|i: int|
            0 <= i < prefix.len() && is_ascii_lower(prefix[i]) ==> #[trigger] env_name(prefix, key)[i] as u32
                == prefix[i] as u32 - 32,
        forall|i: int|
            0 <= i < prefix.len() && !is_ascii_lower(prefix[i]) ==> #[trigger] env_name(prefix, key)[i]
                == prefix[i],
        forall|i: int|
            0 <= i < key.len() && key[i] == '.' ==> #[trigger] env_name(prefix, key)[prefix.len() + 1 + i]
                == '_',
        forall|i: int|
            0 <= i < key.len() && is_ascii_lower(key[i]) ==> #[trigger] env_name(prefix, key)[prefix.len()
                + 1 + i] as u32 == key[i] as u32 - 32,
{
    let k2 = replace_char(key, '.', '_');
    lemma_ascii_upper(prefix);
    lemma_ascii_upper(k2);
    let n = env_name(prefix, key);
    let a = ascii_upper(prefix);
    let b = ascii_upper(k2);
    assert forall|i: int| 0 <= i < n.len() implies !is_ascii_lower(#[trigger] n[i]) by {
        if i < prefix.len() {
            assert(n[i] == a[i]);
        } else if i > prefix.len() {
            assert(n[i] == b[i - prefix.len() - 1]);
        }
    }
    assert forall|i: int|
        0 <= i < prefix.len() && is_ascii_lower(prefix[i]) implies #[trigger] n[i] as u32 == prefix[i]
            as u32 - 32 by {
        assert(n[i] == a[i]);
    }
    assert forall|i: int| 0 <= i < prefix.len() && !is_ascii_lower(prefix[i]) implies #[trigger] n[i]
        == prefix[i] by {
        assert(n[i] == a[i]);
    }
    assert forall|i: int| 0 <= i < key.len() && key[i] == '.' implies #[trigger] n[prefix.len() + 1 + i]
        == '_' by {
        assert(n[prefix.len() + 1 + i] == b[i]);
        assert(k2[i] == '_');
    }
    assert forall|i: int|
        0 <= i < key.len() && is_ascii_lower(key[i]) implies #[trigger] n[prefix.len() + 1 + i] as u32
            == key[i] as u32 - 32 by {
        assert(n[prefix.len() + 1 + i] == b[i]);
        assert(k2[i] == key[i]);
    }
}

/// The text of a config file as a character sequence, when there is a file.
pub open spec fn file_view(file: Option<&str>) -> Option<Seq<char>> {
    match file {
        Some(c) => Some(c@),
        None => None,
    }
}

/// Whether an environment reading decides a per-key read (a prefix is
/// configured and the variable is set, readable or not), so that the config
/// file is not looked at.
pub open spec fn env_decides(prefix: Option<Seq<char>>, read: EnvRead) -> bool {
    prefix is Some && !(read is Unset)
}

/// `r` is what `get()` gives for `key` from the config file `file` of
/// `format`: `NotFound` without a file, the parser's error for text that does
/// not parse, the lookup error when the key names nothing, and otherwise the
/// value's text (a scalar's own text, or a list's, table's or tagged value's
/// text as the format writes it).
pub open spec fn file_text_result(
    format: Format,
    file: Option<Seq<char>>,
    key: Seq<char>,
    r: Result<String, DotCfgError>,
) -> bool {
    match file {
        None => r == Err::<String, DotCfgError>(DotCfgError::NotFound),
        Some(c) => match document_of(format, c) {
            Err(m) => r matches Err(e) && parse_error(format, e, m),
            Ok(doc) => match node_at(doc, key) {
                None => r matches Err(e) && lookup_error(key, e),
                Some(n) => r matches Ok(t) && t@ == match scalar_text(n) {
                    Some(x) => x,
                    None => composite_text(format, n),
                },
            },
        },
    }
}

/// What a typed per-key read found: an environment override, to be read by
/// the caller's type, or the value node from the config file.
#[derive(Debug, PartialEq)]
pub enum Found {
    /// The variable's name and raw value.
    Override(String, String),
    /// The value node at the key.
    Value(Node),
}

/// `r` is what a typed read of `key` finds in the config file `file` of
/// `format` (as in [`file_text_result`], with the node in place of its text).
pub open spec fn file_node_result(
    format: Format,
    file: Option<Seq<char>>,
    key: Seq<char>,
    r: Result<Found, DotCfgError>,
) -> bool {
    match file {
        None => r == Err::<Found, DotCfgError>(DotCfgError::NotFound),
        Some(c) => match document_of(format, c) {
            Err(m) => r matches Err(e) && parse_error(format, e, m),
            Ok(doc) => match node_at(doc, key) {
                None => r matches Err(e) && lookup_error(key, e),
                Some(n) => r == Ok::<Found, DotCfgError>(Found::Value(n)),
            },
        },
    }
}

/// `r` is what writing `v` under `key` into the document `d0` and writing the
/// result as `format` gives: the write's error when it cannot be made, else
/// the new file text (or the writer's error) of the written document.
pub open spec fn write_on(format: Format, d0: Node, key: Seq<char>, v: Node, r: Result<String, DotCfgError>) -> bool {
    if !can_set(d0, key) {
        r matches Err(e) && set_error(d0, key, e)
    } else {
        exists|d: Node|
            #[trigger] node_set(d0, d, key, v) && match text_of(format, d) {
                Ok(t) => r matches Ok(x) && x@ == t,
                Err(m) => r matches Err(e) && render_error(format, e, m),
            }
    }
}

/// `r` is what writing `v` under `key` into the config file `file` of
/// `format` gives: the parser's error for text that does not parse, else the
/// write into the parsed document, or into an empty table without a file.
pub open spec fn write_result(
    format: Format,
    file: Option<Seq<char>>,
    key: Seq<char>,
    v: Node,
    r: Result<String, DotCfgError>,
) -> bool {
    match file {
        Some(c) => match document_of(format, c) {
            Err(m) => r matches Err(e) && parse_error(format, e, m),
            Ok(d0) => write_on(format, d0, key, v, r),
        },
        None => exists|d0: Node|
            (d0 matches Node::Table(es) && es@.len() == 0) && #[trigger] write_on(format, d0, key, v, r),
    }
}

/// Law: a write into a config file that cannot be made gives no new file
/// text: a file that does not parse gives the parser's error, and a key that
/// cannot be written into the parsed document (its root or its section is no
/// table, or the key has a second `.`) gives the write's error.
pub proof fn lemma_refused_write_gives_no_text(
    format: Format,
    content: Seq<char>,
    key: Seq<char>,
    v: Node,
    r: Result<String, DotCfgError>,
)
    requires
        write_result(format, Some(content), key, v, r),
    ensures
        document_of(format, content) matches Err(m) ==> (r matches Err(e) && parse_error(
            format,
            e,
            m,
        )),
        document_of(format, content) matches Ok(d0) ==> (!can_set(d0, key) ==> (r matches Err(e)
            && set_error(d0, key, e))),
{
}

/// The main dotcfg handle. Create one per app.
///
/// Defaults: `~/.appname/config.toml`, no environment overrides.
pub struct DotCfg {
    app_name: String,
    strategy: DirStrategy,
    format: Format,
    filename: String,
    env_prefix: Option<String>,
}

impl DotCfg {
    /// The app name.
    pub closed spec fn app_name_view(&self) -> Seq<char> {
        self.app_name@
    }

    /// Where the config folder lives.
    pub closed spec fn strategy_view(&self) -> DirStrategy {
        self.strategy
    }

    /// The config file format.
    pub closed spec fn format_view(&self) -> Format {
        self.format
    }

    /// The config file name, without extension.
    pub closed spec fn filename_view(&self) -> Seq<char> {
        self.filename@
    }

    /// The prefix of the environment variables that override reads, if any.
    pub closed spec fn env_prefix_view(&self) -> Option<Seq<char>> {
        match self.env_prefix {
            Some(p) => Some(p@),
            None => None,
        }
    }

    /// Create a new DotCfg for your app.
    /// Defaults: `~/.appname/config.toml`, no auto-create.
    pub fn new(app_name: &str) -> (r: Self)
        ensures
            r.app_name_view() == app_name@,
            r.strategy_view() == DirStrategy::Dot,
            r.format_view() == Format::Toml,
            r.filename_view() == "config"@,
            r.env_prefix_view() is None,
    {
        DotCfg {
            app_name: String::from_str(app_name),
            strategy: DirStrategy::Dot,
            format: Format::Toml,
            filename: String::from_str("config"),
            env_prefix: None,
        }
    }

    /// Use `~/.config/toolname/` (XDG)
    pub fn xdg(self) -> (r: Self)
        ensures
            r.strategy_view() == DirStrategy::Xdg,
            r.app_name_view() == self.app_name_view(),
            r.format_view() == self.format_view(),
            r.filename_view() == self.filename_view(),
            r.env_prefix_view() == self.env_prefix_view(),
    {
        DotCfg { strategy: DirStrategy::Xdg, ..self }
    }

    /// Use `~/.toolname/` (default)
    pub fn dot(self) -> (r: Self)
        ensures
            r.strategy_view() == DirStrategy::Dot,
            r.app_name_view() == self.app_name_view(),
            r.format_view() == self.format_view(),
            r.filename_view() == self.filename_view(),
            r.env_prefix_view() == self.env_prefix_view(),
    {
        DotCfg { strategy: DirStrategy::Dot, ..self }
    }

    /// Use JSON format
    pub fn json(self) -> (r: Self)
        ensures
            r.format_view() == Format::Json,
            r.app_name_view() == self.app_name_view(),
            r.strategy_view() == self.strategy_view(),
            r.filename_view() == self.filename_view(),
            r.env_prefix_view() == self.env_prefix_view(),
    {
        DotCfg { format: Format::Json, ..self }
    }

    /// Use YAML format
    pub fn yaml(self) -> (r: Self)
        ensures
            r.format_view() == Format::Yaml,
            r.app_name_view() == self.app_name_view(),
            r.strategy_view() == self.strategy_view(),
            r.filename_view() == self.filename_view(),
            r.env_prefix_view() == self.env_prefix_view(),
    {
        DotCfg { format: Format::Yaml, ..self }
    }

    /// Use TOML format (default)
    pub fn toml(self) -> (r: Self)
        ensures
            r.format_view() == Format::Toml,
            r.app_name_view() == self.app_name_view(),
            r.strategy_view() == self.strategy_view(),
            r.filename_view() == self.filename_view(),
            r.env_prefix_view() == self.env_prefix_view(),
    {
        DotCfg { format: Format::Toml, ..self }
    }

    /// Set the config filename (without extension). Default is `"config"`.
    pub fn filename(self, name: &str) -> (r: Self)
        ensures
            r.filename_view() == name@,
            r.app_name_view() == self.app_name_view(),
            r.strategy_view() == self.strategy_view(),
            r.format_view() == self.format_view(),
            r.env_prefix_view() == self.env_prefix_view(),
    {
        DotCfg { filename: String::from_str(name), ..self }
    }

    /// Let environment variables override per-key reads.
    ///
    /// Once a prefix is set, `get` and `get_as` check the environment first and
    /// only fall back to the config file when the variable is unset. Opt-in:
    /// without this, the environment is never read. A key maps to
    /// `<PREFIX>_<KEY>`, uppercased, with `.` replaced by `_` (see
    /// [`Self::env_var_name`]). Writes are unaffected.
    pub fn with_env_prefix(self, prefix: &str) -> (r: Self)
        ensures
            r.env_prefix_view() == Some(prefix@),
            r.app_name_view() == self.app_name_view(),
            r.strategy_view() == self.strategy_view(),
            r.format_view() == self.format_view(),
            r.filename_view() == self.filename_view(),
    {
        DotCfg { env_prefix: Some(String::from_str(prefix)), ..self }
    }

    /// The app name.
    pub fn app_name(&self) -> (r: &str)
        ensures
            r@ == self.app_name_view(),
    {
        self.app_name.as_str()
    }

    /// Where the config folder lives.
    pub fn strategy(&self) -> (r: DirStrategy)
        ensures
            r == self.strategy_view(),
    {
        self.strategy
    }

    /// The config file format.
    pub fn format(&self) -> (r: Format)
        ensures
            r == self.format_view(),
    {
        self.format
    }

    /// The name of the config directory under the home directory for the
    /// `Dot` layout: `.` and the app name.
    pub fn dot_dir_name(&self) -> (r: String)
        ensures
            r@ == seq!['.'] + self.app_name_view(),
    {
        let mut r = String::from_str(".");
        proof {
            reveal_strlit(".");
        }
        r.append(self.app_name.as_str());
        r
    }

    /// The config file name: the file name, `.` and the format's extension.
    pub fn file_name(&self) -> (r: String)
        ensures
            r@ == self.filename_view() + seq!['.'] + format_ext(self.format_view()),
    {
        let mut r = String::from_str(self.filename.as_str());
        r.append(".");
        proof {
            reveal_strlit(".");
        }
        r.append(self.format.extension());
        r
    }

    /// The env var name `key` maps to, or `None` when no prefix is configured.
    ///
    /// Single source of truth for the mapping — both read paths go through it.
    pub fn env_var_name(&self, key: &str) -> (r: Option<String>)
        ensures
            match self.env_prefix_view() {
                None => r is None,
                Some(p) => r matches Some(n) && n@ == env_name(p, key@),
            },
    {
        match &self.env_prefix {
            None => None,
            Some(prefix) => {
                let mut name = to_ascii_upper(prefix.as_str());
                name.append("_");
                proof {
                    reveal_strlit("_");
                }
                let tail = env_segment(key);
                name.append(tail.as_str());
                Some(name)
            },
        }
    }

    /// The environment override for `key`, as `(var name, raw value)`, given
    /// what reading the variable named by [`Self::env_var_name`] gave.
    ///
    /// `Ok(None)` means "no prefix configured, or the var is unset" — i.e. fall
    /// through to the file (`read` is then not looked at when there is no
    /// prefix). A var that is set but unreadable is an error rather than a
    /// silent fallback, so a misconfigured environment stays visible.
    pub fn env_override(&self, key: &str, read: EnvRead) -> (r: Result<Option<(String, String)>, DotCfgError>)
        ensures
            match self.env_prefix_view() {
                None => r == Ok::<Option<(String, String)>, DotCfgError>(None),
                Some(p) => match read {
                    EnvRead::Unset => r == Ok::<Option<(String, String)>, DotCfgError>(None),
                    EnvRead::Value(raw) => r matches Ok(Some((n, v))) && n@ == env_name(p, key@)
                        && v@ == raw@,
                    EnvRead::NotUnicode => r matches Err(DotCfgError::EnvNotUnicode(n)) && n@
                        == env_name(p, key@),
                },
            },
    {
        let var = match self.env_var_name(key) {
            Some(v) => v,
            None => return Ok(None),
        };
        match read {
            EnvRead::Value(raw) => Ok(Some((var, raw))),
            EnvRead::Unset => Ok(None),
            EnvRead::NotUnicode => Err(DotCfgError::EnvNotUnicode(var)),
        }
    }
}

impl DotCfg {
    /// Whether the environment reading `read` decides a per-key read, so that
    /// the config file need not be read.
    pub fn env_decides(&self, read: &EnvRead) -> (r: bool)
        ensures
            r == env_decides(self.env_prefix_view(), *read),
    {
        self.env_prefix.is_some() && !matches!(read, EnvRead::Unset)
    }

    /// Get a single config value by key, as a `String`: `read` is what reading
    /// the key's environment variable gave, `file` the config file's text
    /// (`None` when there is no config file).
    ///
    /// With a prefix set and the variable set, its raw value is returned as it
    /// is and the file is not looked at.
    pub fn get_in(&self, key: &str, read: EnvRead, file: Option<&str>) -> (r: Result<String, DotCfgError>)
        ensures
            match (self.env_prefix_view(), read) {
                (Some(p), EnvRead::Value(raw)) => r matches Ok(t) && t@ == raw@,
                (Some(p), EnvRead::NotUnicode) => r matches Err(DotCfgError::EnvNotUnicode(n)) && n@
                    == env_name(p, key@),
                _ => file_text_result(self.format_view(), file_view(file), key@, r),
            },
    {
        match self.env_override(key, read) {
            Err(e) => return Err(e),
            Ok(Some((_, raw))) => return Ok(raw),
            Ok(None) => {},
        }
        let parsed = match file {
            Some(c) => Some(parse_document(self.format, c)?),
            None => None,
        };
        let doc = require_document(parsed)?;
        let node = take_node(doc, key)?;
        match node_text(&node) {
            Some(t) => Ok(t),
            None => Ok(render_composite(self.format, &node)),
        }
    }

    /// Find the value of a typed per-key read: the environment override, or the
    /// value node from the config file `file` (see [`Self::get_in`]).
    pub fn get_node_in(&self, key: &str, read: EnvRead, file: Option<&str>) -> (r: Result<Found, DotCfgError>)
        ensures
            match (self.env_prefix_view(), read) {
                (Some(p), EnvRead::Value(raw)) => r matches Ok(Found::Override(n, v)) && n@ == env_name(
                    p,
                    key@,
                ) && v@ == raw@,
                (Some(p), EnvRead::NotUnicode) => r matches Err(DotCfgError::EnvNotUnicode(n)) && n@
                    == env_name(p, key@),
                _ => file_node_result(self.format_view(), file_view(file), key@, r),
            },
    {
        match self.env_override(key, read) {
            Err(e) => return Err(e),
            Ok(Some((var, raw))) => return Ok(Found::Override(var, raw)),
            Ok(None) => {},
        }
        let parsed = match file {
            Some(c) => Some(parse_document(self.format, c)?),
            None => None,
        };
        let doc = require_document(parsed)?;
        let node = take_node(doc, key)?;
        Ok(Found::Value(node))
    }

    /// Write the value node `new_val` under `key` into the config file `file`
    /// (`None` when there is none yet): the new file text. Every other key is
    /// preserved; the environment is not involved.
    pub fn set_node_in(&self, key: &str, new_val: Node, file: Option<&str>) -> (r: Result<String, DotCfgError>)
        ensures
            write_result(self.format_view(), file_view(file), key@, new_val, r),
    {
        let ghost v = new_val;
        let parsed = match file {
            Some(c) => Some(parse_document(self.format, c)?),
            None => None,
        };
        let mut doc = document_or_empty(parsed);
        let ghost d0 = doc;
        match set_node(&mut doc, key, new_val) {
            Err(e) => {
                proof {
                    assert(write_on(self.format_view(), d0, key@, v, Err::<String, DotCfgError>(e)));
                }
                Err(e)
            },
            Ok(()) => {
                let r = render_document(self.format, &doc);
                proof {
                    assert(node_set(d0, doc, key@, v));
                    assert(write_on(self.format_view(), d0, key@, v, r));
                }
                r
            },
        }
    }

    /// Write the string `value` under `key` into the config file `file`: the
    /// new file text (see [`Self::set_node_in`]).
    pub fn set_in(&self, key: &str, value: &str, file: Option<&str>) -> (r: Result<String, DotCfgError>)
        ensures
            exists|s: String| s@ == value@ && #[trigger] write_result(
                self.format_view(),
                file_view(file),
                key@,
                Node::Str(s),
                r,
            ),
    {
        let s = String::from_str(value);
        let ghost sv = s;
        let r = self.set_node_in(key, Node::Str(s), file);
        assert(write_result(self.format_view(), file_view(file), key@, Node::Str(sv), r));
        r
    }
}

/// The document to read keys from: the parsed config file, or `NotFound` when
/// there is no config file.
pub fn require_document(file: Option<Node>) -> (r: Result<Node, DotCfgError>)
    ensures
        match file {
            Some(doc) => r == Ok::<Node, DotCfgError>(doc),
            None => r == Err::<Node, DotCfgError>(DotCfgError::NotFound),
        },
{
    match file {
        Some(doc) => Ok(doc),
        None => Err(DotCfgError::NotFound),
    }
}

/// The document to write a key into: the parsed config file, or an empty table
/// when there is no config file yet.
pub fn document_or_empty(file: Option<Node>) -> (r: Node)
    ensures
        match file {
            Some(doc) => r == doc,
            None => r matches Node::Table(es) && es@.len() == 0,
        },
{
    match file {
        Some(doc) => doc,
        None => empty_table(),
    }
}

/// The loaded config, or `NotFound` when there is none (`load_or_error`).
pub fn require_loaded<T>(loaded: Option<T>) -> (r: Result<T, DotCfgError>)
    ensures
        match loaded {
            Some(c) => r == Ok::<T, DotCfgError>(c),
            None => r == Err::<T, DotCfgError>(DotCfgError::NotFound),
        },
{
    match loaded {
        Some(c) => Ok(c),
        None => Err(DotCfgError::NotFound),
    }
}

} // verus!
