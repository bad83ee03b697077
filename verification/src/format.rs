//! Parsing config file text into a document tree and writing a tree back as
//! text, through each format's crate (`toml`, `serde_json`, `serde_yaml_ng`).
//!
//! Which trees a format can write is decided here ([`node_form`],
//! [`has_form`]); what a format's parser or writer gives is named, not
//! restated: the `*_document`, `*_text` and `*_composite` spec functions below
//! stand for the results of those crates' calls on the given input.

use vstd::prelude::*;
use vstd::string::*;

use crate::config::Format;
use crate::error::DotCfgError;
use crate::parse::{float_check, is_float_text};
use crate::text::{chars_of, trim_end, trim_end_str};
use crate::tree::{FloatRepr, Node};

verus! {

#[verifier::external_type_specification]
#[verifier::external_body]
pub struct ExTomlValue(toml::Value);

#[verifier::external_type_specification]
#[verifier::external_body]
pub struct ExJsonValue(serde_json::Value);

#[verifier::external_type_specification]
#[verifier::external_body]
pub struct ExYamlValue(serde_yaml_ng::Value);

/// What `toml::from_str::<toml::Value>` gives for `content`, as a document
/// tree, or its error message.
pub uninterp spec fn toml_document(content: Seq<char>) -> Result<Node, Seq<char>>;

/// What `serde_json::from_str::<serde_json::Value>` gives for `content`, as a
/// document tree, or its error message.
pub uninterp spec fn json_document(content: Seq<char>) -> Result<Node, Seq<char>>;

/// What `serde_yaml_ng::from_str::<serde_yaml_ng::Value>` gives for
/// `content`, as a document tree, or its error message.
pub uninterp spec fn yaml_document(content: Seq<char>) -> Result<Node, Seq<char>>;

/// What `toml::to_string_pretty` writes for the document `doc` (one that TOML
/// can write, see [`node_form`]), or its error message.
pub uninterp spec fn toml_text(doc: Node) -> Result<Seq<char>, Seq<char>>;

/// What `serde_json::to_string_pretty` writes for the document `doc` (one that
/// JSON can write), or its error message.
pub uninterp spec fn json_text(doc: Node) -> Result<Seq<char>, Seq<char>>;

/// What `serde_yaml_ng::to_string` writes for the document `doc` (one that
/// YAML can write), or its error message.
pub uninterp spec fn yaml_text(doc: Node) -> Result<Seq<char>, Seq<char>>;

/// What `toml::to_string` writes for the value `n` (one that TOML can write),
/// empty when it fails.
pub uninterp spec fn toml_composite(n: Node) -> Seq<char>;

/// What `serde_json::to_string` writes for the value `n` (one that JSON can
/// write), empty when it fails.
pub uninterp spec fn json_composite(n: Node) -> Seq<char>;

/// What `serde_yaml_ng::to_string` writes for the value `n` (one that YAML can
/// write), empty when it fails.
pub uninterp spec fn yaml_composite(n: Node) -> Seq<char>;

/// Whether `n` is a value that documents of `format` hold, so that the format
/// can write it:
/// - TOML has no null and no tags; its integers are signed 64-bit, its floats
///   are written from float text, and its table keys are strings;
/// - JSON has no date-times and no tags, and its object keys are strings;
/// - YAML has no date-times, its tags are not empty, and its mapping keys are
///   any value it can write.
pub open spec fn node_form(format: Format, n: Node) -> bool
    decreases n,
{
    match n {
        Node::Null => format != Format::Toml,
        Node::Bool(_) => true,
        Node::Int(_) => true,
        Node::Str(_) => true,
        Node::UInt(u) => format != Format::Toml || u <= 0x7fff_ffff_ffff_ffffu64,
        Node::Float(f) => format != Format::Toml || is_float_text(f.text@),
        Node::Datetime(_) => format == Format::Toml,
        Node::List(items) => forall|i: int|
            #![trigger items@[i]]
            0 <= i < items@.len() ==> node_form(format, items@[i]),
        Node::Table(es) => forall|i: int|
            #![trigger es@[i]]
            0 <= i < es@.len() ==> node_form(format, es@[i].1) && if format == Format::Yaml {
                node_form(format, es@[i].0)
            } else {
                es@[i].0 is Str
            },
        Node::Tagged(t, inner) => format == Format::Yaml && t@.len() > 0 && node_form(format, *inner),
    }
}

/// Law: TOML can write every kind of value its documents hold: strings,
/// signed integers, unsigned ones up to `i64::MAX`, booleans, date-times,
/// floats kept as float text, arrays of values it can write (arrays of tables
/// among them), and tables from string keys to values it can write; it cannot
/// write null or a tagged value.
pub proof fn lemma_toml_forms(n: Node)
    ensures
        n is Str || n is Int || n is Bool || n is Datetime ==> node_form(Format::Toml, n),
        n matches Node::UInt(u) ==> (node_form(Format::Toml, n) <==> u <= i64::MAX),
        (n matches Node::Float(f) && is_float_text(f.text@)) ==> node_form(Format::Toml, n),
        (n matches Node::List(items) && forall|i: int|
            0 <= i < items@.len() ==> node_form(Format::Toml, #[trigger] items@[i])) ==> node_form(
            Format::Toml,
            n,
        ),
        (n matches Node::Table(es) && forall|i: int|
            0 <= i < es@.len() ==> (#[trigger] es@[i]).0 is Str && node_form(Format::Toml, es@[i].1))
            ==> node_form(Format::Toml, n),
        n is Null || n is Tagged ==> !node_form(Format::Toml, n),
{
}

/// Law: JSON can write null, booleans, every integer and float, strings,
/// arrays of values it can write, and objects from string keys to values it
/// can write; it cannot write a date-time or a tagged value.
pub proof fn lemma_json_forms(n: Node)
    ensures
        n is Null || n is Bool || n is Int || n is UInt || n is Float || n is Str ==> node_form(
            Format::Json,
            n,
        ),
        (n matches Node::List(items) && forall|i: int|
            0 <= i < items@.len() ==> node_form(Format::Json, #[trigger] items@[i])) ==> node_form(
            Format::Json,
            n,
        ),
        (n matches Node::Table(es) && forall|i: int|
            0 <= i < es@.len() ==> (#[trigger] es@[i]).0 is Str && node_form(Format::Json, es@[i].1))
            ==> node_form(Format::Json, n),
        n is Datetime || n is Tagged ==> !node_form(Format::Json, n),
{
}

/// Law: YAML can write null, booleans, every integer and float, strings,
/// sequences of values it can write, mappings between values it can write,
/// and a value it can write under a tag that is not empty; it cannot write a
/// date-time, nor anything under an empty tag.
pub proof fn lemma_yaml_forms(n: Node)
    ensures
        n is Null || n is Bool || n is Int || n is UInt || n is Float || n is Str ==> node_form(
            Format::Yaml,
            n,
        ),
        (n matches Node::List(items) && forall|i: int|
            0 <= i < items@.len() ==> node_form(Format::Yaml, #[trigger] items@[i])) ==> node_form(
            Format::Yaml,
            n,
        ),
        (n matches Node::Table(es) && forall|i: int|
            0 <= i < es@.len() ==> node_form(Format::Yaml, (#[trigger] es@[i]).0) && node_form(
                Format::Yaml,
                es@[i].1,
            )) ==> node_form(Format::Yaml, n),
        (n matches Node::Tagged(t, inner) && t@.len() > 0 && node_form(Format::Yaml, *inner))
            ==> node_form(Format::Yaml, n),
        (n matches Node::Tagged(t, _) && t@.len() == 0) ==> !node_form(Format::Yaml, n),
        n is Datetime ==> !node_form(Format::Yaml, n),
{
}

/// The message of a write of a value that `format` cannot write.
pub open spec fn form_message(format: Format) -> Seq<char> {
    match format {
        Format::Toml => "the value has no TOML form"@,
        Format::Json => "the value has no JSON form"@,
        Format::Yaml => "the value has no YAML form"@,
    }
}

/// The document that `content` parses to in `format`, or the parser's message.
pub open spec fn document_of(format: Format, content: Seq<char>) -> Result<Node, Seq<char>> {
    match format {
        Format::Toml => toml_document(content),
        Format::Json => json_document(content),
        Format::Yaml => yaml_document(content),
    }
}

/// The file text that `format` writes for `doc`, or the writer's message
/// ([`form_message`] for a document the format cannot write).
pub open spec fn text_of(format: Format, doc: Node) -> Result<Seq<char>, Seq<char>> {
    if !node_form(format, doc) {
        Err(form_message(format))
    } else {
        match format {
            Format::Toml => toml_text(doc),
            Format::Json => json_text(doc),
            Format::Yaml => yaml_text(doc),
        }
    }
}

/// The text `get()` gives for a list, table or tagged value in `format`: the
/// value as the format writes it (YAML without its trailing newline), empty
/// for a value the format cannot write.
pub open spec fn composite_text(format: Format, n: Node) -> Seq<char> {
    if !node_form(format, n) {
        Seq::empty()
    } else {
        match format {
            Format::Toml => toml_composite(n),
            Format::Json => json_composite(n),
            Format::Yaml => trim_end(yaml_composite(n)),
        }
    }
}

/// `e` is the error that `format`'s parser reports with the message `m`.
pub open spec fn parse_error(format: Format, e: DotCfgError, m: Seq<char>) -> bool {
    match format {
        Format::Toml => e matches DotCfgError::TomlParse(x) && x@ == m,
        Format::Json => e matches DotCfgError::Json(x) && x@ == m,
        Format::Yaml => e matches DotCfgError::Yaml(x) && x@ == m,
    }
}

/// `e` is the error that `format`'s writer reports with the message `m`.
pub open spec fn render_error(format: Format, e: DotCfgError, m: Seq<char>) -> bool {
    match format {
        Format::Toml => e matches DotCfgError::TomlSerialize(x) && x@ == m,
        Format::Json => e matches DotCfgError::Json(x) && x@ == m,
        Format::Yaml => e matches DotCfgError::Yaml(x) && x@ == m,
    }
}

// ---------------------------------------------------------------------------
// The library's decisions on values: which trees a format can write, and which
// kind of number a format's number becomes
// ---------------------------------------------------------------------------

/// Whether `format` can write the value `n` (see [`node_form`]).
pub fn has_form(format: Format, n: &Node) -> (r: bool)
    ensures
        r == node_form(format, *n),
    decreases n,
{
    match n {
        Node::Null => !matches!(format, Format::Toml),
        Node::Bool(_) => true,
        Node::Int(_) => true,
        Node::Str(_) => true,
        Node::UInt(u) => !matches!(format, Format::Toml) || *u <= 0x7fff_ffff_ffff_ffffu64,
        Node::Float(f) => {
            if matches!(format, Format::Toml) {
                let cs = chars_of(f.text.as_str());
                let ok = float_check(&cs, 0, cs.len());
                assert(cs@.subrange(0, cs@.len() as int) =~= cs@);
                ok
            } else {
                true
            }
        },
        Node::Datetime(_) => matches!(format, Format::Toml),
        Node::List(items) => {
            let mut i: usize = 0;
            while i < items.len()
                invariant
                    i <= items@.len(),
                    *n == Node::List(*items),
                    forall|j: int| 0 <= j < i ==> node_form(format, #[trigger] items@[j]),
                decreases items@.len() - i,
            {
                proof {
                    assert(decreases_to!(*items => items@));
                    assert(decreases_to!(items@ => items@[i as int]));
                    assert(decreases_to!(*n => (*n)->List_0));
                }
                if !has_form(format, &items[i]) {
                    assert(!node_form(format, items@[i as int]));
                    assert(!node_form(format, Node::List(*items)));
                    return false;
                }
                i = i + 1;
            }
            true
        },
        Node::Table(es) => {
            let mut i: usize = 0;
            while i < es.len()
                invariant
                    i <= es@.len(),
                    *n == Node::Table(*es),
                    forall|j: int|
                        #![trigger es@[j]]
                        0 <= j < i ==> node_form(format, es@[j].1) && if format == Format::Yaml {
                            node_form(format, es@[j].0)
                        } else {
                            es@[j].0 is Str
                        },
                decreases es@.len() - i,
            {
                let (k, v) = &es[i];
                proof {
                    assert(decreases_to!(*es => es@));
                    assert(decreases_to!(es@ => es@[i as int]));
                    assert(decreases_to!(es@[i as int] => es@[i as int].0));
                    assert(decreases_to!(es@[i as int] => es@[i as int].1));
                    assert(decreases_to!(*n => (*n)->Table_0));
                }
                if !has_form(format, v) {
                    assert(!node_form(format, es@[i as int].1));
                    return false;
                }
                let key_ok = match format {
                    Format::Yaml => has_form(format, k),
                    _ => matches!(k, Node::Str(_)),
                };
                if !key_ok {
                    return false;
                }
                i = i + 1;
            }
            true
        },
        Node::Tagged(t, inner) => {
            matches!(format, Format::Yaml) && !t.as_str().is_empty() && has_form(format, inner)
        },
    }
}

/// The error of a write of a value that `format` cannot write.
pub fn form_error(format: Format) -> (e: DotCfgError)
    ensures
        render_error(format, e, form_message(format)),
{
    match format {
        Format::Toml => {
            proof {
                reveal_strlit("the value has no TOML form");
            }
            DotCfgError::TomlSerialize(String::from_str("the value has no TOML form"))
        },
        Format::Json => {
            proof {
                reveal_strlit("the value has no JSON form");
            }
            DotCfgError::Json(String::from_str("the value has no JSON form"))
        },
        Format::Yaml => {
            proof {
                reveal_strlit("the value has no YAML form");
            }
            DotCfgError::Yaml(String::from_str("the value has no YAML form"))
        },
    }
}

/// What a format's number holds, as its crate reports it: the value as a
/// `u64` and as an `i64` where it is one, the bits of its value as a float,
/// and its text.
pub struct NumberParts {
    pub unsigned: Option<u64>,
    pub signed: Option<i64>,
    pub float_bits: Option<u64>,
    pub text: String,
}

/// A format's number as a document node: a `UInt` when it is a `u64`, else an
/// `Int` when it is an `i64`, else a float with its bits (0 when it has none
/// as a float) and its text.
pub fn number_node(p: NumberParts) -> (r: Node)
    ensures
        match (p.unsigned, p.signed) {
            (Some(u), _) => r == Node::UInt(u),
            (None, Some(i)) => r == Node::Int(i),
            (None, None) => r == Node::Float(
                (FloatRepr {
                    bits: match p.float_bits {
                        Some(b) => b,
                        None => 0,
                    },
                    text: p.text,
                }),
            ),
        },
{
    match (p.unsigned, p.signed) {
        (Some(u), _) => Node::UInt(u),
        (None, Some(i)) => Node::Int(i),
        (None, None) => {
            let bits = match p.float_bits {
                Some(b) => b,
                None => 0,
            };
            Node::Float(FloatRepr { bits, text: p.text })
        },
    }
}

// ---------------------------------------------------------------------------
// Value conversions used by the calls below: each outside value becomes the
// document node of the same kind, one for one, and back. A conversion to an
// outside value is made only for a value the format can write (`requires`);
// its error is the one the outside parse of a float or date-time text reports.
// ---------------------------------------------------------------------------

#[verifier::external_type_specification]
#[verifier::external_body]
#[verifier::reject_recursive_types(K)]
#[verifier::reject_recursive_types(V)]
pub struct ExTomlMap<K, V>(toml::map::Map<K, V>);

#[verifier::external_type_specification]
#[verifier::external_body]
#[verifier::reject_recursive_types(K)]
#[verifier::reject_recursive_types(V)]
pub struct ExJsonMap<K, V>(serde_json::Map<K, V>);

#[verifier::external_type_specification]
#[verifier::external_body]
pub struct ExJsonNumber(serde_json::Number);

#[verifier::external_type_specification]
#[verifier::external_body]
pub struct ExYamlNumber(serde_yaml_ng::Number);

#[verifier::external_type_specification]
#[verifier::external_body]
pub struct ExYamlMapping(serde_yaml_ng::Mapping);

/// A `toml::Value` as a document node.
#[verifier::external_body]
fn toml_node(v: &toml::Value) -> Node {
    match v {
        toml::Value::String(s) => Node::Str(s.clone()),
        toml::Value::Integer(i) => Node::Int(*i),
        toml::Value::Float(f) => Node::Float(FloatRepr { bits: f.to_bits(), text: f.to_string() }),
        toml::Value::Boolean(b) => Node::Bool(*b),
        toml::Value::Datetime(d) => Node::Datetime(d.to_string()),
        toml::Value::Array(a) => Node::List(a.iter().map(toml_node).collect()),
        toml::Value::Table(t) => toml_table_node(t),
    }
}

/// A TOML table as a table node, with its keys as string nodes.
#[verifier::external_body]
fn toml_table_node(t: &toml::map::Map<String, toml::Value>) -> Node {
    Node::Table(t.iter().map(|(k, v)| (Node::Str(k.clone()), toml_node(v))).collect())
}

/// A document node that TOML can write as a `toml::Value` (a node it cannot
/// write, which `requires` excludes, gives an empty message).
#[verifier::external_body]
fn node_toml(n: &Node) -> Result<toml::Value, String>
    requires
        node_form(Format::Toml, *n),
{
    Ok(match n {
        Node::Str(s) => toml::Value::String(s.clone()),
        Node::Bool(b) => toml::Value::Boolean(*b),
        Node::Int(_) | Node::UInt(_) | Node::Float(_) | Node::Datetime(_) => toml_scalar(n)?,
        Node::List(items) => toml::Value::Array(items.iter().map(node_toml).collect::<Result<_, _>>()?),
        Node::Table(es) => toml::Value::Table(toml_map(es)?),
        Node::Null | Node::Tagged(..) => return Err(String::new()),
    })
}

/// A number or date-time node that TOML can write as a `toml::Value` (an
/// unsigned integer is one that fits an `i64`).
#[verifier::external_body]
fn toml_scalar(n: &Node) -> Result<toml::Value, String>
    requires
        node_form(Format::Toml, *n),
{
    Ok(match n {
        Node::Int(i) => toml::Value::Integer(*i),
        Node::UInt(u) => toml::Value::Integer(*u as i64),
        Node::Float(f) => toml::Value::Float(f.text.parse().map_err(|e| format!("{}", e))?),
        Node::Datetime(d) => toml::Value::Datetime(d.parse().map_err(|e| format!("{}", e))?),
        _ => return Err(String::new()),
    })
}

/// The entries of a table node (string keys) as a TOML table.
#[verifier::external_body]
fn toml_map(es: &Vec<(Node, Node)>) -> Result<toml::map::Map<String, toml::Value>, String> {
    es.iter().map(|(k, v)| match k {
        Node::Str(k) => Ok((k.clone(), node_toml(v)?)),
        _ => Err(String::new()),
    }).collect()
}

/// A `serde_json::Value` as a document node.
#[verifier::external_body]
fn json_node(v: &serde_json::Value) -> Node {
    match v {
        serde_json::Value::Null => Node::Null,
        serde_json::Value::Bool(b) => Node::Bool(*b),
        serde_json::Value::Number(n) => number_node(json_number_parts(n)),
        serde_json::Value::String(s) => Node::Str(s.clone()),
        serde_json::Value::Array(a) => Node::List(a.iter().map(json_node).collect()),
        serde_json::Value::Object(o) => json_object_node(o),
    }
}

/// What a JSON number holds: `as_u64`, `as_i64`, the bits of `as_f64`, and
/// its text.
#[verifier::external_body]
fn json_number_parts(n: &serde_json::Number) -> NumberParts {
    NumberParts {
        unsigned: n.as_u64(),
        signed: n.as_i64(),
        float_bits: n.as_f64().map(|f| f.to_bits()),
        text: n.to_string(),
    }
}

/// A JSON object as a table node, with its keys as string nodes.
#[verifier::external_body]
fn json_object_node(o: &serde_json::Map<String, serde_json::Value>) -> Node {
    Node::Table(o.iter().map(|(k, v)| (Node::Str(k.clone()), json_node(v))).collect())
}

/// A document node that JSON can write as a `serde_json::Value` (a node it
/// cannot write, which `requires` excludes, gives an empty message).
#[verifier::external_body]
fn node_json(n: &Node) -> Result<serde_json::Value, String>
    requires
        node_form(Format::Json, *n),
{
    Ok(match n {
        Node::Null => serde_json::Value::Null,
        Node::Bool(b) => serde_json::Value::Bool(*b),
        Node::Int(_) | Node::UInt(_) | Node::Float(_) => serde_json::Value::Number(json_number_of(n)?),
        Node::Str(s) => serde_json::Value::String(s.clone()),
        Node::List(items) => serde_json::Value::Array(items.iter().map(node_json).collect::<Result<_, _>>()?),
        Node::Table(es) => serde_json::Value::Object(json_map(es)?),
        Node::Datetime(_) | Node::Tagged(..) => return Err(String::new()),
    })
}

/// A number node as a JSON number (a float through `Number`'s `FromStr`).
#[verifier::external_body]
fn json_number_of(n: &Node) -> Result<serde_json::Number, String> {
    match n {
        Node::Int(i) => Ok((*i).into()),
        Node::UInt(u) => Ok((*u).into()),
        Node::Float(f) => f.text.parse().map_err(|e| format!("{}", e)),
        _ => Err(String::new()),
    }
}

/// The entries of a table node (string keys) as a JSON object.
#[verifier::external_body]
fn json_map(es: &Vec<(Node, Node)>) -> Result<serde_json::Map<String, serde_json::Value>, String> {
    es.iter().map(|(k, v)| match k {
        Node::Str(k) => Ok((k.clone(), node_json(v)?)),
        _ => Err(String::new()),
    }).collect()
}

/// A `serde_yaml_ng::Value` as a document node.
#[verifier::external_body]
fn yaml_node(v: &serde_yaml_ng::Value) -> Node {
    match v {
        serde_yaml_ng::Value::Null => Node::Null,
        serde_yaml_ng::Value::Bool(b) => Node::Bool(*b),
        serde_yaml_ng::Value::Number(n) => number_node(yaml_number_parts(n)),
        serde_yaml_ng::Value::String(s) => Node::Str(s.clone()),
        serde_yaml_ng::Value::Sequence(a) => Node::List(a.iter().map(yaml_node).collect()),
        serde_yaml_ng::Value::Mapping(m) => Node::Table(m.iter().map(|(k, v)| (yaml_node(k), yaml_node(v))).collect()),
        serde_yaml_ng::Value::Tagged(t) => Node::Tagged(t.tag.to_string(), Box::new(yaml_node(&t.value))),
    }
}

/// What a YAML number holds: `as_u64`, `as_i64`, the bits of `as_f64`, and
/// its text.
#[verifier::external_body]
fn yaml_number_parts(n: &serde_yaml_ng::Number) -> NumberParts {
    NumberParts {
        unsigned: n.as_u64(),
        signed: n.as_i64(),
        float_bits: n.as_f64().map(|f| f.to_bits()),
        text: n.to_string(),
    }
}

/// A document node that YAML can write as a `serde_yaml_ng::Value` (a node it
/// cannot write, which `requires` excludes, gives an empty message).
#[verifier::external_body]
fn node_yaml(n: &Node) -> Result<serde_yaml_ng::Value, String>
    requires
        node_form(Format::Yaml, *n),
{
    Ok(match n {
        Node::Null => serde_yaml_ng::Value::Null,
        Node::Bool(b) => serde_yaml_ng::Value::Bool(*b),
        Node::Int(_) | Node::UInt(_) | Node::Float(_) => serde_yaml_ng::Value::Number(yaml_number_of(n)?),
        Node::Str(s) => serde_yaml_ng::Value::String(s.clone()),
        Node::List(items) => serde_yaml_ng::Value::Sequence(items.iter().map(node_yaml).collect::<Result<_, _>>()?),
        Node::Table(es) => serde_yaml_ng::Value::Mapping(yaml_mapping(es)?),
        Node::Tagged(tag, inner) => yaml_tagged(tag, inner)?,
        Node::Datetime(_) => return Err(String::new()),
    })
}

/// A number node as a YAML number (a float through `Number`'s `FromStr`).
#[verifier::external_body]
fn yaml_number_of(n: &Node) -> Result<serde_yaml_ng::Number, String> {
    match n {
        Node::Int(i) => Ok((*i).into()),
        Node::UInt(u) => Ok((*u).into()),
        Node::Float(f) => f.text.parse().map_err(|e| format!("{}", e)),
        _ => Err(String::new()),
    }
}

/// The entries of a table node as a YAML mapping.
#[verifier::external_body]
fn yaml_mapping(es: &Vec<(Node, Node)>) -> Result<serde_yaml_ng::Mapping, String> {
    es.iter().map(|(k, v)| Ok((node_yaml(k)?, node_yaml(v)?))).collect()
}

/// A tagged node (its tag not empty, so that `Tag::new` accepts it) as a
/// tagged YAML value.
#[verifier::external_body]
fn yaml_tagged(tag: &String, inner: &Node) -> Result<serde_yaml_ng::Value, String>
    requires
        tag@.len() > 0,
        node_form(Format::Yaml, *inner),
{
    let value = node_yaml(inner)?;
    let tag = serde_yaml_ng::value::Tag::new(tag.clone());
    Ok(serde_yaml_ng::Value::Tagged(Box::new(serde_yaml_ng::value::TaggedValue { tag, value })))
}

// ---------------------------------------------------------------------------
// The calls
// ---------------------------------------------------------------------------

/// Calls `toml::from_str::<toml::Value>` on `content`. Claimed: the result is
/// `toml_document(content)`, the parsed value as a document node, or the
/// parser's message as `TomlParse`.
#[verifier::external_body]
fn parse_toml(content: &str) -> (r: Result<Node, DotCfgError>)
    ensures
        match r {
            Ok(d) => toml_document(content@) == Ok::<Node, Seq<char>>(d),
            Err(e) => toml_document(content@) matches Err(m) && parse_error(Format::Toml, e, m),
        },
{
    match toml::from_str::<toml::Value>(content) {
        Ok(v) => Ok(toml_node(&v)),
        Err(e) => Err(DotCfgError::TomlParse(e.to_string())),
    }
}

/// Calls `serde_json::from_str::<serde_json::Value>` on `content`. Claimed:
/// the result is `json_document(content)`, the parsed value as a document
/// node, or the parser's message as `Json`.
#[verifier::external_body]
fn parse_json(content: &str) -> (r: Result<Node, DotCfgError>)
    ensures
        match r {
            Ok(d) => json_document(content@) == Ok::<Node, Seq<char>>(d),
            Err(e) => json_document(content@) matches Err(m) && parse_error(Format::Json, e, m),
        },
{
    match serde_json::from_str::<serde_json::Value>(content) {
        Ok(v) => Ok(json_node(&v)),
        Err(e) => Err(DotCfgError::Json(e.to_string())),
    }
}

/// Calls `serde_yaml_ng::from_str::<serde_yaml_ng::Value>` on `content`.
/// Claimed: the result is `yaml_document(content)`, the parsed value as a
/// document node, or the parser's message as `Yaml`.
#[verifier::external_body]
fn parse_yaml(content: &str) -> (r: Result<Node, DotCfgError>)
    ensures
        match r {
            Ok(d) => yaml_document(content@) == Ok::<Node, Seq<char>>(d),
            Err(e) => yaml_document(content@) matches Err(m) && parse_error(Format::Yaml, e, m),
        },
{
    match serde_yaml_ng::from_str::<serde_yaml_ng::Value>(content) {
        Ok(v) => Ok(yaml_node(&v)),
        Err(e) => Err(DotCfgError::Yaml(e.to_string())),
    }
}

/// Calls `toml::to_string_pretty` on `doc` (a document TOML can write) as a
/// `toml::Value`. Claimed: the result is `toml_text(doc)`, the text written,
/// or the message (of the writer, or of the parse of a float or date-time
/// text) as `TomlSerialize`.
#[verifier::external_body]
fn render_toml(doc: &Node) -> (r: Result<String, DotCfgError>)
    requires
        node_form(Format::Toml, *doc),
    ensures
        match r {
            Ok(s) => toml_text(*doc) == Ok::<Seq<char>, Seq<char>>(s@),
            Err(e) => toml_text(*doc) matches Err(m) && render_error(Format::Toml, e, m),
        },
{
    match node_toml(doc) {
        Ok(v) => toml::to_string_pretty(&v).map_err(|e| DotCfgError::TomlSerialize(e.to_string())),
        Err(m) => Err(DotCfgError::TomlSerialize(m)),
    }
}

/// Calls `serde_json::to_string_pretty` on `doc` (a document JSON can write)
/// as a `serde_json::Value`. Claimed: the result is `json_text(doc)`, the text
/// written, or the message (of the writer, or of the parse of a float text) as
/// `Json`.
#[verifier::external_body]
fn render_json(doc: &Node) -> (r: Result<String, DotCfgError>)
    requires
        node_form(Format::Json, *doc),
    ensures
        match r {
            Ok(s) => json_text(*doc) == Ok::<Seq<char>, Seq<char>>(s@),
            Err(e) => json_text(*doc) matches Err(m) && render_error(Format::Json, e, m),
        },
{
    match node_json(doc) {
        Ok(v) => serde_json::to_string_pretty(&v).map_err(|e| DotCfgError::Json(e.to_string())),
        Err(m) => Err(DotCfgError::Json(m)),
    }
}

/// Calls `serde_yaml_ng::to_string` on `doc` (a document YAML can write) as a
/// `serde_yaml_ng::Value`. Claimed: the result is `yaml_text(doc)`, the text
/// written, or the message (of the writer, or of the parse of a float text) as
/// `Yaml`.
#[verifier::external_body]
fn render_yaml(doc: &Node) -> (r: Result<String, DotCfgError>)
    requires
        node_form(Format::Yaml, *doc),
    ensures
        match r {
            Ok(s) => yaml_text(*doc) == Ok::<Seq<char>, Seq<char>>(s@),
            Err(e) => yaml_text(*doc) matches Err(m) && render_error(Format::Yaml, e, m),
        },
{
    match node_yaml(doc) {
        Ok(v) => serde_yaml_ng::to_string(&v).map_err(|e| DotCfgError::Yaml(e.to_string())),
        Err(m) => Err(DotCfgError::Yaml(m)),
    }
}

/// Calls `toml::to_string` on `n` (a value TOML can write) as a
/// `toml::Value`. Claimed: the result is `toml_composite(n)` (empty text when
/// the call fails).
#[verifier::external_body]
fn toml_value_text(n: &Node) -> (r: String)
    requires
        node_form(Format::Toml, *n),
    ensures
        r@ == toml_composite(*n),
{
    node_toml(n).ok().and_then(|v| toml::to_string(&v).ok()).unwrap_or_default()
}

/// Calls `serde_json::to_string` on `n` (a value JSON can write) as a
/// `serde_json::Value`. Claimed: the result is `json_composite(n)` (empty text
/// when the call fails).
#[verifier::external_body]
fn json_value_text(n: &Node) -> (r: String)
    requires
        node_form(Format::Json, *n),
    ensures
        r@ == json_composite(*n),
{
    node_json(n).ok().and_then(|v| serde_json::to_string(&v).ok()).unwrap_or_default()
}

/// Calls `serde_yaml_ng::to_string` on `n` (a value YAML can write) as a
/// `serde_yaml_ng::Value`. Claimed: the result is `yaml_composite(n)` (empty
/// text when the call fails).
#[verifier::external_body]
fn yaml_value_text(n: &Node) -> (r: String)
    requires
        node_form(Format::Yaml, *n),
    ensures
        r@ == yaml_composite(*n),
{
    node_yaml(n).ok().and_then(|v| serde_yaml_ng::to_string(&v).ok()).unwrap_or_default()
}

/// Parse the text of a config file of `format` into its document.
pub fn parse_document(format: Format, content: &str) -> (r: Result<Node, DotCfgError>)
    ensures
        match r {
            Ok(d) => document_of(format, content@) == Ok::<Node, Seq<char>>(d),
            Err(e) => document_of(format, content@) matches Err(m) && parse_error(format, e, m),
        },
{
    match format {
        Format::Toml => parse_toml(content),
        Format::Json => parse_json(content),
        Format::Yaml => parse_yaml(content),
    }
}

/// The text of a config file of `format` holding `doc`; an error when the
/// format cannot write `doc` (see [`node_form`]) or its writer fails.
pub fn render_document(format: Format, doc: &Node) -> (r: Result<String, DotCfgError>)
    ensures
        match r {
            Ok(s) => text_of(format, *doc) == Ok::<Seq<char>, Seq<char>>(s@),
            Err(e) => text_of(format, *doc) matches Err(m) && render_error(format, e, m),
        },
{
    if !has_form(format, doc) {
        return Err(form_error(format));
    }
    match format {
        Format::Toml => render_toml(doc),
        Format::Json => render_json(doc),
        Format::Yaml => render_yaml(doc),
    }
}

/// The text `get()` gives for a list, table or tagged value: the value as its
/// format writes it (empty when the format cannot write it).
pub fn render_composite(format: Format, n: &Node) -> (r: String)
    ensures
        r@ == composite_text(format, *n),
{
    if !has_form(format, n) {
        return String::new();
    }
    match format {
        Format::Toml => toml_value_text(n),
        Format::Json => json_value_text(n),
        Format::Yaml => {
            let t = yaml_value_text(n);
            trim_end_str(t.as_str())
        },
    }
}

} // verus!
