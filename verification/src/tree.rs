//! The config document as a tree of values, and the per-key operations on it.
//!
//! A document is what a TOML, JSON or YAML config file parses to. Keys are
//! either a flat `field` or a nested `section.field`: the key is split at its
//! first `.`, so `a.b.c` names the field `b.c` of the section `a`.

use vstd::prelude::*;
use vstd::string::*;

use crate::error::DotCfgError;
use crate::parse::{int_of, lemma_int_text_reads_back};
use crate::text::{chars_of, i64_text, int_text, string_of, u64_text};

verus! {

/// A floating-point number as its format holds it: the IEEE-754 bits of the
/// `f64` and the text that the format renders for it.
#[derive(Debug, Clone, PartialEq)]
pub struct FloatRepr {
    pub bits: u64,
    pub text: String,
}

/// A value of a config document.
///
/// TOML documents use `Bool`, `Int`, `Float`, `Str`, `Datetime`, `List` and
/// `Table`; JSON documents `Null`, `Bool`, `Int` (negative integers), `UInt`
/// (non-negative integers), `Float`, `Str`, `List` and `Table`; YAML documents
/// the JSON ones and `Tagged`. A table is a sequence of `(key, value)` entries;
/// TOML and JSON keys are always `Str`.
#[derive(Debug, PartialEq)]
pub enum Node {
    Null,
    Bool(bool),
    Int(i64),
    UInt(u64),
    Float(FloatRepr),
    Str(String),
    /// A TOML date-time, as its TOML text.
    Datetime(String),
    List(Vec<Node>),
    Table(Vec<(Node, Node)>),
    /// A YAML value with a tag (such as `!mytag`).
    Tagged(String, Box<Node>),
}

/// A key split at its first `.`.
#[derive(Debug, Clone, PartialEq)]
pub enum KeyPath {
    /// A key without `.`: a field of the document's root table.
    Field(String),
    /// `section.field`: the part before the first `.` and the part after it
    /// (which, in a valid key, holds no further `.`).
    Nested(String, String),
}

// ---------------------------------------------------------------------------
// The model
// ---------------------------------------------------------------------------

/// `n` with its YAML tags removed (tables are looked into through their tags).
pub open spec fn untagged(n: Node) -> Node
    decreases n,
{
    match n {
        Node::Tagged(_, inner) => untagged(*inner),
        _ => n,
    }
}

/// `n` with the table under its tags replaced by the table `es`.
pub open spec fn with_table(n: Node, es: Vec<(Node, Node)>) -> Node
    decreases n,
{
    match n {
        Node::Tagged(t, inner) => Node::Tagged(t, Box::new(with_table(*inner, es))),
        _ => Node::Table(es),
    }
}

/// Whether `n`, under its tags, is a table.
pub open spec fn is_table(n: Node) -> bool {
    untagged(n) is Table
}

/// The entries of the table under the tags of `n` (none when it is no table).
pub open spec fn entries_of(n: Node) -> Seq<(Node, Node)> {
    match untagged(n) {
        Node::Table(es) => es@,
        _ => Seq::empty(),
    }
}

/// Whether the key node `k` is the string `name`.
pub open spec fn key_named(k: Node, name: Seq<char>) -> bool {
    match k {
        Node::Str(s) => s@ == name,
        _ => false,
    }
}

/// `i` is the first entry of `es` whose key is the string `name`.
pub open spec fn first_key_at(es: Seq<(Node, Node)>, name: Seq<char>, i: int) -> bool {
    &&& 0 <= i < es.len()
    &&& key_named(es[i].0, name)
    &&& forall|j: int| 0 <= j < i ==> !key_named(#[trigger] es[j].0, name)
}

/// Whether some entry of `es` has the string key `name`.
pub open spec fn has_key(es: Seq<(Node, Node)>, name: Seq<char>) -> bool {
    exists|i: int| first_key_at(es, name, i)
}

/// The index of the first entry of `es` with the string key `name`.
pub open spec fn key_index(es: Seq<(Node, Node)>, name: Seq<char>) -> int {
    choose|i: int| first_key_at(es, name, i)
}

/// The value of the first entry of `es` with the string key `name`.
pub open spec fn lookup(es: Seq<(Node, Node)>, name: Seq<char>) -> Option<Node> {
    if has_key(es, name) {
        Some(es[key_index(es, name)].1)
    } else {
        None
    }
}

/// The value that `n` holds under the string key `name`: `None` when `n` is
/// no table or has no such key.
pub open spec fn child(n: Node, name: Seq<char>) -> Option<Node> {
    if is_table(n) {
        lookup(entries_of(n), name)
    } else {
        None
    }
}

/// `i` is the first `.` of `k`.
pub open spec fn first_dot_at(k: Seq<char>, i: int) -> bool {
    &&& 0 <= i < k.len()
    &&& k[i] == '.'
    &&& forall|j: int| 0 <= j < i ==> #[trigger] k[j] != '.'
}

/// Whether the key `k` holds a `.`.
pub open spec fn is_nested(k: Seq<char>) -> bool {
    exists|i: int| first_dot_at(k, i)
}

/// The position of the first `.` of `k`.
pub open spec fn dot_index(k: Seq<char>) -> int {
    choose|i: int| first_dot_at(k, i)
}

/// The section of a nested key, or the whole of a flat one.
pub open spec fn key_head(k: Seq<char>) -> Seq<char> {
    if is_nested(k) {
        k.take(dot_index(k))
    } else {
        k
    }
}

/// The field of a nested key: everything after its first `.`.
pub open spec fn key_rest(k: Seq<char>) -> Seq<char> {
    k.skip(dot_index(k) + 1)
}

/// A key with more than one `.`: neither `field` nor `section.field`.
pub open spec fn is_deep(k: Seq<char>) -> bool {
    is_nested(k) && is_nested(key_rest(k))
}

/// The value that `key` names in the document `doc` (none for a key with more
/// than one `.`).
pub open spec fn node_at(doc: Node, key: Seq<char>) -> Option<Node> {
    if is_deep(key) {
        None
    } else if is_nested(key) {
        match child(doc, key_head(key)) {
            Some(section) => child(section, key_rest(key)),
            None => None,
        }
    } else {
        child(doc, key)
    }
}

/// `es2` is `es` with the value `v` under the string key `name`: the first
/// entry with that key gets the value (its key and place kept), or an entry
/// `name = v` is appended when there is none.
pub open spec fn entries_set(
    es: Seq<(Node, Node)>,
    es2: Seq<(Node, Node)>,
    name: Seq<char>,
    v: Node,
) -> bool {
    if has_key(es, name) {
        let i = key_index(es, name);
        es2 == es.update(i, (es[i].0, v))
    } else {
        &&& es2.len() == es.len() + 1
        &&& es2.take(es.len() as int) == es
        &&& key_named(es2[es.len() as int].0, name)
        &&& es2[es.len() as int].1 == v
    }
}

/// `new` is the table `old` (under the same tags) with `name` set to `v`.
pub open spec fn table_set(old: Node, new: Node, name: Seq<char>, v: Node) -> bool
    decreases old,
{
    match old {
        Node::Tagged(t, inner) => match new {
            Node::Tagged(t2, inner2) => t2 == t && table_set(*inner, *inner2, name, v),
            _ => false,
        },
        Node::Table(es) => match new {
            Node::Table(es2) => entries_set(es@, es2@, name, v),
            _ => false,
        },
        _ => false,
    }
}

/// `n` is a table holding the single entry `name = v`.
pub open spec fn single_entry_table(n: Node, name: Seq<char>, v: Node) -> bool {
    match n {
        Node::Table(es) => es@.len() == 1 && key_named(es@[0].0, name) && es@[0].1 == v,
        _ => false,
    }
}

/// `es2` is `es` with `field` set to `v` in the table under the key `section`:
/// that table is changed in place, or a table holding only `field = v` is
/// appended under `section` when no entry has that key.
pub open spec fn entries_set_nested(
    es: Seq<(Node, Node)>,
    es2: Seq<(Node, Node)>,
    section: Seq<char>,
    field: Seq<char>,
    v: Node,
) -> bool {
    if has_key(es, section) {
        let i = key_index(es, section);
        &&& es2.len() == es.len()
        &&& es2[i].0 == es[i].0
        &&& table_set(es[i].1, es2[i].1, field, v)
        &&& forall|j: int| 0 <= j < es.len() && j != i ==> #[trigger] es2[j] == es[j]
    } else {
        &&& es2.len() == es.len() + 1
        &&& es2.take(es.len() as int) == es
        &&& key_named(es2[es.len() as int].0, section)
        &&& single_entry_table(es2[es.len() as int].1, field, v)
    }
}

/// `new` is the table `old` (under the same tags) with `section.field` set to `v`.
pub open spec fn nested_set(
    old: Node,
    new: Node,
    section: Seq<char>,
    field: Seq<char>,
    v: Node,
) -> bool
    decreases old,
{
    match old {
        Node::Tagged(t, inner) => match new {
            Node::Tagged(t2, inner2) => t2 == t && nested_set(*inner, *inner2, section, field, v),
            _ => false,
        },
        Node::Table(es) => match new {
            Node::Table(es2) => entries_set_nested(es@, es2@, section, field, v),
            _ => false,
        },
        _ => false,
    }
}

/// `new` is the document `old` with the value `v` written under `key` (a key
/// with more than one `.` writes nothing).
pub open spec fn node_set(old: Node, new: Node, key: Seq<char>, v: Node) -> bool {
    if is_deep(key) {
        false
    } else if is_nested(key) {
        nested_set(old, new, key_head(key), key_rest(key), v)
    } else {
        table_set(old, new, key, v)
    }
}

/// Whether a value can be written under `key` in `doc`: the document is a
/// table, the key has at most one `.`, and for a nested key the section is
/// missing or is a table.
pub open spec fn can_set(doc: Node, key: Seq<char>) -> bool {
    &&& is_table(doc)
    &&& !is_deep(key)
    &&& is_nested(key) ==> match child(doc, key_head(key)) {
        Some(section) => is_table(section),
        None => true,
    }
}

/// `e` is the error of a read of `key` that names nothing: `InvalidKey(key)`
/// for a key with more than one `.`, else `KeyNotFound(key)`.
pub open spec fn lookup_error(key: Seq<char>, e: DotCfgError) -> bool {
    if is_deep(key) {
        e matches DotCfgError::InvalidKey(k) && k@ == key
    } else {
        e matches DotCfgError::KeyNotFound(k) && k@ == key
    }
}

/// `e` is the error of a write under `key` into `doc` that cannot be made:
/// `NotATable("root")` when the document is no table, else `InvalidKey(key)`
/// for a key with more than one `.`, else `NotATable(section)`.
pub open spec fn set_error(doc: Node, key: Seq<char>, e: DotCfgError) -> bool {
    if !is_table(doc) {
        e matches DotCfgError::NotATable(t) && t@ == "root"@
    } else if is_deep(key) {
        e matches DotCfgError::InvalidKey(k) && k@ == key
    } else {
        e matches DotCfgError::NotATable(t) && t@ == key_head(key)
    }
}

/// What `get()` returns for a scalar value: strings as they are, numbers and
/// booleans in their usual rendering, `null` for null. Lists, tables and
/// tagged values have no such text: their format renders them.
pub open spec fn scalar_text(n: Node) -> Option<Seq<char>> {
    match n {
        Node::Null => Some("null"@),
        Node::Bool(b) => Some(if b { "true"@ } else { "false"@ }),
        Node::Int(i) => Some(int_text(i as int)),
        Node::UInt(u) => Some(int_text(u as int)),
        Node::Float(f) => Some(f.text@),
        Node::Str(s) => Some(s@),
        Node::Datetime(d) => Some(d@),
        _ => None,
    }
}

/// No two entries of `es` have the same string key.
pub open spec fn distinct_keys(es: Seq<(Node, Node)>) -> bool {
    forall|i: int, j: int, name: Seq<char>|
        0 <= i < j < es.len() && #[trigger] key_named(es[i].0, name) ==> !#[trigger] key_named(
            es[j].0,
            name,
        )
}

/// Two keys that name places of which neither holds the other: their first
/// parts differ, or both are nested in the same section with different fields.
pub open spec fn keys_apart(k1: Seq<char>, k2: Seq<char>) -> bool {
    ||| key_head(k1) != key_head(k2)
    ||| (is_nested(k1) && is_nested(k2) && key_rest(k1) != key_rest(k2))
}

// ---------------------------------------------------------------------------
// Lemmas
// ---------------------------------------------------------------------------

proof fn lemma_first_key_unique(es: Seq<(Node, Node)>, name: Seq<char>, i: int, j: int)
    requires
        first_key_at(es, name, i),
        first_key_at(es, name, j),
    ensures
        i == j,
{
    if i < j {
        assert(!key_named(es[i].0, name));
    } else if j < i {
        assert(!key_named(es[j].0, name));
    }
}

proof fn lemma_lookup_at(es: Seq<(Node, Node)>, name: Seq<char>, i: int)
    requires
        first_key_at(es, name, i),
    ensures
        has_key(es, name),
        key_index(es, name) == i,
        lookup(es, name) == Some(es[i].1),
{
    let k = key_index(es, name);
    assert(first_key_at(es, name, k));
    lemma_first_key_unique(es, name, i, k);
}

/// A key that occurs has a first occurrence.
proof fn lemma_key_occurs(es: Seq<(Node, Node)>, name: Seq<char>, j: int)
    requires
        0 <= j < es.len(),
        key_named(es[j].0, name),
    ensures
        has_key(es, name),
    decreases j,
{
    if forall|l: int| 0 <= l < j ==> !key_named(#[trigger] es[l].0, name) {
        assert(first_key_at(es, name, j));
    } else {
        let l = choose|l: int| 0 <= l < j && key_named(#[trigger] es[l].0, name);
        lemma_key_occurs(es, name, l);
    }
}

/// Without a first occurrence, no entry has the key.
proof fn lemma_no_key(es: Seq<(Node, Node)>, name: Seq<char>)
    requires
        !has_key(es, name),
    ensures
        forall|j: int| 0 <= j < es.len() ==> !key_named(#[trigger] es[j].0, name),
{
    assert forall|j: int| 0 <= j < es.len() implies !key_named(#[trigger] es[j].0, name) by {
        if key_named(es[j].0, name) {
            lemma_key_occurs(es, name, j);
        }
    }
}

proof fn lemma_lookup_none(es: Seq<(Node, Node)>, name: Seq<char>)
    requires
        forall|j: int| 0 <= j < es.len() ==> !key_named(#[trigger] es[j].0, name),
    ensures
        !has_key(es, name),
        lookup(es, name) is None,
{
    if has_key(es, name) {
        let k = key_index(es, name);
        assert(first_key_at(es, name, k));
    }
}

proof fn lemma_first_dot_unique(k: Seq<char>, i: int, j: int)
    requires
        first_dot_at(k, i),
        first_dot_at(k, j),
    ensures
        i == j,
{
    if i < j {
        assert(k[i] == '.');
    } else if j < i {
        assert(k[j] == '.');
    }
}

proof fn lemma_names_differ(k: Node, a: Seq<char>, b: Seq<char>)
    requires
        key_named(k, a),
        a != b,
    ensures
        !key_named(k, b),
{
}

/// Setting `name` keeps the value of every other string key.
proof fn lemma_entries_set_other(
    es: Seq<(Node, Node)>,
    es2: Seq<(Node, Node)>,
    name: Seq<char>,
    v: Node,
    other: Seq<char>,
)
    requires
        entries_set(es, es2, name, v),
        other != name,
    ensures
        lookup(es2, other) == lookup(es, other),
{
    if has_key(es, name) {
        let i = key_index(es, name);
        assert(first_key_at(es, name, i));
        assert(forall|j: int| 0 <= j < es2.len() ==> #[trigger] es2[j].0 == es[j].0);
        if has_key(es, other) {
            let k = key_index(es, other);
            assert(first_key_at(es, other, k));
            assert(k != i) by {
                if k == i {
                    lemma_names_differ(es[i].0, name, other);
                }
            }
            assert(first_key_at(es2, other, k));
            lemma_lookup_at(es2, other, k);
        } else {
            lemma_no_key(es, other);
            lemma_lookup_none(es2, other);
        }
    } else {
        let n = es.len() as int;
        assert(forall|j: int| 0 <= j < n ==> #[trigger] es2[j] == es[j]) by {
            assert forall|j: int| 0 <= j < n implies #[trigger] es2[j] == es[j] by {
                assert(es2.take(n)[j] == es2[j]);
            }
        }
        lemma_names_differ(es2[n].0, name, other);
        if has_key(es, other) {
            let k = key_index(es, other);
            assert(first_key_at(es, other, k));
            assert(first_key_at(es2, other, k));
            lemma_lookup_at(es2, other, k);
        } else {
            lemma_no_key(es, other);
            lemma_lookup_none(es2, other);
        }
    }
}

/// Setting `name` gives `name` the value `v`.
proof fn lemma_entries_set_same(es: Seq<(Node, Node)>, es2: Seq<(Node, Node)>, name: Seq<char>, v: Node)
    requires
        entries_set(es, es2, name, v),
    ensures
        lookup(es2, name) == Some(v),
{
    if has_key(es, name) {
        let i = key_index(es, name);
        assert(first_key_at(es, name, i));
        assert(first_key_at(es2, name, i));
        lemma_lookup_at(es2, name, i);
    } else {
        let n = es.len() as int;
        lemma_no_key(es, name);
        assert forall|j: int| 0 <= j < n implies !key_named(#[trigger] es2[j].0, name) by {
            assert(es2.take(n)[j] == es2[j]);
        }
        assert(first_key_at(es2, name, n));
        lemma_lookup_at(es2, name, n);
    }
}

/// The entries before the appended one are the old entries.
proof fn lemma_appended(es: Seq<(Node, Node)>, es2: Seq<(Node, Node)>)
    requires
        es2.len() == es.len() + 1,
        es2.take(es.len() as int) == es,
    ensures
        forall|j: int| 0 <= j < es.len() ==> #[trigger] es2[j] == es[j],
{
    assert forall|j: int| 0 <= j < es.len() implies #[trigger] es2[j] == es[j] by {
        assert(es2.take(es.len() as int)[j] == es2[j]);
    }
}

/// Appending an entry under a new key keeps every other key's value.
proof fn lemma_append_other(es: Seq<(Node, Node)>, es2: Seq<(Node, Node)>, name: Seq<char>, other: Seq<char>)
    requires
        es2.len() == es.len() + 1,
        es2.take(es.len() as int) == es,
        key_named(es2[es.len() as int].0, name),
        other != name,
    ensures
        lookup(es2, other) == lookup(es, other),
{
    let n = es.len() as int;
    lemma_appended(es, es2);
    lemma_names_differ(es2[n].0, name, other);
    if has_key(es, other) {
        let k = key_index(es, other);
        assert(first_key_at(es, other, k));
        assert(first_key_at(es2, other, k));
        lemma_lookup_at(es2, other, k);
    } else {
        lemma_no_key(es, other);
        lemma_lookup_none(es2, other);
    }
}

/// Changing one value in place keeps every key and every other key's value.
proof fn lemma_in_place_other(es: Seq<(Node, Node)>, es2: Seq<(Node, Node)>, name: Seq<char>, i: int, other: Seq<char>)
    requires
        first_key_at(es, name, i),
        es2.len() == es.len(),
        es2[i].0 == es[i].0,
        forall|j: int| 0 <= j < es.len() && j != i ==> #[trigger] es2[j] == es[j],
        other != name,
    ensures
        lookup(es2, other) == lookup(es, other),
{
    assert(forall|j: int| 0 <= j < es2.len() ==> #[trigger] es2[j].0 == es[j].0) by {
        assert forall|j: int| 0 <= j < es2.len() implies #[trigger] es2[j].0 == es[j].0 by {
            if j != i {
                assert(es2[j] == es[j]);
            }
        }
    }
    if has_key(es, other) {
        let k = key_index(es, other);
        assert(first_key_at(es, other, k));
        assert(k != i) by {
            if k == i {
                lemma_names_differ(es[i].0, name, other);
            }
        }
        assert(es2[k] == es[k]);
        assert(first_key_at(es2, other, k));
        lemma_lookup_at(es2, other, k);
    } else {
        lemma_no_key(es, other);
        lemma_lookup_none(es2, other);
    }
}

/// A table written by `table_set` is a table, whose entries are set.
proof fn lemma_table_set_shape(old: Node, new: Node, name: Seq<char>, v: Node)
    requires
        table_set(old, new, name, v),
    ensures
        is_table(old),
        is_table(new),
        entries_set(entries_of(old), entries_of(new), name, v),
    decreases old,
{
    match old {
        Node::Tagged(_, inner) => match new {
            Node::Tagged(_, inner2) => lemma_table_set_shape(*inner, *inner2, name, v),
            _ => {},
        },
        _ => {},
    }
}

/// A document written by `nested_set` is a table, whose entries are set.
proof fn lemma_nested_set_shape(old: Node, new: Node, section: Seq<char>, field: Seq<char>, v: Node)
    requires
        nested_set(old, new, section, field, v),
    ensures
        is_table(old),
        is_table(new),
        entries_set_nested(entries_of(old), entries_of(new), section, field, v),
    decreases old,
{
    match old {
        Node::Tagged(_, inner) => match new {
            Node::Tagged(_, inner2) => lemma_nested_set_shape(*inner, *inner2, section, field, v),
            _ => {},
        },
        _ => {},
    }
}

/// The section that a nested write leaves behind holds the written field,
/// and every other field the section held before.
proof fn lemma_nested_section(old: Node, new: Node, section: Seq<char>, field: Seq<char>, v: Node, other: Seq<char>)
    requires
        nested_set(old, new, section, field, v),
    ensures
        child(new, section) matches Some(sec2) && child(sec2, field) == Some(v),
        other != field ==> (child(new, section) matches Some(sec2) && child(sec2, other) == match child(old, section) {
            Some(sec) => child(sec, other),
            None => None,
        }),
{
    lemma_nested_set_shape(old, new, section, field, v);
    let es = entries_of(old);
    let es2 = entries_of(new);
    if has_key(es, section) {
        let i = key_index(es, section);
        assert(first_key_at(es, section, i));
        assert(forall|j: int| 0 <= j < es2.len() ==> #[trigger] es2[j].0 == es[j].0) by {
            assert forall|j: int| 0 <= j < es2.len() implies #[trigger] es2[j].0 == es[j].0 by {
                if j != i {
                    assert(es2[j] == es[j]);
                }
            }
        }
        assert(first_key_at(es2, section, i));
        lemma_lookup_at(es2, section, i);
        lemma_lookup_at(es, section, i);
        lemma_table_set_shape(es[i].1, es2[i].1, field, v);
        lemma_entries_set_same(entries_of(es[i].1), entries_of(es2[i].1), field, v);
        if other != field {
            lemma_entries_set_other(entries_of(es[i].1), entries_of(es2[i].1), field, v, other);
        }
    } else {
        let n = es.len() as int;
        lemma_no_key(es, section);
        lemma_appended(es, es2);
        assert(first_key_at(es2, section, n));
        lemma_lookup_at(es2, section, n);
        lemma_lookup_none(es, section);
        let sec2 = es2[n].1;
        let ses = entries_of(sec2);
        assert(first_key_at(ses, field, 0));
        lemma_lookup_at(ses, field, 0);
        if other != field {
            lemma_names_differ(ses[0].0, field, other);
            lemma_lookup_none(ses, other);
        }
    }
}

/// A nested write keeps the value of every other top-level key.
proof fn lemma_nested_other_section(old: Node, new: Node, section: Seq<char>, field: Seq<char>, v: Node, other: Seq<char>)
    requires
        nested_set(old, new, section, field, v),
        other != section,
    ensures
        child(new, other) == child(old, other),
{
    lemma_nested_set_shape(old, new, section, field, v);
    let es = entries_of(old);
    let es2 = entries_of(new);
    if has_key(es, section) {
        let i = key_index(es, section);
        assert(first_key_at(es, section, i));
        lemma_in_place_other(es, es2, section, i, other);
    } else {
        lemma_append_other(es, es2, section, other);
    }
}

/// Entries with the same keys as entries without a repeated key have none
/// either.
proof fn lemma_same_keys_distinct(es: Seq<(Node, Node)>, es2: Seq<(Node, Node)>)
    requires
        distinct_keys(es),
        es2.len() == es.len(),
        forall|j: int| 0 <= j < es.len() ==> #[trigger] es2[j].0 == es[j].0,
    ensures
        distinct_keys(es2),
{
    assert forall|i: int, j: int, name: Seq<char>|
        0 <= i < j < es2.len() && #[trigger] key_named(es2[i].0, name) implies !#[trigger] key_named(
            es2[j].0,
            name,
        ) by {
        assert(es2[i].0 == es[i].0);
        assert(es2[j].0 == es[j].0);
        assert(key_named(es[i].0, name));
    }
}

/// Appending an entry under a key that no entry has repeats no key.
proof fn lemma_append_distinct(es: Seq<(Node, Node)>, es2: Seq<(Node, Node)>, name: Seq<char>)
    requires
        distinct_keys(es),
        !has_key(es, name),
        es2.len() == es.len() + 1,
        es2.take(es.len() as int) == es,
        key_named(es2[es.len() as int].0, name),
    ensures
        distinct_keys(es2),
{
    let n = es.len() as int;
    lemma_no_key(es, name);
    lemma_appended(es, es2);
    assert forall|i: int, j: int, nm: Seq<char>|
        0 <= i < j < es2.len() && #[trigger] key_named(es2[i].0, nm) implies !#[trigger] key_named(
            es2[j].0,
            nm,
        ) by {
        assert(es2[i] == es[i]);
        if j < n {
            assert(es2[j] == es[j]);
            assert(key_named(es[i].0, nm));
        } else if key_named(es2[j].0, nm) {
            assert(nm == name);
            assert(!key_named(es[i].0, name));
        }
    }
}

/// A write into entries without a repeated key repeats none.
proof fn lemma_entries_set_distinct(es: Seq<(Node, Node)>, es2: Seq<(Node, Node)>, name: Seq<char>, v: Node)
    requires
        distinct_keys(es),
        entries_set(es, es2, name, v),
    ensures
        distinct_keys(es2),
{
    if has_key(es, name) {
        let i = key_index(es, name);
        assert forall|j: int| 0 <= j < es.len() implies #[trigger] es2[j].0 == es[j].0 by {}
        lemma_same_keys_distinct(es, es2);
    } else {
        lemma_append_distinct(es, es2, name);
    }
}

/// A nested write into entries without a repeated key repeats none, and
/// leaves a section without a repeated key when it had none.
proof fn lemma_entries_nested_distinct(
    es: Seq<(Node, Node)>,
    es2: Seq<(Node, Node)>,
    section: Seq<char>,
    field: Seq<char>,
    v: Node,
)
    requires
        distinct_keys(es),
        entries_set_nested(es, es2, section, field, v),
        lookup(es, section) matches Some(sec) ==> distinct_keys(entries_of(sec)),
    ensures
        distinct_keys(es2),
        lookup(es2, section) matches Some(sec2) && distinct_keys(entries_of(sec2)),
{
    if has_key(es, section) {
        let i = key_index(es, section);
        assert(first_key_at(es, section, i));
        assert forall|j: int| 0 <= j < es.len() implies #[trigger] es2[j].0 == es[j].0 by {
            if j != i {
                assert(es2[j] == es[j]);
            }
        }
        lemma_same_keys_distinct(es, es2);
        assert(first_key_at(es2, section, i));
        lemma_lookup_at(es2, section, i);
        lemma_lookup_at(es, section, i);
        lemma_table_set_shape(es[i].1, es2[i].1, field, v);
        lemma_entries_set_distinct(entries_of(es[i].1), entries_of(es2[i].1), field, v);
    } else {
        let n = es.len() as int;
        lemma_append_distinct(es, es2, section);
        lemma_no_key(es, section);
        lemma_appended(es, es2);
        assert(first_key_at(es2, section, n));
        lemma_lookup_at(es2, section, n);
    }
}

/// Law: a value written under a key is what a read of that key gives back.
pub proof fn lemma_get_after_set(old: Node, new: Node, key: Seq<char>, v: Node)
    requires
        node_set(old, new, key, v),
    ensures
        node_at(new, key) == Some(v),
{
    if is_nested(key) {
        lemma_nested_section(old, new, key_head(key), key_rest(key), v, key_rest(key));
    } else {
        lemma_table_set_shape(old, new, key, v);
        lemma_entries_set_same(entries_of(old), entries_of(new), key, v);
    }
}

/// Two writes of one name into entries are the second write alone.
proof fn lemma_entries_set_twice(
    es: Seq<(Node, Node)>,
    es1: Seq<(Node, Node)>,
    es2: Seq<(Node, Node)>,
    name: Seq<char>,
    v1: Node,
    v2: Node,
)
    requires
        entries_set(es, es1, name, v1),
        entries_set(es1, es2, name, v2),
    ensures
        entries_set(es, es2, name, v2),
{
    if has_key(es, name) {
        let i = key_index(es, name);
        assert(first_key_at(es, name, i));
        assert(first_key_at(es1, name, i));
        lemma_lookup_at(es1, name, i);
        assert(es2 =~= es.update(i, (es[i].0, v2)));
    } else {
        let n = es.len() as int;
        lemma_no_key(es, name);
        lemma_appended(es, es1);
        assert(first_key_at(es1, name, n));
        lemma_lookup_at(es1, name, n);
        assert(es2.take(n) =~= es);
    }
}

/// Two writes of one name into a table are the second write alone.
proof fn lemma_table_set_twice(a: Node, b: Node, c: Node, name: Seq<char>, v1: Node, v2: Node)
    requires
        table_set(a, b, name, v1),
        table_set(b, c, name, v2),
    ensures
        table_set(a, c, name, v2),
    decreases a,
{
    match a {
        Node::Tagged(_, ia) => match b {
            Node::Tagged(_, ib) => match c {
                Node::Tagged(_, ic) => lemma_table_set_twice(*ia, *ib, *ic, name, v1, v2),
                _ => {},
            },
            _ => {},
        },
        Node::Table(ea) => match b {
            Node::Table(eb) => match c {
                Node::Table(ec) => lemma_entries_set_twice(ea@, eb@, ec@, name, v1, v2),
                _ => {},
            },
            _ => {},
        },
        _ => {},
    }
}

/// Two nested writes of one section and field into entries are the second
/// write alone.
proof fn lemma_entries_nested_twice(
    es: Seq<(Node, Node)>,
    es1: Seq<(Node, Node)>,
    es2: Seq<(Node, Node)>,
    section: Seq<char>,
    field: Seq<char>,
    v1: Node,
    v2: Node,
)
    requires
        entries_set_nested(es, es1, section, field, v1),
        entries_set_nested(es1, es2, section, field, v2),
    ensures
        entries_set_nested(es, es2, section, field, v2),
{
    if has_key(es, section) {
        let i = key_index(es, section);
        assert(first_key_at(es, section, i));
        assert(forall|j: int| 0 <= j < es1.len() ==> #[trigger] es1[j].0 == es[j].0) by {
            assert forall|j: int| 0 <= j < es1.len() implies #[trigger] es1[j].0 == es[j].0 by {
                if j != i {
                    assert(es1[j] == es[j]);
                }
            }
        }
        assert(first_key_at(es1, section, i));
        lemma_lookup_at(es1, section, i);
        lemma_table_set_twice(es[i].1, es1[i].1, es2[i].1, field, v1, v2);
        assert forall|j: int| 0 <= j < es.len() && j != i implies #[trigger] es2[j] == es[j] by {
            assert(es2[j] == es1[j]);
        }
    } else {
        let n = es.len() as int;
        lemma_no_key(es, section);
        lemma_appended(es, es1);
        assert(first_key_at(es1, section, n));
        lemma_lookup_at(es1, section, n);
        assert(es2.take(n) =~= es) by {
            assert forall|j: int| 0 <= j < n implies es2.take(n)[j] == es[j] by {
                assert(es2[j] == es1[j]);
            }
        }
        let t1 = es1[n].1;
        let t2 = es2[n].1;
        match t1 {
            Node::Table(e1) => match t2 {
                Node::Table(e2) => {
                    assert(first_key_at(e1@, field, 0));
                    lemma_lookup_at(e1@, field, 0);
                    assert(e2@ =~= e1@.update(0, (e1@[0].0, v2)));
                },
                _ => {},
            },
            _ => {},
        }
    }
}

/// Two nested writes of one key into a document are the second write alone.
proof fn lemma_nested_set_twice(
    a: Node,
    b: Node,
    c: Node,
    section: Seq<char>,
    field: Seq<char>,
    v1: Node,
    v2: Node,
)
    requires
        nested_set(a, b, section, field, v1),
        nested_set(b, c, section, field, v2),
    ensures
        nested_set(a, c, section, field, v2),
    decreases a,
{
    match a {
        Node::Tagged(_, ia) => match b {
            Node::Tagged(_, ib) => match c {
                Node::Tagged(_, ic) => lemma_nested_set_twice(*ia, *ib, *ic, section, field, v1, v2),
                _ => {},
            },
            _ => {},
        },
        Node::Table(ea) => match b {
            Node::Table(eb) => match c {
                Node::Table(ec) => lemma_entries_nested_twice(ea@, eb@, ec@, section, field, v1, v2),
                _ => {},
            },
            _ => {},
        },
        _ => {},
    }
}

/// Law: the last write wins. Writing `v1` and then `v2` under one key gives a
/// document that writing `v2` alone gives, with no second entry for the key
/// (with `v1 == v2`, a repeated write changes nothing more).
pub proof fn lemma_last_write_wins(d0: Node, d1: Node, d2: Node, key: Seq<char>, v1: Node, v2: Node)
    requires
        node_set(d0, d1, key, v1),
        node_set(d1, d2, key, v2),
    ensures
        node_set(d0, d2, key, v2),
{
    if is_nested(key) {
        lemma_nested_set_twice(d0, d1, d2, key_head(key), key_rest(key), v1, v2);
    } else {
        lemma_table_set_twice(d0, d1, d2, key, v1, v2);
    }
}

/// Law: a write adds no second entry for a key. When the document's table
/// has no key twice, neither has the written one; and for a `section.field`
/// key, when the section had no key twice (or was missing), the section after
/// the write has none either.
pub proof fn lemma_set_keeps_keys_distinct(old: Node, new: Node, key: Seq<char>, v: Node)
    requires
        node_set(old, new, key, v),
        distinct_keys(entries_of(old)),
        is_nested(key) ==> (child(old, key_head(key)) matches Some(sec) ==> distinct_keys(
            entries_of(sec),
        )),
    ensures
        distinct_keys(entries_of(new)),
        is_nested(key) ==> (child(new, key_head(key)) matches Some(sec2) && distinct_keys(
            entries_of(sec2),
        )),
{
    if is_nested(key) {
        lemma_nested_set_shape(old, new, key_head(key), key_rest(key), v);
        lemma_entries_nested_distinct(
            entries_of(old),
            entries_of(new),
            key_head(key),
            key_rest(key),
            v,
        );
    } else {
        lemma_table_set_shape(old, new, key, v);
        lemma_entries_set_distinct(entries_of(old), entries_of(new), key, v);
    }
}

/// Law: the text that a read gives for an integer is its decimal rendering:
/// parsing it as an `i64` (for a signed value) or a `u64` (for an unsigned
/// one) gives the integer back, for every value of the type.
pub proof fn lemma_integer_text_reads_back(i: i64, u: u64)
    ensures
        scalar_text(Node::Int(i)) matches Some(t) && int_of(t, i64::MIN as int, i64::MAX as int) == Some(
            i as int,
        ),
        scalar_text(Node::UInt(u)) matches Some(t) && int_of(t, 0, u64::MAX as int) == Some(u as int),
{
    lemma_int_text_reads_back(i as int, i64::MIN as int, i64::MAX as int);
    lemma_int_text_reads_back(u as int, 0, u64::MAX as int);
}

/// Law: a string written under a key is the text that a read of that key
/// gives back.
pub proof fn lemma_text_after_set(old: Node, new: Node, key: Seq<char>, s: String)
    requires
        node_set(old, new, key, Node::Str(s)),
    ensures
        node_at(new, key) matches Some(n) && scalar_text(n) == Some(s@),
{
    lemma_get_after_set(old, new, key, Node::Str(s));
}

/// Law: writing a key leaves every key apart from it as it was.
pub proof fn lemma_set_keeps_other_keys(old: Node, new: Node, key: Seq<char>, v: Node, other: Seq<char>)
    requires
        node_set(old, new, key, v),
        keys_apart(key, other),
    ensures
        node_at(new, other) == node_at(old, other),
{
    let h = key_head(key);
    let h2 = key_head(other);
    if h != h2 {
        // the top-level entry that `other` goes through is untouched
        if is_nested(key) {
            lemma_nested_other_section(old, new, h, key_rest(key), v, h2);
        } else {
            lemma_table_set_shape(old, new, key, v);
            lemma_entries_set_other(entries_of(old), entries_of(new), key, v, h2);
        }
    } else {
        // both nested in the same section, with different fields
        lemma_nested_section(old, new, h, key_rest(key), v, key_rest(other));
    }
}

// ---------------------------------------------------------------------------
// Operations
// ---------------------------------------------------------------------------

/// An empty table: the document of a config file that does not exist yet.
pub fn empty_table() -> (r: Node)
    ensures
        r matches Node::Table(es) && es@.len() == 0,
{
    Node::Table(Vec::new())
}

/// The node under the tags of `n`.
fn untag_ref(n: &Node) -> (r: &Node)
    ensures
        *r == untagged(*n),
    decreases n,
{
    match n {
        Node::Tagged(_, inner) => untag_ref(inner),
        _ => n,
    }
}

/// Whether `n`, under its tags, is a table.
pub fn is_table_node(n: &Node) -> (r: bool)
    ensures
        r == is_table(*n),
{
    let u = untag_ref(n);
    match u {
        Node::Table(_) => true,
        _ => false,
    }
}

/// The entries of the table under the tags of `n`.
fn entries_ref(n: &Node) -> (r: &Vec<(Node, Node)>)
    requires
        is_table(*n),
    ensures
        untagged(*n) == Node::Table(*r),
        r@ == entries_of(*n),
{
    let u = untag_ref(n);
    match u {
        Node::Table(es) => es,
        _ => vstd::pervasive::unreached(),
    }
}

/// The entries of the table under the tags of `node`, to change in place.
fn entries_mut(node: &mut Node) -> (r: &mut Vec<(Node, Node)>)
    requires
        is_table(*old(node)),
    ensures
        untagged(*old(node)) == Node::Table(*r),
        *final(node) == with_table(*old(node), *final(r)),
    decreases *old(node),
{
    match node {
        Node::Tagged(_, inner) => entries_mut(&mut **inner),
        Node::Table(es) => es,
        _ => vstd::pervasive::unreached(),
    }
}

/// Putting back set entries gives a table that is set.
proof fn lemma_with_table_set(n: Node, es: Vec<(Node, Node)>, es2: Vec<(Node, Node)>, name: Seq<char>, v: Node)
    requires
        untagged(n) == Node::Table(es),
        entries_set(es@, es2@, name, v),
    ensures
        table_set(n, with_table(n, es2), name, v),
    decreases n,
{
    match n {
        Node::Tagged(_, inner) => lemma_with_table_set(*inner, es, es2, name, v),
        _ => {},
    }
}

/// Putting back nested-set entries gives a document that is nested-set.
proof fn lemma_with_table_nested(
    n: Node,
    es: Vec<(Node, Node)>,
    es2: Vec<(Node, Node)>,
    section: Seq<char>,
    field: Seq<char>,
    v: Node,
)
    requires
        untagged(n) == Node::Table(es),
        entries_set_nested(es@, es2@, section, field, v),
    ensures
        nested_set(n, with_table(n, es2), section, field, v),
    decreases n,
{
    match n {
        Node::Tagged(_, inner) => lemma_with_table_nested(*inner, es, es2, section, field, v),
        _ => {},
    }
}

/// The index of the first entry of `es` with the string key `name`.
fn find_key(es: &Vec<(Node, Node)>, name: &String) -> (r: Option<usize>)
    ensures
        r matches Some(i) ==> first_key_at(es@, name@, i as int),
        r is None ==> !has_key(es@, name@),
{
    let mut i: usize = 0;
    while i < es.len()
        invariant
            i <= es@.len(),
            forall|j: int| 0 <= j < i ==> !key_named(#[trigger] es@[j].0, name@),
        decreases es@.len() - i,
    {
        let hit = match &es[i].0 {
            Node::Str(s) => *s == *name,
            _ => false,
        };
        if hit {
            return Some(i);
        }
        i = i + 1;
    }
    proof {
        lemma_lookup_none(es@, name@);
    }
    None
}

/// The value that `n` holds under the string key `name`.
fn find_child<'a>(n: &'a Node, name: &String) -> (r: Option<&'a Node>)
    ensures
        match r {
            Some(c) => child(*n, name@) == Some(*c),
            None => child(*n, name@) is None,
        },
{
    if !is_table_node(n) {
        return None;
    }
    let es = entries_ref(n);
    match find_key(es, name) {
        Some(i) => {
            proof {
                lemma_lookup_at(es@, name@, i as int);
            }
            Some(&es[i].1)
        },
        None => None,
    }
}

/// Split `key` at its first `.` (`key.splitn(2, '.')`).
pub fn split_key(key: &str) -> (r: KeyPath)
    ensures
        match r {
            KeyPath::Field(f) => !is_nested(key@) && f@ == key@,
            KeyPath::Nested(s, f) => is_nested(key@) && s@ == key_head(key@) && f@ == key_rest(key@),
        },
{
    let cs = chars_of(key);
    let mut i: usize = 0;
    while i < cs.len()
        invariant
            i <= cs@.len(),
            cs@ == key@,
            forall|j: int| 0 <= j < i ==> #[trigger] cs@[j] != '.',
        decreases cs@.len() - i,
    {
        if cs[i] == '.' {
            proof {
                assert(first_dot_at(key@, i as int));
                let d = dot_index(key@);
                assert(first_dot_at(key@, d));
                lemma_first_dot_unique(key@, i as int, d);
                assert(cs@.subrange(0, i as int) =~= key@.take(i as int));
                assert(cs@.subrange(i + 1, cs@.len() as int) =~= key@.skip(i + 1));
            }
            let section = string_of(&cs, 0, i);
            let field = string_of(&cs, i + 1, cs.len());
            return KeyPath::Nested(section, field);
        }
        i = i + 1;
    }
    proof {
        if is_nested(key@) {
            let d = dot_index(key@);
            assert(first_dot_at(key@, d));
            assert(cs@[d] == '.');
        }
        assert(cs@.subrange(0, cs@.len() as int) =~= key@);
    }
    KeyPath::Field(string_of(&cs, 0, cs.len()))
}

/// Whether `s` holds a `.`.
fn has_dot(s: &String) -> (r: bool)
    ensures
        r == is_nested(s@),
{
    let cs = chars_of(s.as_str());
    let mut i: usize = 0;
    while i < cs.len()
        invariant
            i <= cs@.len(),
            cs@ == s@,
            forall|j: int| 0 <= j < i ==> #[trigger] cs@[j] != '.',
        decreases cs@.len() - i,
    {
        if cs[i] == '.' {
            assert(first_dot_at(s@, i as int));
            return true;
        }
        i = i + 1;
    }
    proof {
        if is_nested(s@) {
            let d = dot_index(s@);
            assert(first_dot_at(s@, d));
            assert(cs@[d] == '.');
        }
    }
    false
}

/// Look up the value node at `key`.
///
/// Fails with `InvalidKey` when `key` has more than one `.` (a key is `field`
/// or `section.field`), and with `KeyNotFound` when `key` names nothing: a
/// flat key missing from the root table, a missing section, a section that is
/// no table, or a field missing from its section.
pub fn get_node<'a>(doc: &'a Node, key: &str) -> (r: Result<&'a Node, DotCfgError>)
    ensures
        match r {
            Ok(n) => node_at(*doc, key@) == Some(*n),
            Err(e) => node_at(*doc, key@) is None && lookup_error(key@, e),
        },
{
    let found = match split_key(key) {
        KeyPath::Field(f) => find_child(doc, &f),
        KeyPath::Nested(s, f) => {
            if has_dot(&f) {
                return Err(DotCfgError::InvalidKey(String::from_str(key)));
            }
            match find_child(doc, &s) {
                Some(section) => find_child(section, &f),
                None => None,
            }
        },
    };
    match found {
        Some(n) => Ok(n),
        None => Err(DotCfgError::KeyNotFound(String::from_str(key))),
    }
}

/// The value that `n` holds under the string key `name`, moved out of `n`.
fn take_child(n: Node, name: &String) -> (r: Option<Node>)
    ensures
        r == child(n, name@),
    decreases n,
{
    match n {
        Node::Tagged(_, inner) => take_child(*inner, name),
        Node::Table(mut es) => match find_key(&es, name) {
            Some(i) => {
                proof {
                    lemma_lookup_at(es@, name@, i as int);
                }
                let (_, v) = es.remove(i);
                Some(v)
            },
            None => None,
        },
        _ => None,
    }
}

/// The value node at `key`, moved out of the document (see [`get_node`]).
pub fn take_node(doc: Node, key: &str) -> (r: Result<Node, DotCfgError>)
    ensures
        match r {
            Ok(n) => node_at(doc, key@) == Some(n),
            Err(e) => node_at(doc, key@) is None && lookup_error(key@, e),
        },
{
    let found = match split_key(key) {
        KeyPath::Field(f) => take_child(doc, &f),
        KeyPath::Nested(s, f) => {
            if has_dot(&f) {
                return Err(DotCfgError::InvalidKey(String::from_str(key)));
            }
            match take_child(doc, &s) {
                Some(section) => take_child(section, &f),
                None => None,
            }
        },
    };
    match found {
        Some(n) => Ok(n),
        None => Err(DotCfgError::KeyNotFound(String::from_str(key))),
    }
}

/// The text `get()` gives for a scalar value (`None` for a list, a table or a
/// tagged value, which their format renders).
pub fn node_text(n: &Node) -> (r: Option<String>)
    ensures
        match r {
            Some(t) => scalar_text(*n) == Some(t@),
            None => scalar_text(*n) is None,
        },
{
    match n {
        Node::Null => Some(String::from_str("null")),
        Node::Bool(b) => Some(
            if *b {
                String::from_str("true")
            } else {
                String::from_str("false")
            },
        ),
        Node::Int(i) => Some(i64_text(*i)),
        Node::UInt(u) => Some(u64_text(*u)),
        Node::Float(f) => Some(f.text.clone()),
        Node::Str(s) => Some(s.clone()),
        Node::Datetime(d) => Some(d.clone()),
        _ => None,
    }
}

/// The text of the value at `key`: `Ok(None)` when that value is a list, a
/// table or a tagged value, which its format renders.
pub fn get_value(doc: &Node, key: &str) -> (r: Result<Option<String>, DotCfgError>)
    ensures
        match r {
            Ok(t) => node_at(*doc, key@) matches Some(n) && match t {
                Some(t) => scalar_text(n) == Some(t@),
                None => scalar_text(n) is None,
            },
            Err(e) => node_at(*doc, key@) is None && lookup_error(key@, e),
        },
{
    let n = get_node(doc, key)?;
    Ok(node_text(n))
}

/// Give the string key `name` the value `v` in the entries `es`.
fn insert_entry(es: &mut Vec<(Node, Node)>, name: String, v: Node)
    ensures
        entries_set(old(es)@, final(es)@, name@, v),
{
    match find_key(es, &name) {
        Some(i) => {
            proof {
                lemma_lookup_at(es@, name@, i as int);
            }
            let (k, _previous) = es.remove(i);
            es.insert(i, (k, v));
            assert(es@ =~= old(es)@.update(i as int, (old(es)@[i as int].0, v)));
        },
        None => {
            es.push((Node::Str(name), v));
            assert(es@.take(old(es)@.len() as int) =~= old(es)@);
        },
    }
}

/// Write the value node `new_val` at `key`, creating the section of a
/// `section.field` key when it is missing.
///
/// Fails with `NotATable("root")` when the document is no table, with
/// `InvalidKey(key)` when the key has more than one `.`, and with
/// `NotATable(section)` when the section exists but is no table; the document
/// is then left as it was.
pub fn set_node(doc: &mut Node, key: &str, new_val: Node) -> (r: Result<(), DotCfgError>)
    ensures
        r is Ok <==> can_set(*old(doc), key@),
        r is Ok ==> node_set(*old(doc), *final(doc), key@, new_val),
        r matches Err(e) ==> {
            &&& *final(doc) == *old(doc)
            &&& set_error(*old(doc), key@, e)
        },
{
    if !is_table_node(doc) {
        return Err(DotCfgError::NotATable(String::from_str("root")));
    }
    match split_key(key) {
        KeyPath::Field(f) => {
            let ghost old_doc = *doc;
            let es = entries_mut(doc);
            let ghost old_es = *es;
            insert_entry(es, f, new_val);
            proof {
                lemma_with_table_set(old_doc, old_es, *es, key@, new_val);
            }
            Ok(())
        },
        KeyPath::Nested(s, f) => {
            if has_dot(&f) {
                return Err(DotCfgError::InvalidKey(String::from_str(key)));
            }
            let found = find_key(entries_ref(doc), &s);
            match found {
                Some(i) => {
                    proof {
                        lemma_lookup_at(entries_of(*doc), s@, i as int);
                    }
                    if !is_table_node(&entries_ref(doc)[i].1) {
                        return Err(DotCfgError::NotATable(s));
                    }
                    let ghost old_doc = *doc;
                    let es = entries_mut(doc);
                    let ghost old_es = *es;
                    let (k, mut section) = es.remove(i);
                    let ghost old_section = section;
                    {
                        let ses = entries_mut(&mut section);
                        let ghost old_ses = *ses;
                        insert_entry(ses, f, new_val);
                        proof {
                            lemma_with_table_set(old_section, old_ses, *ses, f@, new_val);
                        }
                    }
                    es.insert(i, (k, section));
                    proof {
                        assert(forall|j: int|
                            0 <= j < old_es@.len() && j != i ==> #[trigger] es@[j] == old_es@[j]);
                        lemma_with_table_nested(old_doc, old_es, *es, s@, f@, new_val);
                    }
                    Ok(())
                },
                None => {
                    let ghost old_doc = *doc;
                    let es = entries_mut(doc);
                    let ghost old_es = *es;
                    let mut fresh: Vec<(Node, Node)> = Vec::new();
                    fresh.push((Node::Str(f), new_val));
                    es.push((Node::Str(s), Node::Table(fresh)));
                    proof {
                        assert(es@.take(old_es@.len() as int) =~= old_es@);
                        lemma_with_table_nested(old_doc, old_es, *es, key_head(key@), key_rest(key@), new_val);
                    }
                    Ok(())
                },
            }
        },
    }
}

/// Write the string `value` at `key` (see [`set_node`]).
pub fn set_value(doc: &mut Node, key: &str, value: &str) -> (r: Result<(), DotCfgError>)
    ensures
        r is Ok <==> can_set(*old(doc), key@),
        r is Ok ==> exists|s: String| s@ == value@ && node_set(*old(doc), *final(doc), key@, Node::Str(s)),
        r matches Err(e) ==> {
            &&& *final(doc) == *old(doc)
            &&& set_error(*old(doc), key@, e)
        },
{
    let s = String::from_str(value);
    let ghost sv = s;
    let r = set_node(doc, key, Node::Str(s));
    proof {
        if r is Ok {
            assert(node_set(*old(doc), *doc, key@, Node::Str(sv)));
        }
    }
    r
}

} // verus!
