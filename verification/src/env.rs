//! Reading environment-variable overrides.
//!
//! Environment variables are untyped strings, so unlike the file path — where a
//! value already carries its format's native type — an override has to be
//! interpreted on the way out. [`EnvTarget`] describes the shape of the value a
//! caller asks for, and [`from_env_str`] reads a raw value as that shape:
//!
//! - strings as they are; `char` as exactly one character
//! - integers and floats as `str::parse` reads them, surrounding space trimmed
//! - `bool` — `true` / `false`, case-insensitive, plus `1` / `0`
//! - unit-variant enums — the variant name
//! - `Option<T>` — a var that is set is always `Some`
//! - sequences — **comma-separated**, e.g. `MYAPP_TAGS=cli,fast`, with each
//!   element trimmed; an empty var is an empty sequence
//!
//! Maps and structs are rejected with a clear error rather than silently
//! failing — express those as separate nested keys instead.

use vstd::prelude::*;
use vstd::string::*;
use vstd::utf8::encode_utf8;

use crate::error::DotCfgError;
use crate::parse::{
    chars_equal, comma_ranges, float_check, int_of, is_float_text, lemma_int_text_reads_back,
    lemma_int_text_shape, parse_signed, parse_unsigned, split_commas,
};
use crate::text::{
    ascii_lower, chars_of, int_text, lemma_trim_unchanged, lower_range, string_of, trim, trim_range,
};

verus! {

/// The shape of the value a caller reads from an environment variable.
#[derive(Debug, PartialEq)]
pub enum EnvTarget {
    Bool,
    I8,
    I16,
    I32,
    I64,
    I128,
    U8,
    U16,
    U32,
    U64,
    U128,
    F32,
    F64,
    Char,
    /// A string (also an identifier, or a value of a self-describing type).
    Str,
    Bytes,
    /// `()`, a unit struct, or a value that is ignored.
    Unit,
    /// `Option<T>`.
    Optional(Box<EnvTarget>),
    /// A newtype struct around `T`.
    Newtype(Box<EnvTarget>),
    /// A sequence (`Vec<T>`, arrays, tuples) of `T`.
    List(Box<EnvTarget>),
    /// A map.
    Mapping,
    /// A struct, by its name.
    Struct(String),
    /// An enum with unit variants.
    Enum,
}

/// A value read from an environment variable.
#[derive(Debug, PartialEq)]
pub enum EnvValue {
    Bool(bool),
    /// A value of a signed integer type.
    Signed(i128),
    /// A value of an unsigned integer type.
    Unsigned(u128),
    /// A floating-point number, as its (trimmed) text.
    Float(String),
    Char(char),
    Str(String),
    Bytes(Vec<u8>),
    Unit,
    /// `Some` of an `Option`.
    Present(Box<EnvValue>),
    Newtype(Box<EnvValue>),
    List(Vec<EnvValue>),
    /// The name of an enum's unit variant.
    Variant(String),
}

/// The name of the type an integer or float target stands for.
pub open spec fn target_name(t: EnvTarget) -> Seq<char> {
    match t {
        EnvTarget::Bool => "bool"@,
        EnvTarget::I8 => "i8"@,
        EnvTarget::I16 => "i16"@,
        EnvTarget::I32 => "i32"@,
        EnvTarget::I64 => "i64"@,
        EnvTarget::I128 => "i128"@,
        EnvTarget::U8 => "u8"@,
        EnvTarget::U16 => "u16"@,
        EnvTarget::U32 => "u32"@,
        EnvTarget::U64 => "u64"@,
        EnvTarget::U128 => "u128"@,
        EnvTarget::F32 => "f32"@,
        EnvTarget::F64 => "f64"@,
        EnvTarget::Char => "char"@,
        _ => Seq::empty(),
    }
}

/// Whether `t` is a signed integer target.
pub open spec fn is_signed(t: EnvTarget) -> bool {
    t is I8 || t is I16 || t is I32 || t is I64 || t is I128
}

/// Whether `t` is an unsigned integer target.
pub open spec fn is_unsigned(t: EnvTarget) -> bool {
    t is U8 || t is U16 || t is U32 || t is U64 || t is U128
}

/// The smallest value of an integer target's type.
pub open spec fn min_of(t: EnvTarget) -> int {
    match t {
        EnvTarget::I8 => i8::MIN as int,
        EnvTarget::I16 => i16::MIN as int,
        EnvTarget::I32 => i32::MIN as int,
        EnvTarget::I64 => i64::MIN as int,
        EnvTarget::I128 => i128::MIN as int,
        _ => 0,
    }
}

/// The largest value of an integer target's type.
pub open spec fn max_of(t: EnvTarget) -> int {
    match t {
        EnvTarget::I8 => i8::MAX as int,
        EnvTarget::I16 => i16::MAX as int,
        EnvTarget::I32 => i32::MAX as int,
        EnvTarget::I64 => i64::MAX as int,
        EnvTarget::I128 => i128::MAX as int,
        EnvTarget::U8 => u8::MAX as int,
        EnvTarget::U16 => u16::MAX as int,
        EnvTarget::U32 => u32::MAX as int,
        EnvTarget::U64 => u64::MAX as int,
        EnvTarget::U128 => u128::MAX as int,
        _ => 0,
    }
}

/// `expected <what>, got '<raw>'`.
pub open spec fn expected_msg(what: Seq<char>, raw: Seq<char>) -> Seq<char> {
    "expected "@ + what + ", got '"@ + raw + "'"@
}

/// `cannot read <what> from an environment variable; use nested keys instead`.
pub open spec fn nested_keys_msg(what: Seq<char>) -> Seq<char> {
    "cannot read "@ + what + " from an environment variable; use nested keys instead"@
}

/// What a raw value reads as a `bool`: `true`/`1` and `false`/`0`, in any
/// case, surrounding space trimmed.
pub open spec fn bool_of(raw: Seq<char>) -> Option<bool> {
    bool_of_trimmed(trim(raw))
}

/// The elements of a sequence read from `raw`: none when `raw` is blank, else
/// its comma-separated pieces, each trimmed.
pub open spec fn list_parts(raw: Seq<char>) -> Seq<Seq<char>> {
    if trim(raw).len() == 0 {
        Seq::empty()
    } else {
        split_commas(raw).map_values(|p: Seq<char>| trim(p))
    }
}

/// The error that reading `raw` as `t` gives, or `None` when it can be read.
/// A sequence fails with the error of its first element that fails.
pub open spec fn env_error(raw: Seq<char>, t: EnvTarget) -> Option<Seq<char>>
    decreases t,
{
    match t {
        EnvTarget::Bool => if bool_of(raw) is Some {
            None
        } else {
            Some(expected_msg(target_name(t), raw))
        },
        EnvTarget::F32 | EnvTarget::F64 => if is_float_text(trim(raw)) {
            None
        } else {
            Some(expected_msg(target_name(t), raw))
        },
        EnvTarget::Char => if trim(raw).len() == 1 {
            None
        } else {
            Some(expected_msg(target_name(t), raw))
        },
        EnvTarget::Str | EnvTarget::Bytes | EnvTarget::Unit | EnvTarget::Enum => None,
        EnvTarget::Optional(inner) => env_error(raw, *inner),
        EnvTarget::Newtype(inner) => env_error(raw, *inner),
        EnvTarget::List(inner) => {
            let parts = list_parts(raw);
            if exists|i: int| 0 <= i < parts.len() && env_error(parts[i], *inner) is Some {
                let i = choose|i: int|
                    {
                        &&& 0 <= i < parts.len()
                        &&& env_error(parts[i], *inner) is Some
                        &&& forall|j: int| 0 <= j < i ==> env_error(parts[j], *inner) is None
                    };
                env_error(parts[i], *inner)
            } else {
                None
            }
        },
        EnvTarget::Mapping => Some(nested_keys_msg("a map"@)),
        EnvTarget::Struct(name) => Some(nested_keys_msg("struct `"@ + name@ + "`"@)),
        _ => if int_of(trim(raw), min_of(t), max_of(t)) is Some {
            None
        } else {
            Some(expected_msg(target_name(t), raw))
        },
    }
}

/// `v` is the value that reading `raw` as `t` gives (when it does not fail).
pub open spec fn env_value_of(raw: Seq<char>, t: EnvTarget, v: EnvValue) -> bool
    decreases t,
{
    match t {
        EnvTarget::Bool => (v matches EnvValue::Bool(b) && b == bool_of(raw)->0),
        EnvTarget::F32 | EnvTarget::F64 => (v matches EnvValue::Float(s) && s@ == trim(raw)),
        EnvTarget::Char => (v matches EnvValue::Char(ch) && trim(raw).len() > 0 && ch == trim(raw)[0]),
        EnvTarget::Str => (v matches EnvValue::Str(s) && s@ == raw),
        EnvTarget::Bytes => (v matches EnvValue::Bytes(b) && b@ == encode_utf8(raw)),
        EnvTarget::Unit => v is Unit,
        EnvTarget::Enum => (v matches EnvValue::Variant(s) && s@ == trim(raw)),
        EnvTarget::Optional(inner) => (v matches EnvValue::Present(b) && env_value_of(
            raw,
            *inner,
            *b,
        )),
        EnvTarget::Newtype(inner) => (v matches EnvValue::Newtype(b) && env_value_of(
            raw,
            *inner,
            *b,
        )),
        EnvTarget::List(inner) => (v matches EnvValue::List(vs) && vs@.len() == list_parts(
            raw,
        ).len() && forall|i: int|
            0 <= i < vs@.len() ==> env_value_of(list_parts(raw)[i], *inner, #[trigger] vs@[i])),
        EnvTarget::Mapping | EnvTarget::Struct(_) => false,
        _ => if is_signed(t) {
            v matches EnvValue::Signed(x) && x as int == int_of(trim(raw), min_of(t), max_of(t))->0
        } else {
            v matches EnvValue::Unsigned(x) && x as int == int_of(trim(raw), min_of(t), max_of(t))->0
        },
    }
}

/// The decimal text of an integer is its own trim and parses back as the
/// integer within any range that holds it.
proof fn lemma_integer_text(x: int, lo: int, hi: int)
    requires
        lo <= x <= hi,
        lo < 0 || x >= 0,
    ensures
        trim(int_text(x)) == int_text(x),
        int_of(int_text(x), lo, hi) == Some(x),
{
    lemma_int_text_shape(x);
    lemma_trim_unchanged(int_text(x));
    lemma_int_text_reads_back(x, lo, hi);
}

/// Law: an override read as `u8` takes every `u8`: the decimal text of
/// any `u8` reads without error, as that very value.
pub proof fn lemma_u8_override_reads_every_value(x: u8, v: EnvValue)
    ensures
        env_error(int_text(x as int), EnvTarget::U8) is None,
        env_value_of(int_text(x as int), EnvTarget::U8, v) ==> v == EnvValue::Unsigned(x as u128),
{
    lemma_integer_text(x as int, u8::MIN as int, u8::MAX as int);
}

/// Law: an override read as `u16` takes every `u16`: the decimal text of
/// any `u16` reads without error, as that very value.
pub proof fn lemma_u16_override_reads_every_value(x: u16, v: EnvValue)
    ensures
        env_error(int_text(x as int), EnvTarget::U16) is None,
        env_value_of(int_text(x as int), EnvTarget::U16, v) ==> v == EnvValue::Unsigned(x as u128),
{
    lemma_integer_text(x as int, u16::MIN as int, u16::MAX as int);
}

/// Law: an override read as `u32` takes every `u32`: the decimal text of
/// any `u32` reads without error, as that very value.
pub proof fn lemma_u32_override_reads_every_value(x: u32, v: EnvValue)
    ensures
        env_error(int_text(x as int), EnvTarget::U32) is None,
        env_value_of(int_text(x as int), EnvTarget::U32, v) ==> v == EnvValue::Unsigned(x as u128),
{
    lemma_integer_text(x as int, u32::MIN as int, u32::MAX as int);
}

/// Law: an override read as `u64` takes every `u64`: the decimal text of
/// any `u64` reads without error, as that very value.
pub proof fn lemma_u64_override_reads_every_value(x: u64, v: EnvValue)
    ensures
        env_error(int_text(x as int), EnvTarget::U64) is None,
        env_value_of(int_text(x as int), EnvTarget::U64, v) ==> v == EnvValue::Unsigned(x as u128),
{
    lemma_integer_text(x as int, u64::MIN as int, u64::MAX as int);
}

/// Law: an override read as `u128` takes every `u128`: the decimal text of
/// any `u128` reads without error, as that very value.
pub proof fn lemma_u128_override_reads_every_value(x: u128, v: EnvValue)
    ensures
        env_error(int_text(x as int), EnvTarget::U128) is None,
        env_value_of(int_text(x as int), EnvTarget::U128, v) ==> v == EnvValue::Unsigned(x),
{
    lemma_integer_text(x as int, u128::MIN as int, u128::MAX as int);
}

/// Law: an override read as `i8` takes every `i8`: the decimal text of
/// any `i8` reads without error, as that very value.
pub proof fn lemma_i8_override_reads_every_value(x: i8, v: EnvValue)
    ensures
        env_error(int_text(x as int), EnvTarget::I8) is None,
        env_value_of(int_text(x as int), EnvTarget::I8, v) ==> v == EnvValue::Signed(x as i128),
{
    lemma_integer_text(x as int, i8::MIN as int, i8::MAX as int);
}

/// Law: an override read as `i16` takes every `i16`: the decimal text of
/// any `i16` reads without error, as that very value.
pub proof fn lemma_i16_override_reads_every_value(x: i16, v: EnvValue)
    ensures
        env_error(int_text(x as int), EnvTarget::I16) is None,
        env_value_of(int_text(x as int), EnvTarget::I16, v) ==> v == EnvValue::Signed(x as i128),
{
    lemma_integer_text(x as int, i16::MIN as int, i16::MAX as int);
}

/// Law: an override read as `i32` takes every `i32`: the decimal text of
/// any `i32` reads without error, as that very value.
pub proof fn lemma_i32_override_reads_every_value(x: i32, v: EnvValue)
    ensures
        env_error(int_text(x as int), EnvTarget::I32) is None,
        env_value_of(int_text(x as int), EnvTarget::I32, v) ==> v == EnvValue::Signed(x as i128),
{
    lemma_integer_text(x as int, i32::MIN as int, i32::MAX as int);
}

/// Law: an override read as `i64` takes every `i64`: the decimal text of
/// any `i64` reads without error, as that very value.
pub proof fn lemma_i64_override_reads_every_value(x: i64, v: EnvValue)
    ensures
        env_error(int_text(x as int), EnvTarget::I64) is None,
        env_value_of(int_text(x as int), EnvTarget::I64, v) ==> v == EnvValue::Signed(x as i128),
{
    lemma_integer_text(x as int, i64::MIN as int, i64::MAX as int);
}

/// Law: an override read as `i128` takes every `i128`: the decimal text of
/// any `i128` reads without error, as that very value.
pub proof fn lemma_i128_override_reads_every_value(x: i128, v: EnvValue)
    ensures
        env_error(int_text(x as int), EnvTarget::I128) is None,
        env_value_of(int_text(x as int), EnvTarget::I128, v) ==> v == EnvValue::Signed(x),
{
    lemma_integer_text(x as int, i128::MIN as int, i128::MAX as int);
}

/// Law: a variable that is set always reads as `Some`: reading it as an
/// `Option<T>` fails exactly when reading it as `T` does, and otherwise gives
/// `Some` of that value.
pub proof fn lemma_set_var_is_some(raw: Seq<char>, inner: EnvTarget, v: EnvValue)
    ensures
        env_error(raw, EnvTarget::Optional(Box::new(inner))) == env_error(raw, inner),
        env_value_of(raw, EnvTarget::Optional(Box::new(inner)), EnvValue::Present(Box::new(v)))
            == env_value_of(raw, inner, v),
{
}

/// Law: a blank variable reads as an empty sequence, whatever the elements'
/// shape.
pub proof fn lemma_blank_is_empty_list(raw: Seq<char>, inner: EnvTarget, v: EnvValue)
    requires
        trim(raw).len() == 0,
    ensures
        env_error(raw, EnvTarget::List(Box::new(inner))) is None,
        env_value_of(raw, EnvTarget::List(Box::new(inner)), v) <==> (v matches EnvValue::List(vs)
            && vs@.len() == 0),
{
}

/// Law: a bad element fails the whole sequence — reading a sequence succeeds
/// exactly when every element reads.
pub proof fn lemma_list_fails_on_any_element(raw: Seq<char>, inner: EnvTarget)
    ensures
        env_error(raw, EnvTarget::List(Box::new(inner))) is None <==> forall|i: int|
            0 <= i < list_parts(raw).len() ==> env_error(#[trigger] list_parts(raw)[i], inner) is None,
{
    let ps = list_parts(raw);
    if exists|i: int| 0 <= i < ps.len() && env_error(ps[i], inner) is Some {
        let j = choose|i: int| 0 <= i < ps.len() && env_error(ps[i], inner) is Some;
        lemma_first_failure(ps, inner, j);
    }
}

/// Where some element fails, there is a first one that fails.
proof fn lemma_first_failure(ps: Seq<Seq<char>>, inner: EnvTarget, j: int)
    requires
        0 <= j < ps.len(),
        env_error(ps[j], inner) is Some,
    ensures
        exists|i: int|
            {
                &&& 0 <= i < ps.len()
                &&& env_error(ps[i], inner) is Some
                &&& forall|l: int| 0 <= l < i ==> env_error(ps[l], inner) is None
            },
    decreases j,
{
    if forall|l: int| 0 <= l < j ==> env_error(ps[l], inner) is None {
        assert(forall|l: int| 0 <= l < j ==> env_error(ps[l], inner) is None);
    } else {
        let l = choose|l: int| 0 <= l < j && env_error(ps[l], inner) is Some;
        lemma_first_failure(ps, inner, l);
    }
}

/// The name of the type that an integer, float, `bool` or `char` target
/// stands for.
fn target_name_exec(t: &EnvTarget) -> (r: &'static str)
    ensures
        r@ == target_name(*t),
{
    match t {
        EnvTarget::Bool => "bool",
        EnvTarget::I8 => "i8",
        EnvTarget::I16 => "i16",
        EnvTarget::I32 => "i32",
        EnvTarget::I64 => "i64",
        EnvTarget::I128 => "i128",
        EnvTarget::U8 => "u8",
        EnvTarget::U16 => "u16",
        EnvTarget::U32 => "u32",
        EnvTarget::U64 => "u64",
        EnvTarget::U128 => "u128",
        EnvTarget::F32 => "f32",
        EnvTarget::F64 => "f64",
        EnvTarget::Char => "char",
        _ => {
            proof {
                reveal_strlit("");
            }
            ""
        },
    }
}

/// `expected <what>, got '<raw>'`.
fn expected_message(what: &str, raw: &str) -> (r: String)
    ensures
        r@ == expected_msg(what@, raw@),
{
    let mut r = String::from_str("expected ");
    r.append(what);
    r.append(", got '");
    r.append(raw);
    r.append("'");
    r
}

/// `cannot read <what> from an environment variable; use nested keys instead`.
fn nested_keys_message(what: &str) -> (r: String)
    ensures
        r@ == nested_keys_msg(what@),
{
    let mut r = String::from_str("cannot read ");
    r.append(what);
    r.append(" from an environment variable; use nested keys instead");
    r
}

/// The elements of a sequence read from `raw`: none when `raw` is blank, else
/// its comma-separated pieces, each trimmed.
pub fn env_list_parts(raw: &str) -> (r: Vec<String>)
    ensures
        r@.len() == list_parts(raw@).len(),
        forall|i: int| 0 <= i < r@.len() ==> (#[trigger] r@[i])@ == list_parts(raw@)[i],
{
    let cs = chars_of(raw);
    assert(cs@.subrange(0, cs@.len() as int) =~= raw@);
    let (a, b) = trim_range(&cs, 0, cs.len());
    if a == b {
        assert(trim(raw@).len() == 0);
        return Vec::new();
    }
    let ranges = comma_ranges(&cs, 0, cs.len());
    let ghost pieces = split_commas(raw@);
    let mut parts: Vec<String> = Vec::new();
    let mut k: usize = 0;
    while k < ranges.len()
        invariant
            k <= ranges@.len(),
            cs@ == raw@,
            pieces == split_commas(raw@),
            ranges@.len() == pieces.len(),
            forall|m: int|
                0 <= m < ranges@.len() ==> (#[trigger] ranges@[m]).0 <= ranges@[m].1 <= cs@.len()
                    && cs@.subrange(ranges@[m].0 as int, ranges@[m].1 as int) == pieces[m],
            parts@.len() == k,
            forall|m: int| 0 <= m < k ==> (#[trigger] parts@[m])@ == trim(pieces[m]),
        decreases ranges@.len() - k,
    {
        let (x, y) = ranges[k];
        assert(ranges@[k as int].0 == x && ranges@[k as int].1 == y);
        let (p, q) = trim_range(&cs, x, y);
        parts.push(string_of(&cs, p, q));
        k = k + 1;
    }
    parts
}

/// `bool_of` on `raw`.
fn read_bool(cs: &Vec<char>, a: usize, b: usize) -> (r: Option<bool>)
    requires
        a <= b <= cs@.len(),
    ensures
        r == bool_of_trimmed(cs@.subrange(a as int, b as int)),
{
    let l = lower_range(cs, a, b);
    if chars_equal(&l, "true") || chars_equal(&l, "1") {
        Some(true)
    } else if chars_equal(&l, "false") || chars_equal(&l, "0") {
        Some(false)
    } else {
        None
    }
}

/// What trimmed text reads as a `bool`.
pub open spec fn bool_of_trimmed(t: Seq<char>) -> Option<bool> {
    let w = ascii_lower(t);
    if w == "true"@ || w == "1"@ {
        Some(true)
    } else if w == "false"@ || w == "0"@ {
        Some(false)
    } else {
        None
    }
}

/// The trimmed characters of `raw`, with the bounds of the trimmed part.
fn trimmed_chars(raw: &str) -> (r: (Vec<char>, usize, usize))
    ensures
        r.1 <= r.2 <= r.0@.len(),
        r.0@.subrange(r.1 as int, r.2 as int) == trim(raw@),
{
    let cs = chars_of(raw);
    assert(cs@.subrange(0, cs@.len() as int) =~= raw@);
    let (a, b) = trim_range(&cs, 0, cs.len());
    (cs, a, b)
}

/// Read `raw` as the name of an enum's unit variant.
fn read_variant(raw: &str) -> (r: Result<EnvValue, String>)
    ensures
        match r {
            Ok(v) => env_error(raw@, EnvTarget::Enum) is None && env_value_of(raw@, EnvTarget::Enum, v),
            Err(m) => env_error(raw@, EnvTarget::Enum) == Some(m@),
        },
{
    let (cs, a, b) = trimmed_chars(raw);
    Ok(EnvValue::Variant(string_of(&cs, a, b)))
}

/// Read `raw` as a `bool`.
fn read_bool_value(raw: &str) -> (r: Result<EnvValue, String>)
    ensures
        match r {
            Ok(v) => env_error(raw@, EnvTarget::Bool) is None && env_value_of(raw@, EnvTarget::Bool, v),
            Err(m) => env_error(raw@, EnvTarget::Bool) == Some(m@),
        },
{
    let (cs, a, b) = trimmed_chars(raw);
    match read_bool(&cs, a, b) {
        Some(v) => Ok(EnvValue::Bool(v)),
        None => Err(expected_message("bool", raw)),
    }
}

proof fn lemma_char_value(raw: Seq<char>, v: EnvValue)
    ensures
        env_value_of(raw, EnvTarget::Char, v) == (v matches EnvValue::Char(ch) && trim(raw).len()
            > 0 && ch == trim(raw)[0]),
{
}

/// Read `raw` as a `char`.
fn read_char(raw: &str) -> (r: Result<EnvValue, String>)
    ensures
        match r {
            Ok(v) => env_error(raw@, EnvTarget::Char) is None && env_value_of(raw@, EnvTarget::Char, v),
            Err(m) => env_error(raw@, EnvTarget::Char) == Some(m@),
        },
{
    let (cs, a, b) = trimmed_chars(raw);
    if b - a == 1 {
        assert(cs@.subrange(a as int, b as int)[0] == cs@[a as int]);
        let v = EnvValue::Char(cs[a]);
        proof {
            lemma_char_value(raw@, v);
        }
        Ok(v)
    } else {
        Err(expected_message("char", raw))
    }
}

/// Read `raw` as a floating-point number of the type `t` (`f32` or `f64`).
fn read_float(raw: &str, t: &EnvTarget) -> (r: Result<EnvValue, String>)
    requires
        *t is F32 || *t is F64,
    ensures
        match r {
            Ok(v) => env_error(raw@, *t) is None && env_value_of(raw@, *t, v),
            Err(m) => env_error(raw@, *t) == Some(m@),
        },
{
    let (cs, a, b) = trimmed_chars(raw);
    if float_check(&cs, a, b) {
        Ok(EnvValue::Float(string_of(&cs, a, b)))
    } else {
        Err(expected_message(target_name_exec(t), raw))
    }
}

/// Read `raw` as a value of the signed integer type `t`.
fn read_signed(raw: &str, t: &EnvTarget) -> (r: Result<EnvValue, String>)
    requires
        is_signed(*t),
    ensures
        match r {
            Ok(v) => env_error(raw@, *t) is None && env_value_of(raw@, *t, v),
            Err(m) => env_error(raw@, *t) == Some(m@),
        },
{
    let (cs, a, b) = trimmed_chars(raw);
    let (min, max): (i128, i128) = match t {
        EnvTarget::I8 => (i8::MIN as i128, i8::MAX as i128),
        EnvTarget::I16 => (i16::MIN as i128, i16::MAX as i128),
        EnvTarget::I32 => (i32::MIN as i128, i32::MAX as i128),
        EnvTarget::I64 => (i64::MIN as i128, i64::MAX as i128),
        _ => (i128::MIN, i128::MAX),
    };
    match parse_signed(&cs, a, b, min, max) {
        Some(v) => Ok(EnvValue::Signed(v)),
        None => Err(expected_message(target_name_exec(t), raw)),
    }
}

/// Read `raw` as a value of the unsigned integer type `t`.
fn read_unsigned(raw: &str, t: &EnvTarget) -> (r: Result<EnvValue, String>)
    requires
        is_unsigned(*t),
    ensures
        match r {
            Ok(v) => env_error(raw@, *t) is None && env_value_of(raw@, *t, v),
            Err(m) => env_error(raw@, *t) == Some(m@),
        },
{
    let (cs, a, b) = trimmed_chars(raw);
    let max: u128 = match t {
        EnvTarget::U8 => u8::MAX as u128,
        EnvTarget::U16 => u16::MAX as u128,
        EnvTarget::U32 => u32::MAX as u128,
        EnvTarget::U64 => u64::MAX as u128,
        _ => u128::MAX,
    };
    match parse_unsigned(&cs, a, b, max) {
        Some(v) => Ok(EnvValue::Unsigned(v)),
        None => Err(expected_message(target_name_exec(t), raw)),
    }
}

/// Read `raw` as a sequence of `inner`: its elements, or the reason the first
/// element that cannot be read fails.
fn read_list(raw: &str, inner: &EnvTarget) -> (r: Result<Vec<EnvValue>, String>)
    ensures
        ({
            let ps = list_parts(raw@);
            match r {
                Ok(vs) => {
                    &&& forall|i: int| 0 <= i < ps.len() ==> env_error(#[trigger] ps[i], *inner) is None
                    &&& vs@.len() == ps.len()
                    &&& forall|i: int| 0 <= i < vs@.len() ==> env_value_of(ps[i], *inner, #[trigger] vs@[i])
                },
                Err(m) => exists|i: int|
                    {
                        &&& 0 <= i < ps.len()
                        &&& env_error(#[trigger] ps[i], *inner) == Some(m@)
                        &&& forall|l: int| 0 <= l < i ==> env_error(ps[l], *inner) is None
                    },
            }
        }),
    decreases inner, 1int,
{
    let parts = env_list_parts(raw);
    let ghost ps = list_parts(raw@);
    let mut vals: Vec<EnvValue> = Vec::new();
    let mut i: usize = 0;
    while i < parts.len()
        invariant
            i <= parts@.len(),
            ps == list_parts(raw@),
            parts@.len() == ps.len(),
            forall|m: int| 0 <= m < parts@.len() ==> (#[trigger] parts@[m])@ == ps[m],
            vals@.len() == i,
            forall|m: int| 0 <= m < i ==> env_error(#[trigger] ps[m], *inner) is None,
            forall|m: int| 0 <= m < i ==> env_value_of(ps[m], *inner, #[trigger] vals@[m]),
        decreases parts@.len() - i,
    {
        assert(parts@[i as int]@ == ps[i as int]);
        match read_env_value(parts[i].as_str(), inner) {
            Ok(v) => {
                vals.push(v);
            },
            Err(m) => {
                assert(env_error(ps[i as int], *inner) == Some(m@));
                return Err(m);
            },
        }
        i = i + 1;
    }
    Ok(vals)
}

/// Read `raw` as a value of the shape `t`: the value, or the reason it cannot
/// be read.
pub fn read_env_value(raw: &str, t: &EnvTarget) -> (r: Result<EnvValue, String>)
    ensures
        match r {
            Ok(v) => env_error(raw@, *t) is None && env_value_of(raw@, *t, v),
            Err(m) => env_error(raw@, *t) == Some(m@),
        },
    decreases t, 0int,
{
    match t {
        EnvTarget::Str => Ok(EnvValue::Str(String::from_str(raw))),
        EnvTarget::Bytes => {
            let b = raw.as_bytes();
            Ok(EnvValue::Bytes(vstd::slice::slice_to_vec(b)))
        },
        EnvTarget::Unit => Ok(EnvValue::Unit),
        EnvTarget::Mapping => Err(nested_keys_message("a map")),
        EnvTarget::Struct(name) => {
            let mut what = String::from_str("struct `");
            what.append(name.as_str());
            what.append("`");
            Err(nested_keys_message(what.as_str()))
        },
        EnvTarget::Optional(inner) => match read_env_value(raw, inner) {
            Ok(v) => Ok(EnvValue::Present(Box::new(v))),
            Err(m) => Err(m),
        },
        EnvTarget::Newtype(inner) => match read_env_value(raw, inner) {
            Ok(v) => Ok(EnvValue::Newtype(Box::new(v))),
            Err(m) => Err(m),
        },
        EnvTarget::List(inner) => {
            let r = read_list(raw, inner);
            proof {
                let ps = list_parts(raw@);
                if r is Err {
                    let m = r->Err_0;
                    let i = choose|i: int|
                        {
                            &&& 0 <= i < ps.len()
                            &&& env_error(#[trigger] ps[i], **inner) == Some(m@)
                            &&& forall|l: int| 0 <= l < i ==> env_error(ps[l], **inner) is None
                        };
                    let c = choose|j: int|
                        {
                            &&& 0 <= j < ps.len()
                            &&& env_error(ps[j], **inner) is Some
                            &&& forall|l: int| 0 <= l < j ==> env_error(ps[l], **inner) is None
                        };
                    assert(0 <= i < ps.len() && env_error(ps[i], **inner) is Some && forall|l: int|
                        0 <= l < i ==> env_error(ps[l], **inner) is None);
                    if c < i {
                        assert(env_error(ps[c], **inner) is None);
                    } else if c > i {
                        assert(env_error(ps[i], **inner) is None);
                    }
                }
            }
            match r {
                Ok(vs) => Ok(EnvValue::List(vs)),
                Err(m) => Err(m),
            }
        },
        EnvTarget::Enum => read_variant(raw),
        EnvTarget::Bool => read_bool_value(raw),
        EnvTarget::Char => read_char(raw),
        EnvTarget::F32 | EnvTarget::F64 => read_float(raw, t),
        EnvTarget::I8 | EnvTarget::I16 | EnvTarget::I32 | EnvTarget::I64 | EnvTarget::I128 =>
            read_signed(raw, t),
        _ => read_unsigned(raw, t),
    }
}

/// Deserialize the raw value of env var `var` as the shape `t`.
///
/// `var` is only carried through for the error message: a value that cannot be
/// read fails with `EnvParse(var, reason)`.
pub fn from_env_str(var: &str, raw: &str, t: &EnvTarget) -> (r: Result<EnvValue, DotCfgError>)
    ensures
        match r {
            Ok(v) => env_error(raw@, *t) is None && env_value_of(raw@, *t, v),
            Err(e) => env_error(raw@, *t) matches Some(m) && (e matches DotCfgError::EnvParse(
                n,
                msg,
            ) && n@ == var@ && msg@ == m),
        },
{
    match read_env_value(raw, t) {
        Ok(v) => Ok(v),
        Err(m) => Err(DotCfgError::EnvParse(String::from_str(var), m)),
    }
}

} // verus!
