//! Character-level helpers: splitting strings into characters, ASCII case
//! mapping, Unicode whitespace trimming and decimal rendering of integers.

use vstd::prelude::*;
use vstd::string::*;

verus! {

/// `String::push`: appends `c` to the end of `s`.
#[verifier::external_body]
pub(crate) fn push_char(s: &mut String, c: char)
    ensures
        final(s)@ == old(s)@.push(c),
{
    s.push(c);
}

/// The characters of `s`, in order.
pub fn chars_of(s: &str) -> (r: Vec<char>)
    ensures
        r@ == s@,
{
    let mut r: Vec<char> = Vec::new();
    for c in it: s.chars()
        invariant
            r@ == it.seq().take(it.index() as int),
    {
        r.push(c);
    }
    r
}

/// The string made of `cs[lo..hi]`.
pub fn string_of(cs: &Vec<char>, lo: usize, hi: usize) -> (r: String)
    requires
        lo <= hi <= cs@.len(),
    ensures
        r@ == cs@.subrange(lo as int, hi as int),
{
    let mut r = String::new();
    let mut i = lo;
    while i < hi
        invariant
            lo <= i <= hi <= cs@.len(),
            r@ == cs@.subrange(lo as int, i as int),
        decreases hi - i,
    {
        push_char(&mut r, cs[i]);
        assert(cs@.subrange(lo as int, i + 1) =~= cs@.subrange(lo as int, i as int).push(cs@[i as int]));
        i = i + 1;
    }
    r
}

/// `c` in upper case when it is an ASCII lower-case letter, else `c` itself.
pub open spec fn upper_char(c: char) -> char {
    if 'a' <= c <= 'z' {
        ((c as u32) - 32) as char
    } else {
        c
    }
}

/// `c` in lower case when it is an ASCII upper-case letter, else `c` itself.
pub open spec fn lower_char(c: char) -> char {
    if 'A' <= c <= 'Z' {
        ((c as u32) + 32) as char
    } else {
        c
    }
}

/// `str::to_ascii_uppercase` on a character sequence.
pub open spec fn ascii_upper(s: Seq<char>) -> Seq<char> {
    Seq::new(s.len(), |i: int| upper_char(s[i]))
}

/// `str::to_ascii_lowercase` on a character sequence.
pub open spec fn ascii_lower(s: Seq<char>) -> Seq<char> {
    Seq::new(s.len(), |i: int| lower_char(s[i]))
}

/// Whether `c` is an ASCII lower-case letter.
pub open spec fn is_ascii_lower(c: char) -> bool {
    'a' <= c <= 'z'
}

/// Law: upper-casing maps each ASCII lower-case letter to the upper-case
/// letter 32 code points below it, and leaves every other character alone.
pub proof fn lemma_upper_char(c: char)
    ensures
        is_ascii_lower(c) ==> upper_char(c) as u32 == c as u32 - 32 && 'A' <= upper_char(c) <= 'Z',
        !is_ascii_lower(c) ==> upper_char(c) == c,
        !is_ascii_lower(upper_char(c)),
{
}

/// Law: an ASCII upper-cased text has the length of the text, and no ASCII
/// lower-case letter; each of its characters is the text's character,
/// upper-cased when it is a lower-case letter.
pub proof fn lemma_ascii_upper(s: Seq<char>)
    ensures
        ascii_upper(s).len() == s.len(),
        forall|i: int| 0 <= i < s.len() ==> !is_ascii_lower(#[trigger] ascii_upper(s)[i]),
        forall|i: int|
            0 <= i < s.len() && is_ascii_lower(s[i]) ==> #[trigger] ascii_upper(s)[i] as u32 == s[i]
                as u32 - 32,
        forall|i: int| 0 <= i < s.len() && !is_ascii_lower(s[i]) ==> #[trigger] ascii_upper(s)[i] == s[i],
{
    assert forall|i: int| 0 <= i < s.len() implies !is_ascii_lower(#[trigger] ascii_upper(s)[i]) by {
        lemma_upper_char(s[i]);
    }
    assert forall|i: int|
        0 <= i < s.len() && is_ascii_lower(s[i]) implies #[trigger] ascii_upper(s)[i] as u32 == s[i]
            as u32 - 32 by {
        lemma_upper_char(s[i]);
    }
}

/// `s` with every `from` replaced by `to`.
pub open spec fn replace_char(s: Seq<char>, from: char, to: char) -> Seq<char> {
    Seq::new(s.len(), |i: int| if s[i] == from { to } else { s[i] })
}

fn upper_char_exec(c: char) -> (r: char)
    ensures
        r == upper_char(c),
{
    if 'a' <= c && c <= 'z' {
        ((c as u8) - 32) as char
    } else {
        c
    }
}

fn lower_char_exec(c: char) -> (r: char)
    ensures
        r == lower_char(c),
{
    if 'A' <= c && c <= 'Z' {
        ((c as u8) + 32) as char
    } else {
        c
    }
}

/// `s.to_ascii_uppercase()`.
pub fn to_ascii_upper(s: &str) -> (r: String)
    ensures
        r@ == ascii_upper(s@),
{
    let cs = chars_of(s);
    let mut r = String::new();
    let mut i: usize = 0;
    while i < cs.len()
        invariant
            i <= cs@.len(),
            cs@ == s@,
            r@ == ascii_upper(s@).take(i as int),
        decreases cs@.len() - i,
    {
        let c = upper_char_exec(cs[i]);
        push_char(&mut r, c);
        assert(ascii_upper(s@).take(i + 1) =~= ascii_upper(s@).take(i as int).push(c));
        i = i + 1;
    }
    assert(ascii_upper(s@).take(cs@.len() as int) =~= ascii_upper(s@));
    r
}

/// The characters `cs[lo..hi]` with ASCII letters in lower case.
pub fn lower_range(cs: &Vec<char>, lo: usize, hi: usize) -> (r: Vec<char>)
    requires
        lo <= hi <= cs@.len(),
    ensures
        r@ == ascii_lower(cs@.subrange(lo as int, hi as int)),
{
    let ghost src = cs@.subrange(lo as int, hi as int);
    let mut r: Vec<char> = Vec::new();
    let mut i = lo;
    while i < hi
        invariant
            lo <= i <= hi <= cs@.len(),
            src == cs@.subrange(lo as int, hi as int),
            r@ == ascii_lower(src).take(i - lo),
        decreases hi - i,
    {
        let c = lower_char_exec(cs[i]);
        r.push(c);
        assert(ascii_lower(src).take(i + 1 - lo) =~= ascii_lower(src).take(i - lo).push(c));
        i = i + 1;
    }
    assert(ascii_lower(src).take(hi - lo) =~= ascii_lower(src));
    r
}

/// `s.replace('.', "_").to_ascii_uppercase()`.
pub fn env_segment(s: &str) -> (r: String)
    ensures
        r@ == ascii_upper(replace_char(s@, '.', '_')),
{
    let cs = chars_of(s);
    let ghost target = ascii_upper(replace_char(s@, '.', '_'));
    let mut r = String::new();
    let mut i: usize = 0;
    while i < cs.len()
        invariant
            i <= cs@.len(),
            cs@ == s@,
            target == ascii_upper(replace_char(s@, '.', '_')),
            r@ == target.take(i as int),
        decreases cs@.len() - i,
    {
        let c0 = cs[i];
        let c1 = if c0 == '.' { '_' } else { c0 };
        let c = upper_char_exec(c1);
        push_char(&mut r, c);
        assert(target.take(i + 1) =~= target.take(i as int).push(c));
        i = i + 1;
    }
    assert(target.take(cs@.len() as int) =~= target);
    r
}

/// Whether `c` has the Unicode `White_Space` property, the whitespace that
/// `str::trim` removes.
pub open spec fn is_ws(c: char) -> bool {
    ||| '\u{9}' <= c <= '\u{d}'
    ||| c == ' '
    ||| c == '\u{85}'
    ||| c == '\u{a0}'
    ||| c == '\u{1680}'
    ||| '\u{2000}' <= c <= '\u{200a}'
    ||| c == '\u{2028}'
    ||| c == '\u{2029}'
    ||| c == '\u{202f}'
    ||| c == '\u{205f}'
    ||| c == '\u{3000}'
}

/// `char::is_whitespace`.
pub fn is_ws_exec(c: char) -> (r: bool)
    ensures
        r == is_ws(c),
{
    ('\u{9}' <= c && c <= '\u{d}') || c == ' ' || c == '\u{85}' || c == '\u{a0}' || c
        == '\u{1680}' || ('\u{2000}' <= c && c <= '\u{200a}') || c == '\u{2028}' || c
        == '\u{2029}' || c == '\u{202f}' || c == '\u{205f}' || c == '\u{3000}'
}

/// `a` is where the leading whitespace of `s` ends.
pub open spec fn trim_start_at(s: Seq<char>, a: int) -> bool {
    &&& 0 <= a <= s.len()
    &&& forall|j: int| 0 <= j < a ==> is_ws(#[trigger] s[j])
    &&& (a == s.len() || !is_ws(s[a]))
}

/// `b` is where the trailing whitespace of `s[a..]` begins.
pub open spec fn trim_end_at(s: Seq<char>, a: int, b: int) -> bool {
    &&& a <= b <= s.len()
    &&& forall|j: int| b <= j < s.len() ==> is_ws(#[trigger] s[j])
    &&& (b == a || !is_ws(s[b - 1]))
}

/// `s` without its leading and trailing whitespace (`str::trim`).
pub open spec fn trim(s: Seq<char>) -> Seq<char> {
    let a = choose|a: int| trim_start_at(s, a);
    let b = choose|b: int| trim_end_at(s, a, b);
    s.subrange(a, b)
}

proof fn lemma_trim_bounds(s: Seq<char>, a: int, b: int)
    requires
        trim_start_at(s, a),
        trim_end_at(s, a, b),
    ensures
        trim(s) == s.subrange(a, b),
{
    let a2 = choose|a: int| trim_start_at(s, a);
    assert(trim_start_at(s, a2));
    if a2 < a {
        assert(is_ws(s[a2]));
    } else if a < a2 {
        assert(is_ws(s[a]));
    }
    let b2 = choose|b: int| trim_end_at(s, a, b);
    assert(trim_end_at(s, a, b2));
    if b2 < b {
        assert(is_ws(s[b - 1]));
    } else if b < b2 {
        assert(is_ws(s[b2 - 1]));
    }
}

/// Law: text that neither starts nor ends with whitespace is its own trim.
pub proof fn lemma_trim_unchanged(s: Seq<char>)
    requires
        s.len() > 0 ==> !is_ws(s[0]) && !is_ws(s[s.len() - 1]),
    ensures
        trim(s) == s,
{
    assert(trim_start_at(s, 0));
    assert(trim_end_at(s, 0, s.len() as int));
    lemma_trim_bounds(s, 0, s.len() as int);
    assert(s.subrange(0, s.len() as int) =~= s);
}

/// The bounds of `cs[lo..hi]` with its leading and trailing whitespace removed.
pub fn trim_range(cs: &Vec<char>, lo: usize, hi: usize) -> (r: (usize, usize))
    requires
        lo <= hi <= cs@.len(),
    ensures
        lo <= r.0 <= r.1 <= hi,
        cs@.subrange(r.0 as int, r.1 as int) == trim(cs@.subrange(lo as int, hi as int)),
{
    let ghost s = cs@.subrange(lo as int, hi as int);
    let mut a = lo;
    while a < hi && is_ws_exec(cs[a])
        invariant
            lo <= a <= hi <= cs@.len(),
            s == cs@.subrange(lo as int, hi as int),
            forall|j: int| 0 <= j < a - lo ==> is_ws(#[trigger] s[j]),
        decreases hi - a,
    {
        a = a + 1;
    }
    let mut b = hi;
    while b > a && is_ws_exec(cs[b - 1])
        invariant
            lo <= a <= b <= hi <= cs@.len(),
            s == cs@.subrange(lo as int, hi as int),
            forall|j: int| b - lo <= j < hi - lo ==> is_ws(#[trigger] s[j]),
        decreases b - a,
    {
        b = b - 1;
    }
    proof {
        assert(trim_start_at(s, a - lo));
        assert(trim_end_at(s, a - lo, b - lo));
        lemma_trim_bounds(s, a - lo, b - lo);
        assert(cs@.subrange(a as int, b as int) =~= s.subrange(a - lo, b - lo));
    }
    (a, b)
}

/// `s.trim()`.
pub fn trim_str(s: &str) -> (r: String)
    ensures
        r@ == trim(s@),
{
    let cs = chars_of(s);
    let (a, b) = trim_range(&cs, 0, cs.len());
    assert(cs@.subrange(0, cs@.len() as int) =~= s@);
    string_of(&cs, a, b)
}

/// `s` without its trailing whitespace (`str::trim_end`).
pub open spec fn trim_end(s: Seq<char>) -> Seq<char> {
    s.take(choose|b: int| trim_end_at(s, 0, b))
}

/// `s.trim_end()`.
pub fn trim_end_str(s: &str) -> (r: String)
    ensures
        r@ == trim_end(s@),
{
    let cs = chars_of(s);
    let mut b = cs.len();
    while b > 0 && is_ws_exec(cs[b - 1])
        invariant
            b <= cs@.len(),
            cs@ == s@,
            forall|j: int| b <= j < cs@.len() ==> is_ws(#[trigger] cs@[j]),
        decreases b,
    {
        b = b - 1;
    }
    proof {
        assert(trim_end_at(s@, 0, b as int));
        let b2 = choose|b: int| trim_end_at(s@, 0, b);
        assert(trim_end_at(s@, 0, b2));
        if b2 < b {
            assert(is_ws(s@[b - 1]));
        } else if b < b2 {
            assert(is_ws(s@[b2 - 1]));
        }
        assert(cs@.subrange(0, b as int) =~= s@.take(b as int));
    }
    string_of(&cs, 0, b)
}

/// The character of the decimal digit `d`.
pub open spec fn digit_char(d: int) -> char {
    (d + 48) as char
}

/// The decimal digits of `n`, most significant first, without leading zeros
/// (`"0"` for zero).
pub open spec fn decimal(n: nat) -> Seq<char>
    decreases n,
{
    if n < 10 {
        seq![digit_char(n as int)]
    } else {
        decimal(n / 10).push(digit_char((n % 10) as int))
    }
}

/// The decimal rendering of the integer `i` (`i64`'s and `u64`'s `to_string`).
pub open spec fn int_text(i: int) -> Seq<char> {
    if i < 0 {
        seq!['-'] + decimal((-i) as nat)
    } else {
        decimal(i as nat)
    }
}

/// The decimal digits of `n`.
fn decimal_chars(n: u64) -> (r: Vec<char>)
    ensures
        r@ == decimal(n as nat),
{
    let mut out: Vec<char> = Vec::new();
    if n == 0 {
        out.push('0');
        assert(out@ =~= decimal(0));
        return out;
    }
    let mut m = n;
    while m > 0
        invariant
            decimal(n as nat) == (if m == 0 { Seq::<char>::empty() } else { decimal(
                m as nat,
            ) }) + out@,
        decreases m,
    {
        let d = (m % 10) as u8;
        let c = (48u8 + d) as char;
        assert(c == digit_char((m % 10) as int));
        let ghost before = out@;
        out.insert(0, c);
        if m >= 10 {
            assert(decimal(m as nat) == decimal((m / 10) as nat).push(c));
        } else {
            assert(decimal(m as nat) == seq![c]);
        }
        assert(out@ =~= seq![c] + before);
        m = m / 10;
        assert(decimal(n as nat) =~= (if m == 0 { Seq::<char>::empty() } else { decimal(
            m as nat,
        ) }) + out@);
    }
    out
}

/// `n.to_string()` for a `u64`.
pub fn u64_text(n: u64) -> (r: String)
    ensures
        r@ == int_text(n as int),
{
    let cs = decimal_chars(n);
    assert(cs@.subrange(0, cs@.len() as int) =~= cs@);
    string_of(&cs, 0, cs.len())
}

/// `i.to_string()` for an `i64`.
pub fn i64_text(i: i64) -> (r: String)
    ensures
        r@ == int_text(i as int),
{
    if i >= 0 {
        u64_text(i as u64)
    } else {
        let mag: u64 = (0i128 - (i as i128)) as u64;
        let cs = decimal_chars(mag);
        let mut r = String::new();
        push_char(&mut r, '-');
        let mut k: usize = 0;
        while k < cs.len()
            invariant
                k <= cs@.len(),
                cs@ == decimal(mag as nat),
                r@ == seq!['-'] + cs@.take(k as int),
            decreases cs@.len() - k,
        {
            push_char(&mut r, cs[k]);
            assert(cs@.take(k + 1) =~= cs@.take(k as int).push(cs@[k as int]));
            k = k + 1;
        }
        assert(cs@.take(cs@.len() as int) =~= cs@);
        r
    }
}

} // verus!
