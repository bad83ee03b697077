//! Reading plain values out of text: integers and floating-point numbers as
//! `str::parse` accepts them, booleans, and comma-separated lists.

use vstd::prelude::*;

use crate::text::{ascii_lower, chars_of, decimal, digit_char, int_text};

verus! {

/// Whether `c` is an ASCII decimal digit.
pub open spec fn is_digit(c: char) -> bool {
    '0' <= c <= '9'
}

/// Whether every character of `s` is a decimal digit.
pub open spec fn all_digits(s: Seq<char>) -> bool {
    forall|i: int| 0 <= i < s.len() ==> is_digit(#[trigger] s[i])
}

/// The number that the decimal digits `s` spell.
pub open spec fn digits_value(s: Seq<char>) -> int
    decreases s.len(),
{
    if s.len() == 0 {
        0
    } else {
        digits_value(s.drop_last()) * 10 + (s.last() as int - 48)
    }
}

/// What `str::parse` gives for an integer type whose values are `lo..=hi`:
/// an optional `+` (or `-`, for a signed type) and at least one decimal digit,
/// with a value in range.
pub open spec fn int_of(s: Seq<char>, lo: int, hi: int) -> Option<int> {
    let neg = lo < 0 && s.len() > 0 && s[0] == '-';
    let body = if s.len() > 0 && (s[0] == '+' || neg) {
        s.drop_first()
    } else {
        s
    };
    if body.len() > 0 && all_digits(body) {
        let v = if neg {
            -digits_value(body)
        } else {
            digits_value(body)
        };
        if lo <= v <= hi {
            Some(v)
        } else {
            None
        }
    } else {
        None
    }
}

/// The decimal digits of `n` are digits, at least one, spelling `n`, the first
/// of them not a sign.
proof fn lemma_decimal_digits(n: nat)
    ensures
        decimal(n).len() > 0,
        all_digits(decimal(n)),
        digits_value(decimal(n)) == n,
    decreases n,
{
    if n < 10 {
        let s = decimal(n);
        assert(s == seq![digit_char(n as int)]);
        assert(s.drop_last() =~= Seq::<char>::empty());
        assert(digit_char(n as int) as int == n + 48);
        assert(digits_value(s) == digits_value(s.drop_last()) * 10 + (s.last() as int - 48));
    } else {
        lemma_decimal_digits(n / 10);
        let p = decimal(n / 10);
        let s = decimal(n);
        assert(s == p.push(digit_char((n % 10) as int)));
        assert(s.drop_last() =~= p);
        assert(digit_char((n % 10) as int) as int == n % 10 + 48);
        assert(digits_value(s) == digits_value(p) * 10 + (n % 10));
        assert((n / 10) * 10 + n % 10 == n) by (nonlinear_arith)
            requires
                n >= 10,
        ;
        assert forall|i: int| 0 <= i < s.len() implies is_digit(#[trigger] s[i]) by {
            if i < p.len() {
                assert(s[i] == p[i]);
            }
        }
    }
}

/// Law: the decimal text of an integer reads back as that integer: parsing
/// `int_text(i)` as an integer of any type that holds `i` gives `i`.
pub proof fn lemma_int_text_reads_back(i: int, lo: int, hi: int)
    requires
        lo <= i <= hi,
        lo < 0 || i >= 0,
    ensures
        int_of(int_text(i), lo, hi) == Some(i),
{
    let s = int_text(i);
    if i < 0 {
        lemma_decimal_digits((-i) as nat);
        assert(s.drop_first() =~= decimal((-i) as nat));
    } else {
        lemma_decimal_digits(i as nat);
        let d = decimal(i as nat);
        assert(is_digit(d[0]));
    }
}

/// The decimal text of an integer is not empty, starts with `-` or a digit,
/// and ends with a digit.
pub proof fn lemma_int_text_shape(i: int)
    ensures
        int_text(i).len() > 0,
        int_text(i)[0] == '-' || is_digit(int_text(i)[0]),
        is_digit(int_text(i)[int_text(i).len() - 1]),
{
    let n: nat = if i < 0 { (-i) as nat } else { i as nat };
    lemma_decimal_digits(n);
    let d = decimal(n);
    assert(is_digit(d[d.len() - 1]));
    if i < 0 {
        let s = int_text(i);
        assert(s[s.len() - 1] == d[d.len() - 1]);
    }
}

/// A longer run of digits spells at least as much.
proof fn lemma_digits_value_grows(s: Seq<char>, k: int)
    requires
        0 <= k <= s.len(),
        all_digits(s),
    ensures
        digits_value(s.take(k)) <= digits_value(s),
        0 <= digits_value(s),
    decreases s.len(),
{
    if s.len() > 0 {
        assert(all_digits(s.drop_last())) by {
            assert forall|i: int| 0 <= i < s.drop_last().len() implies is_digit(
                #[trigger] s.drop_last()[i],
            ) by {
                assert(s.drop_last()[i] == s[i]);
            }
        }
        assert(is_digit(s[s.len() - 1]));
        if k == s.len() {
            assert(s.take(k) =~= s);
            lemma_digits_value_grows(s.drop_last(), 0);
        } else {
            lemma_digits_value_grows(s.drop_last(), k);
            assert(s.drop_last().take(k) =~= s.take(k));
            let p = digits_value(s.drop_last());
            assert(p * 10 >= p) by (nonlinear_arith)
                requires
                    p >= 0,
            ;
        }
    } else {
        assert(s.take(k) =~= s);
    }
}

/// The value of the decimal digits `cs[a..b]` when they are all digits, at
/// least one, and spell at most `bound`.
fn digits_upto(cs: &Vec<char>, a: usize, b: usize, bound: u128) -> (r: Option<u128>)
    requires
        a <= b <= cs@.len(),
    ensures
        ({
            let s = cs@.subrange(a as int, b as int);
            match r {
                Some(v) => s.len() > 0 && all_digits(s) && v == digits_value(s) && v <= bound,
                None => !(s.len() > 0 && all_digits(s) && digits_value(s) <= bound),
            }
        }),
{
    let ghost s = cs@.subrange(a as int, b as int);
    if a == b {
        return None;
    }
    let mut acc: u128 = 0;
    let mut i = a;
    while i < b
        invariant
            a <= i <= b <= cs@.len(),
            s == cs@.subrange(a as int, b as int),
            all_digits(s.take(i - a)),
            acc == digits_value(s.take(i - a)),
            acc <= bound,
        decreases b - i,
    {
        let c = cs[i];
        if !('0' <= c && c <= '9') {
            proof {
                assert(!is_digit(s[i - a]));
            }
            return None;
        }
        let d = (c as u32 - 48) as u128;
        let ghost prefix = s.take(i - a);
        let ghost next = s.take(i - a + 1);
        assert(next.drop_last() =~= prefix);
        assert(next.last() == c);
        assert(all_digits(next)) by {
            assert forall|j: int| 0 <= j < next.len() implies is_digit(#[trigger] next[j]) by {
                if j < prefix.len() {
                    assert(next[j] == prefix[j]);
                }
            }
        }
        if d > bound || acc > (bound - d) / 10 {
            proof {
                if d <= bound {
                    assert(acc * 10 + d > bound) by (nonlinear_arith)
                        requires
                            acc > (bound - d) / 10,
                            d <= bound,
                    ;
                }
                if all_digits(s) {
                    lemma_digits_value_grows(s, i - a + 1);
                }
            }
            return None;
        }
        assert(acc * 10 + d <= bound) by (nonlinear_arith)
            requires
                acc <= (bound - d) / 10,
                d <= bound,
        ;
        acc = acc * 10 + d;
        i = i + 1;
    }
    assert(s.take(b - a) =~= s);
    Some(acc)
}

/// `s[a..b].parse()` for an unsigned integer type whose largest value is `max`.
pub fn parse_unsigned(cs: &Vec<char>, a: usize, b: usize, max: u128) -> (r: Option<u128>)
    requires
        a <= b <= cs@.len(),
    ensures
        match r {
            Some(v) => int_of(cs@.subrange(a as int, b as int), 0, max as int) == Some(v as int),
            None => int_of(cs@.subrange(a as int, b as int), 0, max as int) is None,
        },
{
    let ghost s = cs@.subrange(a as int, b as int);
    if a < b && cs[a] == '+' {
        assert(cs@.subrange(a + 1, b as int) =~= s.drop_first());
        digits_upto(cs, a + 1, b, max)
    } else {
        if a < b {
            assert(s[0] == cs@[a as int]);
        }
        digits_upto(cs, a, b, max)
    }
}

/// `s[a..b].parse()` for a signed integer type whose values are `min..=max`.
pub fn parse_signed(cs: &Vec<char>, a: usize, b: usize, min: i128, max: i128) -> (r: Option<i128>)
    requires
        a <= b <= cs@.len(),
        min < 0 <= max,
    ensures
        match r {
            Some(v) => int_of(cs@.subrange(a as int, b as int), min as int, max as int) == Some(
                v as int,
            ),
            None => int_of(cs@.subrange(a as int, b as int), min as int, max as int) is None,
        },
{
    let ghost s = cs@.subrange(a as int, b as int);
    if a < b && cs[a] == '-' {
        assert(cs@.subrange(a + 1, b as int) =~= s.drop_first());
        let mag_bound: u128 = (0 - (min as i128 + 1)) as u128 + 1;
        match digits_upto(cs, a + 1, b, mag_bound) {
            Some(m) => {
                let v: i128 = if m == mag_bound {
                    min
                } else {
                    0 - (m as i128)
                };
                Some(v)
            },
            None => None,
        }
    } else {
        let start = if a < b && cs[a] == '+' {
            a + 1
        } else {
            a
        };
        if a < b {
            assert(s[0] == cs@[a as int]);
        }
        if start > a {
            assert(cs@.subrange(a + 1, b as int) =~= s.drop_first());
        }
        match digits_upto(cs, start, b, max as u128) {
            Some(m) => Some(m as i128),
            None => None,
        }
    }
}

/// `c` is `e` or `E`.
pub open spec fn is_exp_char(c: char) -> bool {
    c == 'e' || c == 'E'
}

/// The part of a decimal number before its exponent: digits with at most one
/// `.`, and at least one digit.
pub open spec fn mantissa_ok(m: Seq<char>) -> bool {
    &&& forall|i: int| 0 <= i < m.len() ==> is_digit(#[trigger] m[i]) || m[i] == '.'
    &&& forall|i: int, j: int| 0 <= i < j < m.len() && #[trigger] m[i] == '.' ==> #[trigger] m[j] != '.'
    &&& exists|i: int| 0 <= i < m.len() && is_digit(#[trigger] m[i])
}

/// The part of a decimal number after its `e`: an optional sign and at least
/// one digit.
pub open spec fn exponent_ok(x: Seq<char>) -> bool {
    let d = if x.len() > 0 && (x[0] == '+' || x[0] == '-') {
        x.drop_first()
    } else {
        x
    };
    d.len() > 0 && all_digits(d)
}

/// A decimal number with an optional exponent.
pub open spec fn number_ok(s: Seq<char>) -> bool {
    ||| mantissa_ok(s)
    ||| exists|i: int|
        0 <= i < s.len() && is_exp_char(#[trigger] s[i]) && mantissa_ok(s.take(i)) && exponent_ok(
            s.skip(i + 1),
        )
}

/// Text that `str::parse::<f64>` (and `::<f32>`) accepts: an optional sign,
/// then `inf`, `infinity` or `nan` in any case, or a decimal number.
pub open spec fn is_float_text(s: Seq<char>) -> bool {
    let body = if s.len() > 0 && (s[0] == '+' || s[0] == '-') {
        s.drop_first()
    } else {
        s
    };
    ||| ascii_lower(body) == "inf"@
    ||| ascii_lower(body) == "infinity"@
    ||| ascii_lower(body) == "nan"@
    ||| number_ok(body)
}

/// Law: float text (what `str::parse::<f64>` accepts) includes every plain
/// decimal number, such as `12.5`, `100`, `.5` or `3.`, with or without a
/// leading sign, and the words `inf`, `infinity` and `nan` in any case, with
/// or without a sign; so every text that `f64`'s `to_string` writes (`NaN`,
/// `inf`, `-inf`, or a plain decimal) is float text.
pub proof fn lemma_float_text_accepts(body: Seq<char>, sign: Seq<char>)
    requires
        sign == Seq::<char>::empty() || sign == seq!['-'] || sign == seq!['+'],
    ensures
        ({
            &&& forall|i: int| 0 <= i < body.len() ==> is_digit(#[trigger] body[i]) || body[i] == '.'
            &&& forall|i: int, j: int|
                0 <= i < j < body.len() && #[trigger] body[i] == '.' ==> #[trigger] body[j] != '.'
            &&& exists|i: int| 0 <= i < body.len() && is_digit(#[trigger] body[i])
        }) ==> is_float_text(sign + body),
        ascii_lower(body) == "inf"@ || ascii_lower(body) == "infinity"@ || ascii_lower(body) == "nan"@
            ==> is_float_text(sign + body),
{
    let s = sign + body;
    if sign.len() == 0 {
        assert(s =~= body);
        if s.len() > 0 && (s[0] == '+' || s[0] == '-') {
            if forall|i: int| 0 <= i < body.len() ==> is_digit(#[trigger] body[i]) || body[i] == '.' {
                assert(is_digit(body[0]) || body[0] == '.');
            }
            reveal_strlit("inf");
            reveal_strlit("infinity");
            reveal_strlit("nan");
            if ascii_lower(body) == "inf"@ || ascii_lower(body) == "infinity"@ || ascii_lower(body) == "nan"@ {
                assert(ascii_lower(body)[0] == body[0] || 'A' <= body[0] <= 'Z');
            }
        }
    } else {
        assert(s.drop_first() =~= body);
    }
}

/// Whether `v` holds exactly the characters of `lit`.
pub fn chars_equal(v: &Vec<char>, lit: &str) -> (r: bool)
    ensures
        r == (v@ == lit@),
{
    let l = chars_of(lit);
    if v.len() != l.len() {
        return false;
    }
    let mut i: usize = 0;
    while i < v.len()
        invariant
            i <= v@.len(),
            v@.len() == l@.len(),
            l@ == lit@,
            forall|j: int| 0 <= j < i ==> v@[j] == l@[j],
        decreases v@.len() - i,
    {
        if v[i] != l[i] {
            return false;
        }
        i = i + 1;
    }
    assert(v@ =~= l@);
    true
}

/// Whether `cs[a..b]` is a valid mantissa.
fn mantissa_check(cs: &Vec<char>, a: usize, b: usize) -> (r: bool)
    requires
        a <= b <= cs@.len(),
    ensures
        r == mantissa_ok(cs@.subrange(a as int, b as int)),
{
    let ghost m = cs@.subrange(a as int, b as int);
    let mut seen_dot = false;
    let mut seen_digit = false;
    let mut i = a;
    while i < b
        invariant
            a <= i <= b <= cs@.len(),
            m == cs@.subrange(a as int, b as int),
            forall|k: int| 0 <= k < i - a ==> is_digit(#[trigger] m[k]) || m[k] == '.',
            seen_dot <==> exists|k: int| 0 <= k < i - a && #[trigger] m[k] == '.',
            forall|k: int, l: int| 0 <= k < l < i - a && #[trigger] m[k] == '.' ==> #[trigger] m[l] != '.',
            seen_digit <==> exists|k: int| 0 <= k < i - a && is_digit(#[trigger] m[k]),
        decreases b - i,
    {
        let c = cs[i];
        assert(m[i - a] == c);
        if c == '.' {
            if seen_dot {
                let ghost k = choose|k: int| 0 <= k < i - a && #[trigger] m[k] == '.';
                assert(m[k] == '.' && m[i - a] == '.');
                return false;
            }
            seen_dot = true;
        } else if '0' <= c && c <= '9' {
            seen_digit = true;
        } else {
            return false;
        }
        i = i + 1;
    }
    seen_digit
}

/// Whether `cs[a..b]` is a valid exponent (after its `e`).
fn exponent_check(cs: &Vec<char>, a: usize, b: usize) -> (r: bool)
    requires
        a <= b <= cs@.len(),
    ensures
        r == exponent_ok(cs@.subrange(a as int, b as int)),
{
    let ghost x = cs@.subrange(a as int, b as int);
    let start = if a < b && (cs[a] == '+' || cs[a] == '-') {
        a + 1
    } else {
        a
    };
    if a < b {
        assert(x[0] == cs@[a as int]);
    }
    if start > a {
        assert(cs@.subrange(a + 1, b as int) =~= x.drop_first());
    }
    nonempty_digits(cs, start, b)
}

/// Whether `cs[a..b]` is one or more decimal digits.
fn nonempty_digits(cs: &Vec<char>, a: usize, b: usize) -> (r: bool)
    requires
        a <= b <= cs@.len(),
    ensures
        r == (b > a && all_digits(cs@.subrange(a as int, b as int))),
{
    let ghost d = cs@.subrange(a as int, b as int);
    let mut i = a;
    while i < b
        invariant
            a <= i <= b <= cs@.len(),
            d == cs@.subrange(a as int, b as int),
            forall|k: int| 0 <= k < i - a ==> is_digit(#[trigger] d[k]),
        decreases b - i,
    {
        let c = cs[i];
        assert(d[i - a] == c);
        if !('0' <= c && c <= '9') {
            return false;
        }
        i = i + 1;
    }
    b > a
}

/// Whether `cs[a..b]`, read in lower case, is `word`.
fn lower_equals(cs: &Vec<char>, a: usize, b: usize, word: &str) -> (r: bool)
    requires
        a <= b <= cs@.len(),
    ensures
        r == (ascii_lower(cs@.subrange(a as int, b as int)) == word@),
{
    let l = crate::text::lower_range(cs, a, b);
    chars_equal(&l, word)
}

/// Whether `cs[a..b]` is text that `str::parse::<f64>` accepts.
pub fn float_check(cs: &Vec<char>, a: usize, b: usize) -> (r: bool)
    requires
        a <= b <= cs@.len(),
    ensures
        r == is_float_text(cs@.subrange(a as int, b as int)),
{
    let ghost s = cs@.subrange(a as int, b as int);
    let start = if a < b && (cs[a] == '+' || cs[a] == '-') {
        a + 1
    } else {
        a
    };
    if a < b {
        assert(s[0] == cs@[a as int]);
    }
    let ghost body = cs@.subrange(start as int, b as int);
    if start > a {
        assert(body =~= s.drop_first());
    } else {
        assert(body =~= s);
    }
    if lower_equals(cs, start, b, "inf") || lower_equals(cs, start, b, "infinity")
        || lower_equals(cs, start, b, "nan") {
        return true;
    }
    // the first exponent mark, if any, splits the mantissa from the exponent
    let mut e = start;
    while e < b && !(cs[e] == 'e' || cs[e] == 'E')
        invariant
            start <= e <= b <= cs@.len(),
            body == cs@.subrange(start as int, b as int),
            forall|k: int| 0 <= k < e - start ==> !is_exp_char(#[trigger] body[k]),
        decreases b - e,
    {
        assert(body[e - start] == cs@[e as int]);
        e = e + 1;
    }
    if e == b {
        let ok = mantissa_check(cs, start, b);
        proof {
            assert forall|i: int|
                0 <= i < body.len() && is_exp_char(#[trigger] body[i]) implies !(mantissa_ok(
                body.take(i),
            ) && exponent_ok(body.skip(i + 1))) by {}
        }
        ok
    } else {
        let ghost i = e - start;
        assert(body[i] == cs@[e as int]);
        assert(cs@.subrange(start as int, e as int) =~= body.take(i));
        assert(cs@.subrange(e + 1, b as int) =~= body.skip(i + 1));
        let ok = mantissa_check(cs, start, e) && exponent_check(cs, e + 1, b);
        proof {
            // no other split works: before `e` there is no exponent mark, and
            // a mantissa holds no `e`
            assert(!mantissa_ok(body)) by {
                assert(!is_digit(body[i]) && body[i] != '.');
            }
            assert forall|j: int|
                0 <= j < body.len() && is_exp_char(#[trigger] body[j]) && j != i implies !(
                mantissa_ok(body.take(j)) && exponent_ok(body.skip(j + 1))) by {
                if j > i {
                    assert(body.take(j)[i] == body[i]);
                    assert(!is_digit(body.take(j)[i]) && body.take(j)[i] != '.');
                }
            }
        }
        ok
    }
}

/// `i` is the first `,` of `s`.
pub open spec fn first_comma_at(s: Seq<char>, i: int) -> bool {
    &&& 0 <= i < s.len()
    &&& s[i] == ','
    &&& forall|j: int| 0 <= j < i ==> #[trigger] s[j] != ','
}

/// The pieces of `s` between its commas (`s.split(',')`): one more piece than
/// there are commas.
pub open spec fn split_commas(s: Seq<char>) -> Seq<Seq<char>>
    decreases s.len(),
{
    if exists|i: int| first_comma_at(s, i) {
        let i = choose|i: int| first_comma_at(s, i);
        seq![s.take(i)] + split_commas(s.skip(i + 1))
    } else {
        seq![s]
    }
}

proof fn lemma_split_at_first_comma(s: Seq<char>, i: int)
    requires
        first_comma_at(s, i),
    ensures
        split_commas(s) == seq![s.take(i)] + split_commas(s.skip(i + 1)),
{
    let k = choose|k: int| first_comma_at(s, k);
    assert(first_comma_at(s, k));
    if k < i {
        assert(s[k] == ',');
    } else if i < k {
        assert(s[i] == ',');
    }
}

proof fn lemma_split_no_comma(s: Seq<char>)
    requires
        forall|j: int| 0 <= j < s.len() ==> #[trigger] s[j] != ',',
    ensures
        split_commas(s) == seq![s],
{
    if exists|i: int| first_comma_at(s, i) {
        let k = choose|i: int| first_comma_at(s, i);
        assert(s[k] == ',');
    }
}

/// The pieces `cs[a..b]` splits into at its commas, as index ranges into `cs`.
pub fn comma_ranges(cs: &Vec<char>, a: usize, b: usize) -> (r: Vec<(usize, usize)>)
    requires
        a <= b <= cs@.len(),
    ensures
        r@.len() == split_commas(cs@.subrange(a as int, b as int)).len(),
        forall|k: int|
            0 <= k < r@.len() ==> a <= (#[trigger] r@[k]).0 <= r@[k].1 <= b && cs@.subrange(
                r@[k].0 as int,
                r@[k].1 as int,
            ) == split_commas(cs@.subrange(a as int, b as int))[k],
{
    let ghost whole = cs@.subrange(a as int, b as int);
    let mut r: Vec<(usize, usize)> = Vec::new();
    let mut start = a;
    let mut i = a;
    while i < b
        invariant
            a <= start <= i <= b <= cs@.len(),
            whole == cs@.subrange(a as int, b as int),
            forall|j: int| start <= j < i ==> #[trigger] cs@[j] != ',',
            split_commas(whole) == Seq::new(
                r@.len(),
                |k: int| cs@.subrange(r@[k].0 as int, r@[k].1 as int),
            ) + split_commas(cs@.subrange(start as int, b as int)),
            forall|k: int| 0 <= k < r@.len() ==> a <= (#[trigger] r@[k]).0 <= r@[k].1 <= b,
        decreases b - i,
    {
        if cs[i] == ',' {
            proof {
                let rest = cs@.subrange(start as int, b as int);
                assert(first_comma_at(rest, i - start));
                lemma_split_at_first_comma(rest, i - start);
                assert(rest.take(i - start) =~= cs@.subrange(start as int, i as int));
                assert(rest.skip(i - start + 1) =~= cs@.subrange(i + 1, b as int));
            }
            let ghost before = Seq::new(
                r@.len(),
                |k: int| cs@.subrange(r@[k].0 as int, r@[k].1 as int),
            );
            r.push((start, i));
            assert(Seq::new(r@.len(), |k: int| cs@.subrange(r@[k].0 as int, r@[k].1 as int))
                =~= before.push(cs@.subrange(start as int, i as int)));
            start = i + 1;
        }
        i = i + 1;
    }
    proof {
        lemma_split_no_comma(cs@.subrange(start as int, b as int));
    }
    let ghost before = Seq::new(r@.len(), |k: int| cs@.subrange(r@[k].0 as int, r@[k].1 as int));
    r.push((start, b));
    assert(Seq::new(r@.len(), |k: int| cs@.subrange(r@[k].0 as int, r@[k].1 as int))
        =~= before.push(cs@.subrange(start as int, b as int)));
    assert forall|k: int| 0 <= k < r@.len() implies cs@.subrange(
        (#[trigger] r@[k]).0 as int,
        r@[k].1 as int,
    ) == split_commas(whole)[k] by {
        let all = Seq::new(r@.len(), |k: int| cs@.subrange(r@[k].0 as int, r@[k].1 as int));
        assert(all[k] == cs@.subrange(r@[k].0 as int, r@[k].1 as int));
    }
    r
}

} // verus!
