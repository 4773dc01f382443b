//! Checks on the command line arguments, and the typing of tag values: a tag
//! value becomes an integer, a float, a boolean or text, in that order, as
//! std's `str::parse` for `i32`, `f64` and `bool` accepts it.

use vstd::prelude::*;
use crate::utils::cli::Cli;
use crate::utils::config::Mapping;

verus! {

/// An ASCII decimal digit.
pub open spec fn is_digit(c: char) -> bool {
    '0' <= c && c <= '9'
}

/// Every character of `s` is a decimal digit (true of the empty text).
pub open spec fn all_digits(s: Seq<char>) -> bool {
    forall|i: int| 0 <= i < s.len() ==> is_digit(#[trigger] s[i])
}

/// The number that a text of decimal digits writes.
pub open spec fn decimal_value(s: Seq<char>) -> int
    decreases s.len(),
{
    if s.len() == 0 {
        0
    } else {
        decimal_value(s.drop_last()) * 10 + (s.last() as int - '0' as int)
    }
}

/// The length of a leading `+` or `-` sign: 1 or 0.
pub open spec fn sign_len(s: Seq<char>) -> int {
    if s.len() > 0 && (s[0] == '+' || s[0] == '-') {
        1
    } else {
        0
    }
}

/// The text after a leading sign.
pub open spec fn unsigned_part(s: Seq<char>) -> Seq<char> {
    s.skip(sign_len(s))
}

/// What `str::parse::<i32>` returns: an optional `+` or `-` sign, then one or
/// more decimal digits, whose value lies in the range of `i32`; anything else
/// (empty text, whitespace, other characters, overflow) is an error.
pub open spec fn spec_parse_i32(s: Seq<char>) -> Option<i32> {
    let d = unsigned_part(s);
    let v = if s.len() > 0 && s[0] == '-' {
        -decimal_value(d)
    } else {
        decimal_value(d)
    };
    if d.len() > 0 && all_digits(d) && i32::MIN <= v <= i32::MAX {
        Some(v as i32)
    } else {
        None
    }
}

/// The text `true`.
pub open spec fn true_text() -> Seq<char> {
    seq!['t', 'r', 'u', 'e']
}

/// The text `false`.
pub open spec fn false_text() -> Seq<char> {
    seq!['f', 'a', 'l', 's', 'e']
}

/// What `str::parse::<bool>` returns: `true` and `false`, exactly, and an
/// error for any other text.
pub open spec fn spec_parse_bool(s: Seq<char>) -> Option<bool> {
    if s == true_text() {
        Some(true)
    } else if s == false_text() {
        Some(false)
    } else {
        None
    }
}

/// The code of a character with ASCII capitals taken to lower case.
pub open spec fn lower_code(c: char) -> u32 {
    if 'A' <= c && c <= 'Z' {
        (c as u32 + 32) as u32
    } else {
        c as u32
    }
}

/// `s` spells the lower-case ASCII `word`, letters in either case.
pub open spec fn eq_word(s: Seq<char>, word: Seq<char>) -> bool {
    &&& s.len() == word.len()
    &&& forall|i: int| 0 <= i < s.len() ==> lower_code(#[trigger] s[i]) == word[i] as u32
}

/// A digit or a decimal point.
pub open spec fn mantissa_char(c: char) -> bool {
    is_digit(c) || c == '.'
}

/// The mantissa of std's float grammar,
/// `Digit+ | Digit+ '.' Digit* | Digit* '.' Digit+`: digits with at most one
/// decimal point and at least one digit.
pub open spec fn is_mantissa(m: Seq<char>) -> bool {
    &&& forall|i: int| 0 <= i < m.len() ==> mantissa_char(#[trigger] m[i])
    &&& forall|i: int, j: int|
        0 <= i < m.len() && 0 <= j < m.len() && #[trigger] m[i] == '.' && #[trigger] m[j] == '.'
            ==> i == j
    &&& (m.len() >= 2 || (m.len() == 1 && is_digit(m[0])))
}

/// The exponent digits of std's float grammar, `Sign? Digit+`.
pub open spec fn is_exponent(x: Seq<char>) -> bool {
    unsigned_part(x).len() > 0 && all_digits(unsigned_part(x))
}

/// The exponent marker `e` or `E`.
pub open spec fn is_exp_char(c: char) -> bool {
    c == 'e' || c == 'E'
}

/// A number of std's float grammar: `Mantissa ('e' Sign? Digit+)?`.
pub open spec fn is_number(b: Seq<char>) -> bool {
    ||| is_mantissa(b)
    ||| exists|q: int|
        0 <= q < b.len() && is_exp_char(#[trigger] b[q]) && is_mantissa(b.take(q)) && is_exponent(
            b.skip(q + 1),
        )
}

/// The text `inf`.
pub open spec fn inf_text() -> Seq<char> {
    seq!['i', 'n', 'f']
}

/// The text `infinity`.
pub open spec fn infinity_text() -> Seq<char> {
    seq!['i', 'n', 'f', 'i', 'n', 'i', 't', 'y']
}

/// The text `nan`.
pub open spec fn nan_text() -> Seq<char> {
    seq!['n', 'a', 'n']
}

/// The texts that `str::parse::<f64>` accepts, by the grammar of its
/// documentation, letters in either case:
/// `Sign? ('inf' | 'infinity' | 'nan' | Number)`.
pub open spec fn spec_is_float(s: Seq<char>) -> bool {
    let b = unsigned_part(s);
    eq_word(b, inf_text()) || eq_word(b, infinity_text()) || eq_word(b, nan_text()) || is_number(b)
}

/// A typed property value. A float is held by the text it was read from.
#[derive(Debug, Clone, PartialEq)]
pub enum FieldType {
    Integer(i32),
    Text(String),
    Float(String),
    Boolean(bool),
}

/// A typed property value, texts taken by their characters.
pub enum FieldValue {
    Integer(i32),
    Text(Seq<char>),
    Float(Seq<char>),
    Boolean(bool),
}

impl View for FieldType {
    type V = FieldValue;

    open spec fn view(&self) -> FieldValue {
        match self {
            FieldType::Integer(i) => FieldValue::Integer(*i),
            FieldType::Text(t) => FieldValue::Text(t@),
            FieldType::Float(t) => FieldValue::Float(t@),
            FieldType::Boolean(b) => FieldValue::Boolean(*b),
        }
    }
}

/// The type a text is given: an integer where it parses as `i32`, else a
/// float where it parses as `f64`, else a boolean where it parses as `bool`,
/// else the text itself.
pub open spec fn spec_try_parse(s: Seq<char>) -> FieldValue {
    match spec_parse_i32(s) {
        Some(v) => FieldValue::Integer(v),
        None => if spec_is_float(s) {
            FieldValue::Float(s)
        } else {
            match spec_parse_bool(s) {
                Some(b) => FieldValue::Boolean(b),
                None => FieldValue::Text(s),
            }
        },
    }
}

proof fn lemma_decimal_nonneg(s: Seq<char>)
    requires
        all_digits(s),
    ensures
        decimal_value(s) >= 0,
    decreases s.len(),
{
    if s.len() > 0 {
        let d = s.drop_last();
        assert forall|i: int| 0 <= i < d.len() implies is_digit(#[trigger] d[i]) by {
            assert(d[i] == s[i]);
        }
        lemma_decimal_nonneg(d);
        assert(is_digit(s[s.len() - 1]));
    }
}

/// The digits of a prefix never write more than the whole text.
proof fn lemma_decimal_prefix_le(s: Seq<char>, k: int)
    requires
        all_digits(s),
        0 <= k <= s.len(),
    ensures
        decimal_value(s.take(k)) <= decimal_value(s),
    decreases s.len(),
{
    if k < s.len() {
        let d = s.drop_last();
        assert forall|i: int| 0 <= i < d.len() implies is_digit(#[trigger] d[i]) by {
            assert(d[i] == s[i]);
        }
        lemma_decimal_prefix_le(d, k);
        assert(d.take(k) =~= s.take(k));
        lemma_decimal_nonneg(d);
        assert(is_digit(s[s.len() - 1]));
    } else {
        assert(s.take(k) =~= s);
    }
}

/// Whether the characters of `s` in `lo..hi` are all decimal digits.
fn digits_in(s: &str, lo: usize, hi: usize) -> (r: bool)
    requires
        lo <= hi <= s@.len(),
    ensures
        r == all_digits(s@.subrange(lo as int, hi as int)),
{
    let mut i = lo;
    while i < hi
        invariant
            lo <= i <= hi <= s@.len(),
            all_digits(s@.subrange(lo as int, i as int)),
        decreases hi - i,
    {
        let c = s.get_char(i);
        if !('0' <= c && c <= '9') {
            assert(s@.subrange(lo as int, hi as int)[i - lo] == c);
            return false;
        }
        assert(forall|k: int|
            lo <= k <= i ==> #[trigger] s@.subrange(lo as int, i + 1)[k - lo] == s@[k]);
        i = i + 1;
    }
    true
}

/// Parses a text as `str::parse::<i32>` does.
pub fn parse_i32(s: &str) -> (r: Option<i32>)
    ensures
        r == spec_parse_i32(s@),
{
    let n = s.unicode_len();
    if n == 0 {
        return None;
    }
    let c0 = s.get_char(0);
    let start: usize = if c0 == '+' || c0 == '-' {
        1
    } else {
        0
    };
    let ghost d = unsigned_part(s@);
    assert(d =~= s@.subrange(start as int, n as int));
    if start == n {
        return None;
    }
    let mut acc: i64 = 0;
    let mut i = start;
    assert(s@.subrange(start as int, start as int) =~= Seq::<char>::empty());
    while i < n
        invariant
            n == s@.len(),
            start <= i <= n,
            d == s@.subrange(start as int, n as int),
            d == unsigned_part(s@),
            all_digits(s@.subrange(start as int, i as int)),
            acc == decimal_value(s@.subrange(start as int, i as int)),
            0 <= acc <= 2147483648,
        decreases n - i,
    {
        let c = s.get_char(i);
        if !('0' <= c && c <= '9') {
            assert(d[i - start] == c);
            assert(!all_digits(d));
            return None;
        }
        let digit = (c as u32 - '0' as u32) as i64;
        proof {
            let p = s@.subrange(start as int, i + 1);
            assert(p.drop_last() =~= s@.subrange(start as int, i as int));
            assert(p.last() == c);
            assert forall|k: int| 0 <= k < p.len() implies is_digit(#[trigger] p[k]) by {
                if k < p.len() - 1 {
                    assert(p[k] == s@.subrange(start as int, i as int)[k]);
                }
            }
        }
        acc = acc * 10 + digit;
        i = i + 1;
        assert(acc == decimal_value(s@.subrange(start as int, i as int)));
        if acc > 2147483648 {
            proof {
                if all_digits(d) {
                    assert(d.take(i - start) =~= s@.subrange(start as int, i as int));
                    lemma_decimal_prefix_le(d, i - start);
                }
            }
            return None;
        }
    }
    let v: i64 = if c0 == '-' {
        -acc
    } else {
        acc
    };
    if v < -2147483648 || v > 2147483647 {
        return None;
    }
    Some(v as i32)
}

/// Parses a text as `str::parse::<bool>` does.
pub fn parse_bool(s: &str) -> (r: Option<bool>)
    ensures
        r == spec_parse_bool(s@),
{
    let text = s.to_owned();
    let t = String::from_str("true");
    let f = String::from_str("false");
    proof {
        reveal_strlit("true");
        reveal_strlit("false");
        assert("true"@ =~= true_text());
        assert("false"@ =~= false_text());
    }
    if text == t {
        Some(true)
    } else if text == f {
        Some(false)
    } else {
        None
    }
}

/// Whether the characters of `s` in `lo..hi` spell the lower-case ASCII
/// `word`, letters in either case.
fn word_in(s: &str, lo: usize, hi: usize, word: &str) -> (r: bool)
    requires
        lo <= hi <= s@.len(),
    ensures
        r == eq_word(s@.subrange(lo as int, hi as int), word@),
{
    let wn = word.unicode_len();
    if hi - lo != wn {
        return false;
    }
    let ghost sub = s@.subrange(lo as int, hi as int);
    let mut k: usize = 0;
    while k < wn
        invariant
            lo <= hi <= s@.len(),
            hi - lo == wn,
            wn == word@.len(),
            sub == s@.subrange(lo as int, hi as int),
            k <= wn,
            forall|j: int| 0 <= j < k ==> lower_code(#[trigger] sub[j]) == word@[j] as u32,
        decreases wn - k,
    {
        let c = s.get_char(lo + k);
        let code = c as u32;
        let lc: u32 = if 'A' <= c && c <= 'Z' {
            code + 32
        } else {
            code
        };
        let w = word.get_char(k);
        assert(sub[k as int] == c);
        if lc != w as u32 {
            return false;
        }
        k = k + 1;
    }
    true
}

/// Whether the characters of `s` in `lo..hi` form a mantissa.
fn mantissa_in(s: &str, lo: usize, hi: usize) -> (r: bool)
    requires
        lo <= hi <= s@.len(),
    ensures
        r == is_mantissa(s@.subrange(lo as int, hi as int)),
{
    let ghost m = s@.subrange(lo as int, hi as int);
    let mut seen_dot = false;
    let ghost mut dot: int = 0;
    let mut i = lo;
    while i < hi
        invariant
            lo <= i <= hi <= s@.len(),
            m == s@.subrange(lo as int, hi as int),
            forall|k: int| 0 <= k < i - lo ==> mantissa_char(#[trigger] m[k]),
            seen_dot ==> 0 <= dot < i - lo && m[dot] == '.',
            forall|k: int| 0 <= k < i - lo && #[trigger] m[k] == '.' ==> seen_dot && k == dot,
        decreases hi - i,
    {
        let c = s.get_char(i);
        assert(m[i - lo] == c);
        if c == '.' {
            if seen_dot {
                return false;
            }
            seen_dot = true;
            proof {
                dot = i - lo;
            }
        } else if !('0' <= c && c <= '9') {
            return false;
        }
        i = i + 1;
    }
    if hi - lo >= 2 {
        true
    } else if hi - lo == 1 {
        let c = s.get_char(lo);
        assert(m[0] == c);
        '0' <= c && c <= '9'
    } else {
        false
    }
}

/// Whether the characters of `s` in `lo..hi` form an exponent's digits.
fn exponent_in(s: &str, lo: usize, hi: usize) -> (r: bool)
    requires
        lo <= hi <= s@.len(),
    ensures
        r == is_exponent(s@.subrange(lo as int, hi as int)),
{
    let ghost x = s@.subrange(lo as int, hi as int);
    if lo == hi {
        return false;
    }
    let c = s.get_char(lo);
    assert(x[0] == c);
    let start = if c == '+' || c == '-' {
        lo + 1
    } else {
        lo
    };
    assert(unsigned_part(x) =~= s@.subrange(start as int, hi as int));
    if start == hi {
        return false;
    }
    digits_in(s, start, hi)
}

/// Whether the characters of `s` in `lo..hi` form a number of the float
/// grammar.
fn number_in(s: &str, lo: usize, hi: usize) -> (r: bool)
    requires
        lo <= hi <= s@.len(),
    ensures
        r == is_number(s@.subrange(lo as int, hi as int)),
{
    let ghost b = s@.subrange(lo as int, hi as int);
    let mut i = lo;
    while i < hi
        invariant
            lo <= i <= hi <= s@.len(),
            b == s@.subrange(lo as int, hi as int),
            forall|k: int| 0 <= k < i - lo ==> !is_exp_char(#[trigger] b[k]),
        decreases hi - i,
    {
        let c = s.get_char(i);
        assert(b[i - lo] == c);
        if c == 'e' || c == 'E' {
            let q = i - lo;
            let r = mantissa_in(s, lo, i) && exponent_in(s, i + 1, hi);
            proof {
                assert(b.take(q as int) =~= s@.subrange(lo as int, i as int));
                assert(b.skip(q + 1) =~= s@.subrange(i + 1, hi as int));
                assert(!mantissa_char(b[q as int]));
                assert(!is_mantissa(b));
                if is_number(b) {
                    let q2 = choose|q2: int|
                        0 <= q2 < b.len() && is_exp_char(#[trigger] b[q2]) && is_mantissa(
                            b.take(q2),
                        ) && is_exponent(b.skip(q2 + 1));
                    if q2 > q {
                        assert(b.take(q2)[q as int] == b[q as int]);
                    }
                    assert(q2 == q);
                }
            }
            return r;
        }
        i = i + 1;
    }
    assert(b.len() == hi - lo);
    assert(b =~= s@.subrange(lo as int, hi as int));
    mantissa_in(s, lo, hi)
}

/// Whether a text parses as `str::parse::<f64>` accepts it.
pub fn is_float(s: &str) -> (r: bool)
    ensures
        r == spec_is_float(s@),
{
    let n = s.unicode_len();
    let start: usize = if n > 0 && (s.get_char(0) == '+' || s.get_char(0) == '-') {
        1
    } else {
        0
    };
    assert(unsigned_part(s@) =~= s@.subrange(start as int, n as int));
    proof {
        reveal_strlit("inf");
        reveal_strlit("infinity");
        reveal_strlit("nan");
        assert("inf"@ =~= inf_text());
        assert("infinity"@ =~= infinity_text());
        assert("nan"@ =~= nan_text());
    }
    word_in(s, start, n, "inf") || word_in(s, start, n, "infinity") || word_in(s, start, n, "nan")
        || number_in(s, start, n)
}

/// Gives a text its type: an integer, else a float, else a boolean, else
/// the text itself.
pub fn try_parse(value: &str) -> (r: FieldType)
    ensures
        r@ == spec_try_parse(value@),
{
    if let Some(v) = parse_i32(value) {
        return FieldType::Integer(v);
    }
    if is_float(value) {
        return FieldType::Float(value.to_owned());
    }
    if let Some(b) = parse_bool(value) {
        return FieldType::Boolean(b);
    }
    FieldType::Text(value.to_owned())
}

/// The character of a decimal digit.
pub open spec fn digit_char(d: int) -> char {
    if d == 0 {
        '0'
    } else if d == 1 {
        '1'
    } else if d == 2 {
        '2'
    } else if d == 3 {
        '3'
    } else if d == 4 {
        '4'
    } else if d == 5 {
        '5'
    } else if d == 6 {
        '6'
    } else if d == 7 {
        '7'
    } else if d == 8 {
        '8'
    } else {
        '9'
    }
}

/// The decimal digits of a natural number, without leading zeros (`0` for
/// zero).
pub open spec fn digits_text(m: nat) -> Seq<char>
    decreases m,
{
    if m < 10 {
        seq![digit_char(m as int)]
    } else {
        digits_text(m / 10).push(digit_char((m % 10) as int))
    }
}

/// The text that `to_string` writes for an `i32`: a `-` for a negative
/// number, then its decimal digits without leading zeros.
pub open spec fn i32_text(n: i32) -> Seq<char> {
    if n < 0 {
        seq!['-'] + digits_text((-n) as nat)
    } else {
        digits_text(n as nat)
    }
}

/// The text that `to_string` writes for a `bool`.
pub open spec fn bool_text(b: bool) -> Seq<char> {
    if b {
        true_text()
    } else {
        false_text()
    }
}

proof fn lemma_digits_text(m: nat)
    ensures
        digits_text(m).len() > 0,
        all_digits(digits_text(m)),
        decimal_value(digits_text(m)) == m,
        digits_text(m)[0] != '-' && digits_text(m)[0] != '+',
    decreases m,
{
    if m >= 10 {
        lemma_digits_text(m / 10);
        let t = digits_text(m / 10);
        let d = digit_char((m % 10) as int);
        assert(t.push(d).drop_last() =~= t);
        assert(is_digit(d));
        assert(d as int - '0' as int == m % 10);
        assert forall|i: int| 0 <= i < t.push(d).len() implies is_digit(#[trigger] t.push(d)[i]) by {
            if i < t.len() {
                assert(t.push(d)[i] == t[i]);
            }
        }
        assert(t.push(d)[0] == t[0]);
        assert(digits_text(m) == t.push(d));
        assert(t.push(d).last() == d);
        assert(decimal_value(t.push(d)) == decimal_value(t) * 10 + (d as int - '0' as int));
        assert((m / 10) * 10 + m % 10 == m) by (nonlinear_arith);
    } else {
        let d = digit_char(m as int);
        assert(d as int - '0' as int == m);
        assert(seq![d].drop_last() =~= Seq::<char>::empty());
        assert(decimal_value(Seq::<char>::empty()) == 0);
        assert(digits_text(m) == seq![d]);
        assert(decimal_value(seq![d]) == decimal_value(seq![d].drop_last()) * 10 + (d as int
            - '0' as int));
    }
}

/// No text of a number or a boolean is read as anything else: the text of an
/// `i32` is typed as that integer (integers are tried before floats), and
/// `true` and `false` as those booleans.
pub proof fn law_try_parse_round_trip(n: i32, b: bool)
    ensures
        spec_try_parse(i32_text(n)) == FieldValue::Integer(n),
        spec_try_parse(bool_text(b)) == FieldValue::Boolean(b),
{
    let t = i32_text(n);
    if n < 0 {
        let m = (-n) as nat;
        lemma_digits_text(m);
        assert(unsigned_part(t) =~= digits_text(m));
    } else {
        lemma_digits_text(n as nat);
        assert(unsigned_part(t) =~= digits_text(n as nat));
    }
    assert(spec_parse_i32(t) == Some(n));
    let w = bool_text(b);
    assert(unsigned_part(w) =~= w);
    assert(!is_digit(w[0]));
    assert(spec_parse_i32(w) is None);
    assert(!mantissa_char(w[0]));
    assert(!is_mantissa(w));
    assert forall|q: int|
        0 <= q < w.len() && is_exp_char(#[trigger] w[q]) implies !is_mantissa(w.take(q)) by {
        assert(w.take(q)[0] == w[0]);
    }
    assert(!is_number(w));
    assert(!eq_word(w, inf_text()) && !eq_word(w, nan_text()) && !eq_word(w, infinity_text()));
    assert(!spec_is_float(w));
}

/// Why the arguments were refused.
#[derive(Debug, Clone, Copy, PartialEq, Eq)]
pub enum ArgsError {
    /// One of the arguments is empty.
    MissingArgument,
    /// The OSM PBF file does not exist.
    OsmpbfNotFound,
    /// The directory of schema YAML files does not exist.
    YamlsDirNotFound,
    /// The directory of schema YAML files has no entries.
    YamlsDirEmpty,
}

/// What `validate_args` answers, given whether the OSM PBF file exists and
/// how many entries the schema directory has (`None` where it does not
/// exist). The checks come in this order and the first that fails decides.
pub open spec fn spec_validate_args(
    uri: Seq<char>,
    osmpbf: Seq<char>,
    schema_yamls: Seq<char>,
    osmpbf_exists: bool,
    yamls_dir_entries: Option<usize>,
) -> Result<(), ArgsError> {
    if uri.len() == 0 || osmpbf.len() == 0 || schema_yamls.len() == 0 {
        Err(ArgsError::MissingArgument)
    } else if !osmpbf_exists {
        Err(ArgsError::OsmpbfNotFound)
    } else {
        match yamls_dir_entries {
            None => Err(ArgsError::YamlsDirNotFound),
            Some(n) => if n == 0 {
                Err(ArgsError::YamlsDirEmpty)
            } else {
                Ok(())
            },
        }
    }
}

/// Checks the arguments: none is empty, the OSM PBF file exists, and the
/// schema directory exists and has at least one entry. What is on disk is
/// handed in by the caller.
pub fn validate_args(args: &Cli, osmpbf_exists: bool, yamls_dir_entries: Option<usize>) -> (r:
    Result<(), ArgsError>)
    ensures
        r == spec_validate_args(
            args.uri@,
            args.osmpbf@,
            args.schema_yamls@,
            osmpbf_exists,
            yamls_dir_entries,
        ),
{
    if args.uri.as_str().is_empty() || args.osmpbf.as_str().is_empty()
        || args.schema_yamls.as_str().is_empty() {
        return Err(ArgsError::MissingArgument);
    }
    if !osmpbf_exists {
        return Err(ArgsError::OsmpbfNotFound);
    }
    match yamls_dir_entries {
        None => Err(ArgsError::YamlsDirNotFound),
        Some(n) => if n == 0 {
            Err(ArgsError::YamlsDirEmpty)
        } else {
            Ok(())
        },
    }
}

/// The text a tag value is mapped to by the first mapping entry whose
/// key is that value; the value itself where no entry has it as key.
pub open spec fn mapped_text(value: Seq<char>, mapping: Seq<Mapping>) -> Seq<char>
    decreases mapping.len(),
{
    if mapping.len() == 0 {
        value
    } else if mapping[0].key@ == value {
        mapping[0].value@
    } else {
        mapped_text(value, mapping.drop_first())
    }
}

/// The typed value of a tag value, mapped first through `mapping` where
/// one is given.
pub open spec fn spec_try_mapping(value: Seq<char>, mapping: Option<Vec<Mapping>>) -> FieldValue {
    match mapping {
        Some(m) => spec_try_parse(mapped_text(value, m@)),
        None => spec_try_parse(value),
    }
}

/// Maps a tag value through `mapping`, then gives it its type.
pub fn try_mapping(value: &str, mapping: &Option<Vec<Mapping>>) -> (r: FieldType)
    ensures
        r@ == spec_try_mapping(value@, *mapping),
{
    if let Some(m) = mapping {
        let wanted = value.to_owned();
        let mut i: usize = 0;
        assert(m@.skip(0) =~= m@);
        while i < m.len()
            invariant
                *mapping == Some(*m),
                i <= m@.len(),
                wanted@ == value@,
                mapped_text(value@, m@) == mapped_text(value@, m@.skip(i as int)),
            decreases m@.len() - i,
        {
            assert(m@.skip(i as int).drop_first() =~= m@.skip(i + 1));
            assert(m@.skip(i as int)[0] == m@[i as int]);
            if m[i].key == wanted {
                return try_parse(m[i].value.as_str());
            }
            i = i + 1;
        }
        assert(m@.skip(i as int).len() == 0);
    }
    try_parse(value)
}


/// The arguments pass exactly when none is empty, the OSM PBF file exists and
/// the schema directory exists with at least one entry; an existing
/// directory is refused only when it is empty.
pub proof fn law_validate_args_accepts(
    uri: Seq<char>,
    osmpbf: Seq<char>,
    schema_yamls: Seq<char>,
    osmpbf_exists: bool,
    yamls_dir_entries: Option<usize>,
)
    ensures
        spec_validate_args(uri, osmpbf, schema_yamls, osmpbf_exists, yamls_dir_entries) is Ok
            <==> (uri.len() > 0 && osmpbf.len() > 0 && schema_yamls.len() > 0 && osmpbf_exists
            && yamls_dir_entries is Some && yamls_dir_entries->Some_0 >= 1),
        (uri.len() > 0 && osmpbf.len() > 0 && schema_yamls.len() > 0 && osmpbf_exists
            && yamls_dir_entries == Some(0usize)) ==> spec_validate_args(
            uri,
            osmpbf,
            schema_yamls,
            osmpbf_exists,
            yamls_dir_entries,
        ) == Err::<(), ArgsError>(ArgsError::YamlsDirEmpty),
        (uri.len() == 0 || osmpbf.len() == 0 || schema_yamls.len() == 0) ==> spec_validate_args(
            uri,
            osmpbf,
            schema_yamls,
            osmpbf_exists,
            yamls_dir_entries,
        ) == Err::<(), ArgsError>(ArgsError::MissingArgument),
{
}

} // verus!
