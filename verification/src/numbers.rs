//! Typed value coercion: what counts as a boolean, 64-bit integer, or
//! 64-bit float literal, and the canonical decimal form integers are
//! re-emitted in.

use vstd::prelude::*;

use crate::text::is_tok;
use crate::text::push_char;

verus! {

// --- decimal digits ---

/// Whether `c` is a decimal digit.
pub open spec fn is_digit(c: char) -> bool {
    48 <= c as u32 && c as u32 <= 57
}

/// The value of a digit character.
pub open spec fn digit_val(c: char) -> int {
    c as u32 - 48
}

/// Whether every character of `s` is a decimal digit.
pub open spec fn all_digits(s: Seq<char>) -> bool {
    forall|i: int| 0 <= i < s.len() ==> is_digit(s[i])
}

/// The value of a digit string read in base ten.
pub open spec fn digits_val(s: Seq<char>) -> int
    decreases s.len(),
{
    if s.len() == 0 {
        0
    } else {
        digits_val(s.drop_last()) * 10 + digit_val(s.last())
    }
}

/// Whether every character of `s` is a decimal digit.
pub fn all_digits_exec(s: &String) -> (r: bool)
    ensures
        r == all_digits(s@),
{
    let len = s.as_str().unicode_len();
    let mut i: usize = 0;
    while i < len
        invariant
            len == s@.len(),
            i <= len,
            forall|j: int| 0 <= j < i ==> is_digit(s@[j]),
        decreases len - i,
    {
        let c = s.as_str().get_char(i);
        let u = c as u32;
        if u < 48 || u > 57 {
            assert(!is_digit(s@[i as int]));
            return false;
        }
        i = i + 1;
    }
    true
}

// --- signed and unsigned decimal values, as std's FromStr reads them ---

/// The value of `s` read as std reads an unsigned decimal: an optional `+`
/// then one or more digits; no bound on the value.
pub open spec fn spec_parse_uint(s: Seq<char>) -> Option<int> {
    let body = if s.len() > 0 && s[0] == '+' {
        s.drop_first()
    } else {
        s
    };
    if body.len() > 0 && all_digits(body) {
        Some(digits_val(body))
    } else {
        None
    }
}

/// The value of `s` read as std reads a signed decimal: an optional `+` or
/// `-` then one or more digits; no bound on the value.
pub open spec fn spec_parse_int(s: Seq<char>) -> Option<int> {
    if s.len() > 0 && s[0] == '-' {
        let body = s.drop_first();
        if body.len() > 0 && all_digits(body) {
            Some(-digits_val(body))
        } else {
            None
        }
    } else {
        spec_parse_uint(s)
    }
}

/// What `i64::from_str` accepts: a signed decimal within the 64-bit range.
pub open spec fn spec_parse_i64(s: Seq<char>) -> Option<int> {
    match spec_parse_int(s) {
        Some(v) => if i64::MIN <= v <= i64::MAX {
            Some(v)
        } else {
            None
        },
        None => None,
    }
}

/// What `u16::from_str` accepts: an unsigned decimal within the 16-bit range.
pub open spec fn spec_parse_u16(s: Seq<char>) -> Option<u16> {
    match spec_parse_uint(s) {
        Some(v) => if v <= u16::MAX {
            Some(v as u16)
        } else {
            None
        },
        None => None,
    }
}

/// What `usize::from_str` accepts.
pub open spec fn spec_parse_usize(s: Seq<char>) -> Option<usize> {
    match spec_parse_uint(s) {
        Some(v) => if v <= usize::MAX {
            Some(v as usize)
        } else {
            None
        },
        None => None,
    }
}

/// Relies on std's `i64: FromStr`: accepts an optional sign followed by one
/// or more decimal digits, and rejects values outside the 64-bit range.
#[verifier::external_body]
pub fn parse_i64(s: &String) -> (r: Option<i64>)
    ensures
        match r {
            Some(v) => spec_parse_i64(s@) == Some(v as int),
            None => spec_parse_i64(s@) is None,
        },
{
    s.as_str().parse::<i64>().ok()
}

/// Relies on std's `u16: FromStr`: accepts an optional `+` followed by one
/// or more decimal digits, and rejects values above `u16::MAX`.
#[verifier::external_body]
pub fn parse_u16(s: &String) -> (r: Option<u16>)
    ensures
        r == spec_parse_u16(s@),
{
    s.as_str().parse::<u16>().ok()
}

/// Relies on std's `usize: FromStr`: accepts an optional `+` followed by one
/// or more decimal digits, and rejects values above `usize::MAX`.
#[verifier::external_body]
pub fn parse_usize(s: &String) -> (r: Option<usize>)
    ensures
        r == spec_parse_usize(s@),
{
    s.as_str().parse::<usize>().ok()
}

// --- the canonical decimal form ---

/// The digit character of a value in `0..=9`.
pub open spec fn digit_char(d: int) -> char {
    (48 + d) as char
}

/// The decimal digits of a non-negative value, most significant first.
pub open spec fn spec_nat_string(n: int) -> Seq<char>
    decreases n,
{
    if n < 10 {
        seq![digit_char(n)]
    } else {
        spec_nat_string(n / 10).push(digit_char(n % 10))
    }
}

/// The canonical decimal form of a signed value: `-`-prefixed when negative.
pub open spec fn spec_int_string(v: int) -> Seq<char> {
    if v < 0 {
        seq!['-'] + spec_nat_string(-v)
    } else {
        spec_nat_string(v)
    }
}

/// Relies on std's `i64: Display` (via `ToString`): the canonical decimal
/// form, `-`-prefixed when negative.
#[verifier::external_body]
pub fn i64_to_string(v: i64) -> (r: String)
    ensures
        r@ == spec_int_string(v as int),
{
    v.to_string()
}

// --- boolean literals ---

/// What `bool::from_str` accepts: exactly `true` or `false`, case-sensitive.
pub open spec fn spec_bool_lit(s: Seq<char>) -> Option<bool> {
    if s == "true"@ {
        Some(true)
    } else if s == "false"@ {
        Some(false)
    } else {
        None
    }
}

/// Reads a boolean literal: exactly `true` or `false`.
pub fn parse_bool_lit(s: &String) -> (r: Option<bool>)
    ensures
        r == spec_bool_lit(s@),
{
    if is_tok(s, "true") {
        Some(true)
    } else if is_tok(s, "false") {
        Some(false)
    } else {
        None
    }
}

// --- float literals ---

/// Index of the first occurrence of `a` or `b` at or after position `k`.
pub open spec fn char2_index_from(s: Seq<char>, k: int, a: char, b: char) -> Option<int>
    decreases s.len() - k,
{
    if k < 0 || k >= s.len() {
        None
    } else if s[k] == a || s[k] == b {
        Some(k)
    } else {
        char2_index_from(s, k + 1, a, b)
    }
}

/// ASCII lower-casing of one character; anything outside `A`..`Z` is kept.
pub open spec fn spec_lower_char(c: char) -> char {
    if 65 <= c as u32 && c as u32 <= 90 {
        (c as u32 + 32) as char
    } else {
        c
    }
}

/// ASCII lower-casing of a character sequence.
pub open spec fn spec_lower(s: Seq<char>) -> Seq<char> {
    s.map_values(|c: char| spec_lower_char(c))
}

/// A float mantissa: digits with at most one `.`, at least one digit.
pub open spec fn is_mantissa(m: Seq<char>) -> bool {
    match char2_index_from(m, 0, '.', '.') {
        None => m.len() > 0 && all_digits(m),
        Some(i) => {
            let a = m.subrange(0, i);
            let b = m.subrange(i + 1, m.len() as int);
            all_digits(a) && all_digits(b) && (a.len() > 0 || b.len() > 0)
        },
    }
}

/// A float exponent, after its `e` or `E`: an optional sign then digits.
pub open spec fn is_exp_part(e: Seq<char>) -> bool {
    let body = if e.len() > 0 && (e[0] == '+' || e[0] == '-') {
        e.drop_first()
    } else {
        e
    };
    body.len() > 0 && all_digits(body)
}

/// What `f64::from_str` accepts: an optional sign, then `inf`, `infinity` or
/// `nan` in any case, or a mantissa with an optional exponent.
pub open spec fn spec_is_float(s: Seq<char>) -> bool {
    let body = if s.len() > 0 && (s[0] == '+' || s[0] == '-') {
        s.drop_first()
    } else {
        s
    };
    spec_lower(body) == "inf"@ || spec_lower(body) == "infinity"@ || spec_lower(body) == "nan"@
        || match char2_index_from(body, 0, 'e', 'E') {
        None => is_mantissa(body),
        Some(i) => is_mantissa(body.subrange(0, i)) && is_exp_part(
            body.subrange(i + 1, body.len() as int),
        ),
    }
}

/// ASCII lower-casing of one character.
pub fn lower_char(c: char) -> (r: char)
    ensures
        r == spec_lower_char(c),
{
    let u = c as u32;
    if 65 <= u && u <= 90 {
        ((u + 32) as u8) as char
    } else {
        c
    }
}

/// ASCII lower-casing of a token.
pub fn lower_string(s: &String) -> (r: String)
    ensures
        r@ == spec_lower(s@),
{
    let len = s.as_str().unicode_len();
    let mut out = String::new();
    let mut i: usize = 0;
    while i < len
        invariant
            len == s@.len(),
            i <= len,
            out@ == spec_lower(s@.take(i as int)),
        decreases len - i,
    {
        let c = s.as_str().get_char(i);
        push_char(&mut out, lower_char(c));
        assert(spec_lower(s@.take(i + 1)) =~= spec_lower(s@.take(i as int)).push(
            spec_lower_char(s@[i as int]),
        ));
        i = i + 1;
    }
    assert(s@.take(len as int) =~= s@);
    out
}

/// Finds the first occurrence of `a` or `b` in `s`.
pub fn find_char2(s: &String, a: char, b: char) -> (r: Option<usize>)
    ensures
        match r {
            Some(i) => i < s@.len() && char2_index_from(s@, 0, a, b) == Some(i as int),
            None => char2_index_from(s@, 0, a, b) is None,
        },
{
    let len = s.as_str().unicode_len();
    let mut i: usize = 0;
    while i < len
        invariant
            len == s@.len(),
            i <= len,
            char2_index_from(s@, 0, a, b) == char2_index_from(s@, i as int, a, b),
        decreases len - i,
    {
        let c = s.as_str().get_char(i);
        if c == a || c == b {
            assert(char2_index_from(s@, i as int, a, b) == Some(i as int));
            return Some(i);
        }
        assert(char2_index_from(s@, i as int, a, b) == char2_index_from(s@, i + 1, a, b));
        i = i + 1;
    }
    assert(char2_index_from(s@, i as int, a, b) is None);
    None
}

/// Copies the characters of `s` from `from` (inclusive) to `to` (exclusive).
pub fn substring(s: &String, from: usize, to: usize) -> (r: String)
    requires
        from <= to <= s@.len(),
    ensures
        r@ == s@.subrange(from as int, to as int),
{
    s.as_str().substring_char(from, to).to_owned()
}

/// Checks a mantissa: digits with at most one `.`, at least one digit.
fn is_mantissa_exec(m: &String) -> (r: bool)
    ensures
        r == is_mantissa(m@),
{
    let len = m.as_str().unicode_len();
    match find_char2(m, '.', '.') {
        None => len > 0 && all_digits_exec(m),
        Some(i) => {
            let a = substring(m, 0, i);
            let b = substring(m, i + 1, len);
            all_digits_exec(&a) && all_digits_exec(&b) && (a.as_str().unicode_len() > 0
                || b.as_str().unicode_len() > 0)
        },
    }
}

/// Checks an exponent part, after its `e` or `E`.
fn is_exp_part_exec(e: &String) -> (r: bool)
    ensures
        r == is_exp_part(e@),
{
    let len = e.as_str().unicode_len();
    let body = if len > 0 {
        let c = e.as_str().get_char(0);
        if c == '+' || c == '-' {
            assert(e@.subrange(1, len as int) =~= e@.drop_first());
            substring(e, 1, len)
        } else {
            e.clone()
        }
    } else {
        e.clone()
    };
    body.as_str().unicode_len() > 0 && all_digits_exec(&body)
}

/// Whether `s` is a float literal as `f64::from_str` reads one.
pub fn is_float_literal(s: &String) -> (r: bool)
    ensures
        r == spec_is_float(s@),
{
    let len = s.as_str().unicode_len();
    let body = if len > 0 {
        let c = s.as_str().get_char(0);
        if c == '+' || c == '-' {
            assert(s@.subrange(1, len as int) =~= s@.drop_first());
            substring(s, 1, len)
        } else {
            s.clone()
        }
    } else {
        s.clone()
    };
    let lowered = lower_string(&body);
    if is_tok(&lowered, "inf") || is_tok(&lowered, "infinity") || is_tok(&lowered, "nan") {
        return true;
    }
    let blen = body.as_str().unicode_len();
    match find_char2(&body, 'e', 'E') {
        None => is_mantissa_exec(&body),
        Some(i) => {
            let m = substring(&body, 0, i);
            let e = substring(&body, i + 1, blen);
            is_mantissa_exec(&m) && is_exp_part_exec(&e)
        },
    }
}

} // verus!
