//! Character-level utilities on tokens: locating the `=` separator of a
//! `--flag=value` token, flag-marker tests, ASCII upper-casing, and joining.

use vstd::prelude::*;

verus! {

// --- the first `=` of a token ---

/// Index of the first `=` at or after position `k`, if any.
pub open spec fn eq_index_from(s: Seq<char>, k: int) -> Option<int>
    decreases s.len() - k,
{
    if k < 0 || k >= s.len() {
        None
    } else if s[k] == '=' {
        Some(k)
    } else {
        eq_index_from(s, k + 1)
    }
}

/// Splitting a token at its first `=`: `name=value` gives `(name, value)`;
/// a token with no `=` gives nothing.  The value keeps any further `=`.
pub open spec fn spec_split_eq(s: Seq<char>) -> Option<(Seq<char>, Seq<char>)> {
    match eq_index_from(s, 0) {
        None => None,
        Some(i) => Some((s.subrange(0, i), s.subrange(i + 1, s.len() as int))),
    }
}

/// Splits a token at its first `=`.
pub fn split_at_eq(s: &String) -> (r: Option<(String, String)>)
    ensures
        match r {
            Some(parts) => spec_split_eq(s@) == Some((parts.0@, parts.1@)),
            None => spec_split_eq(s@) is None,
        },
{
    let len = s.as_str().unicode_len();
    let mut i: usize = 0;
    while i < len
        invariant
            len == s@.len(),
            i <= len,
            eq_index_from(s@, 0) == eq_index_from(s@, i as int),
        decreases len - i,
    {
        if s.as_str().get_char(i) == '=' {
            assert(eq_index_from(s@, i as int) == Some(i as int));
            let name = s.as_str().substring_char(0, i).to_owned();
            let value = s.as_str().substring_char(i + 1, len).to_owned();
            return Some((name, value));
        }
        assert(eq_index_from(s@, i as int) == eq_index_from(s@, i + 1));
        i = i + 1;
    }
    assert(eq_index_from(s@, i as int) is None);
    None
}

// --- flag markers ---

/// Whether a token begins with `-`, marking it as a flag-like token.
pub open spec fn spec_starts_dash(s: Seq<char>) -> bool {
    s.len() > 0 && s[0] == '-'
}

/// Whether a token begins with `-`.
pub fn starts_with_dash(s: &String) -> (r: bool)
    ensures
        r == spec_starts_dash(s@),
{
    let len = s.as_str().unicode_len();
    len > 0 && s.as_str().get_char(0) == '-'
}

/// Compares a token with a literal.
pub fn is_tok(s: &String, lit: &str) -> (r: bool)
    ensures
        r == (s@ == lit@),
{
    let l: String = lit.to_owned();
    s.eq(&l)
}

/// A bare token turned into a flag spelling: one character gets the short
/// `-` marker, anything longer the long `--` marker.
pub open spec fn spec_flagify(t: Seq<char>) -> Seq<char> {
    if t.len() == 1 {
        seq!['-'] + t
    } else {
        seq!['-', '-'] + t
    }
}

/// Prefixes a bare token with the flag marker convention: `-` for a single
/// character, `--` otherwise.
pub fn flagify(s: &String) -> (r: String)
    ensures
        r@ == spec_flagify(s@),
{
    if s.as_str().unicode_len() == 1 {
        proof {
            reveal_strlit("-");
        }
        let p: String = "-".to_owned();
        assert(p@ =~= seq!['-']);
        p.concat(s.as_str())
    } else {
        proof {
            reveal_strlit("--");
        }
        let p: String = "--".to_owned();
        assert(p@ =~= seq!['-', '-']);
        p.concat(s.as_str())
    }
}

// --- upper-casing ---

/// ASCII upper-casing of one character; anything outside `a`..`z` is kept.
pub open spec fn spec_upper_char(c: char) -> char {
    if 97 <= c as u32 && c as u32 <= 122 {
        (c as u32 - 32) as char
    } else {
        c
    }
}

/// ASCII upper-casing of a character sequence.
pub open spec fn spec_upper(s: Seq<char>) -> Seq<char> {
    s.map_values(|c: char| spec_upper_char(c))
}

/// ASCII upper-casing of one character.
pub fn upper_char(c: char) -> (r: char)
    ensures
        r == spec_upper_char(c),
{
    let u = c as u32;
    if 97 <= u && u <= 122 {
        ((u - 32) as u8) as char
    } else {
        c
    }
}

/// Relies on std's `String::push`: appends exactly one character.
#[verifier::external_body]
pub fn push_char(s: &mut String, c: char)
    ensures
        final(s)@ == old(s)@.push(c),
{
    s.push(c);
}

// --- membership ---

/// Whether some element of `list` has the character sequence `x`.
pub fn string_list_contains(list: &Vec<String>, x: &String) -> (r: bool)
    ensures
        r == list.deep_view().contains(x@),
{
    let mut i: usize = 0;
    while i < list.len()
        invariant
            i <= list@.len(),
            forall|j: int| 0 <= j < i ==> list.deep_view()[j] != x@,
        decreases list@.len() - i,
    {
        if list[i].eq(x) {
            assert(list.deep_view()[i as int] == x@);
            return true;
        }
        i = i + 1;
    }
    assert(forall|j: int| 0 <= j < list.deep_view().len() ==> list.deep_view()[j] != x@);
    false
}

/// Whether `list` holds the position `x`.
pub fn u16_list_contains(list: &Vec<u16>, x: u16) -> (r: bool)
    ensures
        r == list@.contains(x),
{
    let mut i: usize = 0;
    while i < list.len()
        invariant
            i <= list@.len(),
            forall|j: int| 0 <= j < i ==> list@[j] != x,
        decreases list@.len() - i,
    {
        if list[i] == x {
            assert(list@[i as int] == x);
            return true;
        }
        i = i + 1;
    }
    false
}


/// Positions known to hold no `=` do not change where the first `=` is
/// found.
pub proof fn lemma_eq_index_skip_prefix(s: Seq<char>, k: int)
    requires
        0 <= k <= s.len(),
        forall|j: int| 0 <= j < k ==> s[j] != '=',
    ensures
        eq_index_from(s, 0) == eq_index_from(s, k),
    decreases k,
{
    if k > 0 {
        lemma_eq_index_skip_prefix(s, k - 1);
        assert(eq_index_from(s, k - 1) == eq_index_from(s, k));
    }
}

/// Where no first `=` is found, no position at or after `k` holds one.
pub proof fn lemma_eq_index_none(s: Seq<char>, k: int)
    requires
        0 <= k,
        eq_index_from(s, k) is None,
    ensures
        forall|j: int| k <= j < s.len() ==> s[j] != '=',
    decreases s.len() - k,
{
    if k < s.len() {
        lemma_eq_index_none(s, k + 1);
    }
}

/// Splitting `flag=value` at its first `=` recovers the two parts, when the
/// flag spelling itself holds no `=`.
pub proof fn lemma_split_eq_concat(flag: Seq<char>, v: Seq<char>)
    requires
        eq_index_from(flag, 0) is None,
    ensures
        spec_split_eq(flag + seq!['='] + v) == Some((flag, v)),
{
    let t = flag + seq!['='] + v;
    lemma_eq_index_none(flag, 0);
    assert(forall|j: int| 0 <= j < flag.len() ==> t[j] == flag[j] && t[j] != '=');
    lemma_eq_index_skip_prefix(t, flag.len() as int);
    assert(t[flag.len() as int] == '=');
    assert(eq_index_from(t, flag.len() as int) == Some(flag.len() as int));
    assert(t.subrange(0, flag.len() as int) =~= flag);
    assert(t.subrange(flag.len() as int + 1, t.len() as int) =~= v);
}

} // verus!
