//! The attributes shared by every argument kind: name, flag spellings,
//! default, description, required/secret/repeated/catch-all markers and
//! ordinal positions — together with the builder that reads them from the
//! definition token stream, and the flag-matching step every kind shares.

use vstd::prelude::*;

use crate::errors::DefErrModel;
use crate::errors::DefinitionError;
use crate::numbers::parse_u16;
use crate::numbers::spec_parse_u16;
use crate::text::is_tok;
use crate::text::flagify;
use crate::text::push_char;
use crate::text::spec_split_eq;
use crate::text::spec_starts_dash;
use crate::text::spec_upper;
use crate::text::split_at_eq;
use crate::text::starts_with_dash;
use crate::text::string_list_contains;
use crate::text::upper_char;

verus! {

// --- deriving a name from the first flag ---

/// Whether `c` is ASCII alphanumeric.
pub open spec fn is_alnum(c: char) -> bool {
    (48 <= c as u32 && c as u32 <= 57) || (65 <= c as u32 && c as u32 <= 90) || (97 <= c as u32
        && c as u32 <= 122)
}

/// The maximal alphanumeric runs of `s` from position `i` on, leftmost
/// first; `done` holds the runs already completed and `cur` the run open at
/// position `i`.
pub open spec fn alnum_runs_acc(s: Seq<char>, i: int, done: Seq<Seq<char>>, cur: Seq<char>) -> Seq<
    Seq<char>,
>
    decreases s.len() - i,
{
    if i < 0 || i >= s.len() {
        if cur.len() > 0 {
            done.push(cur)
        } else {
            done
        }
    } else if is_alnum(s[i]) {
        alnum_runs_acc(s, i + 1, done, cur.push(s[i]))
    } else {
        alnum_runs_acc(s, i + 1, if cur.len() > 0 {
            done.push(cur)
        } else {
            done
        }, Seq::empty())
    }
}

/// The maximal alphanumeric runs of `s`, leftmost first.
pub open spec fn spec_alnum_runs(s: Seq<char>) -> Seq<Seq<char>> {
    alnum_runs_acc(s, 0, Seq::empty(), Seq::empty())
}

/// The parts joined with `sep` between them.
pub open spec fn spec_join(parts: Seq<Seq<char>>, sep: Seq<char>) -> Seq<char>
    decreases parts.len(),
{
    if parts.len() == 0 {
        Seq::empty()
    } else if parts.len() == 1 {
        parts[0]
    } else {
        spec_join(parts.drop_last(), sep) + sep + parts.last()
    }
}

/// The name derived from a flag spelling: its alphanumeric runs joined with
/// `_`, upper-cased.
pub open spec fn spec_fix_name(s: Seq<char>) -> Seq<char> {
    spec_upper(spec_join(spec_alnum_runs(s), seq!['_']))
}

/// Relies on regex: `[a-zA-Z0-9]+` matched with `find_iter` yields exactly
/// the maximal alphanumeric runs of the haystack, leftmost first.
#[verifier::external_body]
fn alnum_runs(name: &String) -> (r: Vec<String>)
    ensures
        r.deep_view() == spec_alnum_runs(name@),
{
    regex::Regex::new(r"[a-zA-Z0-9]+")
        .unwrap()
        .find_iter(name.as_str())
        .map(|m| m.as_str().to_owned())
        .collect()
}

pub proof fn lemma_join_take_step(parts: Seq<Seq<char>>, sep: Seq<char>, i: int)
    requires
        0 <= i < parts.len(),
    ensures
        spec_join(parts.take(i + 1), sep) == if i == 0 {
            parts[0]
        } else {
            spec_join(parts.take(i), sep) + sep + parts[i]
        },
{
    let p = parts.take(i + 1);
    if i == 0 {
        assert(p.len() == 1);
        assert(p[0] == parts[0]);
    } else {
        assert(p.drop_last() =~= parts.take(i));
        assert(p.last() == parts[i]);
    }
}

/// Derives an argument name from a flag spelling: the alphanumeric runs of
/// the flag joined with `_`, upper-cased.
pub fn fix_name(name: &String) -> (r: String)
    ensures
        r@ == spec_fix_name(name@),
{
    let runs = alnum_runs(name);
    let ghost parts = runs.deep_view();
    let mut out = String::new();
    let mut i: usize = 0;
    while i < runs.len()
        invariant
            parts == runs.deep_view(),
            parts == spec_alnum_runs(name@),
            i <= parts.len(),
            out@ == spec_upper(spec_join(parts.take(i as int), seq!['_'])),
        decreases parts.len() - i,
    {
        let ghost base = if i > 0 {
            spec_join(parts.take(i as int), seq!['_']) + seq!['_']
        } else {
            spec_join(parts.take(i as int), seq!['_'])
        };
        if i > 0 {
            push_char(&mut out, '_');
            proof {
                assert(spec_upper(spec_join(parts.take(i as int), seq!['_'])).push('_')
                    =~= spec_upper(base));
            }
        }
        let run = &runs[i];
        assert(run@ == parts[i as int]);
        let rlen = run.as_str().unicode_len();
        let mut j: usize = 0;
        while j < rlen
            invariant
                rlen == run@.len(),
                j <= rlen,
                out@ == spec_upper(base + run@.take(j as int)),
        decreases rlen - j,
        {
            let c = run.as_str().get_char(j);
            push_char(&mut out, upper_char(c));
            proof {
                assert((base + run@.take(j as int)).push(run@[j as int]) =~= base + run@.take(
                    j + 1,
                ));
                assert(spec_upper(base + run@.take(j as int)).push(spec_upper_char_at(
                    run@,
                    j as int,
                )) =~= spec_upper(base + run@.take(j + 1)));
            }
            j = j + 1;
        }
        proof {
            assert(base + run@.take(rlen as int) =~= base + run@);
            lemma_join_take_step(parts, seq!['_'], i as int);
            assert(spec_join(parts.take(i + 1), seq!['_']) =~= base + run@);
        }
        i = i + 1;
    }
    proof {
        assert(parts.take(i as int) =~= parts);
    }
    out
}

/// The upper-cased character of `s` at `i`.
pub open spec fn spec_upper_char_at(s: Seq<char>, i: int) -> char {
    crate::text::spec_upper_char(s[i])
}


// --- the debug rendering ---

/// A suffix present only when its marker is set.
pub open spec fn opt_suffix(flag: bool, text: Seq<char>) -> Seq<char> {
    if flag {
        text
    } else {
        Seq::empty()
    }
}

/// A labelled field present only when it is set.
pub open spec fn opt_field(v: Option<Seq<char>>, label: Seq<char>) -> Seq<char> {
    match v {
        Some(d) => label + d,
        None => Seq::empty(),
    }
}

/// The terse one-line rendering of the shared attributes: the name, the flag
/// spellings joined with commas, the markers that are set, and the default
/// and description where present.
pub open spec fn spec_debug_info(c: CommonModel) -> Seq<char> {
    "name: "@ + c.name + "; flags: "@ + spec_join(c.flags, seq![',', ' ']) + opt_suffix(
        c.required,
        "; required"@,
    ) + opt_suffix(c.repeated, "; repeated"@) + opt_suffix(c.secret, "; secret"@) + opt_suffix(
        c.catch_all,
        "; catch-all"@,
    ) + opt_field(c.default, "; default: "@) + opt_field(c.description, "; description: "@)
}

// --- the shared attribute set ---

/// The mathematical shape of the shared attributes, each text field viewed
/// as its character sequence.
#[verifier::ext_equal]
pub struct CommonModel {
    pub name: Seq<char>,
    pub flags: Seq<Seq<char>>,
    pub default: Option<Seq<char>>,
    pub description: Option<Seq<char>>,
    pub required: bool,
    pub secret: bool,
    pub repeated: bool,
    pub ordinals: Seq<u16>,
    pub catch_all: bool,
}

/// The attributes every argument kind shares.
#[derive(Debug)]
pub struct ArgumentCommon {
    name: String,
    all_flags: Vec<String>,
    default: Option<String>,
    description: Option<String>,
    required: bool,
    secret: bool,
    repeated: bool,
    ordinals: Vec<u16>,
    catch_all: bool,
}

impl View for ArgumentCommon {
    type V = CommonModel;

    closed spec fn view(&self) -> CommonModel {
        CommonModel {
            name: self.name@,
            flags: self.all_flags.deep_view(),
            default: match self.default {
                Some(ref d) => Some(d@),
                None => None,
            },
            description: match self.description {
                Some(ref d) => Some(d@),
                None => None,
            },
            required: self.required,
            secret: self.secret,
            repeated: self.repeated,
            ordinals: self.ordinals@,
            catch_all: self.catch_all,
        }
    }
}

// --- matching one runtime token against the flag spellings ---

/// How a runtime token relates to a specification's flag list.
pub enum MatchResult {
    /// The token was `flag=value` with a known flag: both parts.
    MatchWithValue(String, String),
    /// The token was a known bare flag (or no token was offered at all, so
    /// the value is taken from the queue).
    MatchWithoutValue,
    /// The token selects this specification in no way.
    NoMatch,
}

/// The mathematical shape of a `MatchResult`.
pub enum MatchModel {
    MatchWithValue(Seq<char>, Seq<char>),
    MatchWithoutValue,
    NoMatch,
}

impl View for MatchResult {
    type V = MatchModel;

    open spec fn view(&self) -> MatchModel {
        match self {
            MatchResult::MatchWithValue(n, v) => MatchModel::MatchWithValue(n@, v@),
            MatchResult::MatchWithoutValue => MatchModel::MatchWithoutValue,
            MatchResult::NoMatch => MatchModel::NoMatch,
        }
    }
}

/// How a token relates to a flag list: no token at all means the value comes
/// from the queue; `flag=value` with a known flag name carries the value
/// inline; a known bare flag matches without a value; anything else is no
/// match.
pub open spec fn spec_flag_match(flags: Seq<Seq<char>>, arg: Option<Seq<char>>) -> MatchModel {
    match arg {
        None => MatchModel::MatchWithoutValue,
        Some(t) => match spec_split_eq(t) {
            None => if flags.contains(t) {
                MatchModel::MatchWithoutValue
            } else {
                MatchModel::NoMatch
            },
            Some(parts) => if flags.contains(parts.0) {
                MatchModel::MatchWithValue(parts.0, parts.1)
            } else {
                MatchModel::NoMatch
            },
        },
    }
}

/// The view of an optional owned token.
pub open spec fn opt_token_view(arg: Option<String>) -> Option<Seq<char>> {
    match arg {
        Some(t) => Some(t@),
        None => None,
    }
}

impl ArgumentCommon {
    /// The unique key of the specification.
    pub fn get_name(&self) -> (r: &String)
        ensures
            r@ == self@.name,
    {
        &self.name
    }

    /// All flag spellings, in insertion order.
    pub fn get_all_flags(&self) -> (r: &Vec<String>)
        ensures
            r.deep_view() == self@.flags,
    {
        &self.all_flags
    }

    /// The textual default, applied only when no value was resolved at all.
    pub fn get_default(&self) -> (r: &Option<String>)
        ensures
            match r {
                Some(d) => self@.default == Some(d@),
                None => self@.default is None,
            },
    {
        &self.default
    }

    /// The help description.
    pub fn get_description(&self) -> (r: &Option<String>)
        ensures
            match r {
                Some(d) => self@.description == Some(d@),
                None => self@.description is None,
            },
    {
        &self.description
    }

    /// Whether a resolved value is mandatory.
    pub fn get_required(&self) -> (r: bool)
        ensures
            r == self@.required,
    {
        self.required
    }

    /// Whether the specification is hidden from help output.
    pub fn get_secret(&self) -> (r: bool)
        ensures
            r == self@.secret,
    {
        self.secret
    }

    /// Whether the specification may accumulate several values.
    pub fn get_repeated(&self) -> (r: bool)
        ensures
            r == self@.repeated,
    {
        self.repeated
    }

    /// The 0-based positions among non-flag tokens at which this
    /// specification accepts a value without a flag.
    pub fn get_ordinals(&self) -> (r: &Vec<u16>)
        ensures
            r@ == self@.ordinals,
    {
        &self.ordinals
    }

    /// Whether the specification absorbs otherwise-unmatched tokens.
    pub fn get_catch_all(&self) -> (r: bool)
        ensures
            r == self@.catch_all,
    {
        self.catch_all
    }

    /// A fresh builder with nothing set.
    pub fn new_builder() -> (b: ArgumentCommonBuilder)
        ensures
            b@ == spec_empty_builder(),
    {
        let b = ArgumentCommonBuilder {
            name: None,
            all_flags: Vec::new(),
            default: None,
            description: None,
            required: false,
            secret: false,
            repeated: false,
            ordinals: Vec::new(),
            catch_all: false,
        };
        proof {
            assert(b@ =~= spec_empty_builder());
        }
        b
    }


    /// A terse one-line representation of the shared attributes, suitable
    /// for debugging.
    pub fn get_debug_info(&self) -> (r: String)
        ensures
            r@ == spec_debug_info(self@),
    {
        let ghost sep = seq![',', ' '];
        let mut out: String = "name: ".to_owned();
        out.append(self.name.as_str());
        out.append("; flags: ");
        let ghost head = "name: "@ + self@.name + "; flags: "@;
        proof {
            assert(out@ =~= head + spec_join(self@.flags.take(0), sep));
        }
        let mut i: usize = 0;
        while i < self.all_flags.len()
            invariant
                head == "name: "@ + self@.name + "; flags: "@,
                sep == seq![',', ' '],
                i <= self@.flags.len(),
                self@.flags.len() == self.all_flags@.len(),
                self@.flags == self.all_flags.deep_view(),
                out@ == head + spec_join(self@.flags.take(i as int), sep),
            decreases self@.flags.len() - i,
        {
            let ghost mid = out@;
            if i > 0 {
                out.append(", ");
            }
            out.append(self.all_flags[i].as_str());
            proof {
                lemma_join_take_step(self@.flags, sep, i as int);
                if i > 0 {
                    assert(out@ =~= mid + ", "@ + self@.flags[i as int]);
                    reveal_strlit(", ");
                    assert(", "@ =~= sep);
                    assert(out@ =~= head + spec_join(self@.flags.take(i + 1), sep));
                } else {
                    assert(spec_join(self@.flags.take(0), sep) =~= Seq::<char>::empty());
                    assert(out@ =~= head + spec_join(self@.flags.take(i + 1), sep));
                }
            }
            i = i + 1;
        }
        proof {
            assert(self@.flags.take(i as int) =~= self@.flags);
        }
        let ghost p1 = head + spec_join(self@.flags, sep);
        if self.required {
            out.append("; required");
        }
        let ghost p2 = p1 + opt_suffix(self@.required, "; required"@);
        proof {
            assert(out@ =~= p2);
        }
        if self.repeated {
            out.append("; repeated");
        }
        let ghost p3 = p2 + opt_suffix(self@.repeated, "; repeated"@);
        proof {
            assert(out@ =~= p3);
        }
        if self.secret {
            out.append("; secret");
        }
        let ghost p4 = p3 + opt_suffix(self@.secret, "; secret"@);
        proof {
            assert(out@ =~= p4);
        }
        if self.catch_all {
            out.append("; catch-all");
        }
        let ghost p5 = p4 + opt_suffix(self@.catch_all, "; catch-all"@);
        proof {
            assert(out@ =~= p5);
        }
        match &self.default {
            Some(d) => {
                out.append("; default: ");
                out.append(d.as_str());
            },
            None => {},
        }
        let ghost p6 = p5 + opt_field(self@.default, "; default: "@);
        proof {
            assert(out@ =~= p6);
        }
        match &self.description {
            Some(d) => {
                out.append("; description: ");
                out.append(d.as_str());
            },
            None => {},
        }
        let ghost p7 = p6 + opt_field(self@.description, "; description: "@);
        proof {
            assert(out@ =~= p7);
            assert(p7 =~= spec_debug_info(self@));
        }
        out
    }

    /// Matches one runtime token against the flag spellings.
    pub fn check_flag_match(&self, flag: Option<String>) -> (r: MatchResult)
        ensures
            r@ == spec_flag_match(self@.flags, opt_token_view(flag)),
    {
        match flag {
            None => MatchResult::MatchWithoutValue,
            Some(t) => {
                match split_at_eq(&t) {
                    None => {
                        if string_list_contains(&self.all_flags, &t) {
                            MatchResult::MatchWithoutValue
                        } else {
                            MatchResult::NoMatch
                        }
                    },
                    Some(parts) => {
                        let (name, value) = parts;
                        if string_list_contains(&self.all_flags, &name) {
                            MatchResult::MatchWithValue(name, value)
                        } else {
                            MatchResult::NoMatch
                        }
                    },
                }
            },
        }
    }
}

// --- the builder ---

/// The mathematical shape of a builder: the attributes read so far.
#[verifier::ext_equal]
pub struct BuilderModel {
    pub name: Option<Seq<char>>,
    pub flags: Seq<Seq<char>>,
    pub default: Option<Seq<char>>,
    pub description: Option<Seq<char>>,
    pub required: bool,
    pub secret: bool,
    pub repeated: bool,
    pub ordinals: Seq<u16>,
    pub catch_all: bool,
}

/// A builder with nothing set.
pub open spec fn spec_empty_builder() -> BuilderModel {
    BuilderModel {
        name: None,
        flags: Seq::empty(),
        default: None,
        description: None,
        required: false,
        secret: false,
        repeated: false,
        ordinals: Seq::empty(),
        catch_all: false,
    }
}

/// A mutable draft of the shared attributes, finalized into an immutable
/// `ArgumentCommon` once all attribute tokens are read.
pub struct ArgumentCommonBuilder {
    name: Option<String>,
    all_flags: Vec<String>,
    default: Option<String>,
    description: Option<String>,
    required: bool,
    secret: bool,
    repeated: bool,
    ordinals: Vec<u16>,
    catch_all: bool,
}

impl View for ArgumentCommonBuilder {
    type V = BuilderModel;

    closed spec fn view(&self) -> BuilderModel {
        BuilderModel {
            name: match self.name {
                Some(ref d) => Some(d@),
                None => None,
            },
            flags: self.all_flags.deep_view(),
            default: match self.default {
                Some(ref d) => Some(d@),
                None => None,
            },
            description: match self.description {
                Some(ref d) => Some(d@),
                None => None,
            },
            required: self.required,
            secret: self.secret,
            repeated: self.repeated,
            ordinals: self.ordinals@,
            catch_all: self.catch_all,
        }
    }
}

/// Reading shared attribute tokens from position `i` on, into the draft `m`:
/// stops without consuming at the first `-`-token it does not recognize, or
/// at the end of the stream; records a bare token as a flag, prefixing the
/// `--` marker convention.
pub open spec fn spec_parse_common(m: BuilderModel, tokens: Seq<Seq<char>>, i: int) -> Result<
    (BuilderModel, int),
    DefErrModel,
>
    decreases tokens.len() - i,
{
    if i < 0 || i >= tokens.len() {
        Ok((m, tokens.len() as int))
    } else {
        let t = tokens[i];
        if t == "--required"@ {
            spec_parse_common(BuilderModel { required: true, ..m }, tokens, i + 1)
        } else if t == "--secret"@ {
            spec_parse_common(BuilderModel { secret: true, ..m }, tokens, i + 1)
        } else if t == "--repeated"@ || t == "--repeat"@ {
            spec_parse_common(BuilderModel { repeated: true, ..m }, tokens, i + 1)
        } else if t == "--catch-all"@ {
            spec_parse_common(BuilderModel { catch_all: true, ..m }, tokens, i + 1)
        } else if t == "--ordinal"@ || t == "--order"@ || t == "--ord"@ {
            if i + 1 >= tokens.len() {
                Err(DefErrModel::MissingAttributeValue { attribute: t })
            } else {
                match spec_parse_u16(tokens[i + 1]) {
                    Some(v) => spec_parse_common(
                        BuilderModel { ordinals: m.ordinals.push(v), ..m },
                        tokens,
                        i + 2,
                    ),
                    None => Err(DefErrModel::InvalidOrdinal { value: tokens[i + 1] }),
                }
            }
        } else if t == "--name"@ {
            if i + 1 >= tokens.len() {
                Err(DefErrModel::MissingAttributeValue { attribute: t })
            } else {
                spec_parse_common(BuilderModel { name: Some(tokens[i + 1]), ..m }, tokens, i + 2)
            }
        } else if t == "--default"@ {
            if i + 1 >= tokens.len() {
                Err(DefErrModel::MissingAttributeValue { attribute: t })
            } else {
                spec_parse_common(BuilderModel { default: Some(tokens[i + 1]), ..m }, tokens, i + 2)
            }
        } else if t == "--description"@ || t == "--desc"@ {
            if i + 1 >= tokens.len() {
                Err(DefErrModel::MissingAttributeValue { attribute: t })
            } else {
                spec_parse_common(
                    BuilderModel { description: Some(tokens[i + 1]), ..m },
                    tokens,
                    i + 2,
                )
            }
        } else if t == "--flag"@ {
            if i + 1 >= tokens.len() {
                Err(DefErrModel::MissingAttributeValue { attribute: t })
            } else {
                spec_parse_common(BuilderModel { flags: m.flags.push(tokens[i + 1]), ..m }, tokens, i + 2)
            }
        } else if spec_starts_dash(t) {
            Ok((m, i))
        } else {
            spec_parse_common(
                BuilderModel { flags: m.flags.push(crate::text::spec_flagify(t)), ..m },
                tokens,
                i + 1,
            )
        }
    }
}

/// Where attribute reading succeeds it stops inside the stream, at or after
/// where it started.
pub proof fn lemma_parse_common_bounds(m: BuilderModel, tokens: Seq<Seq<char>>, i: int)
    requires
        0 <= i <= tokens.len(),
    ensures
        match spec_parse_common(m, tokens, i) {
            Ok(out) => i <= out.1 <= tokens.len(),
            Err(_) => true,
        },
    decreases tokens.len() - i,
{
    if i < tokens.len() {
        let t = tokens[i];
        if t == "--required"@ {
            lemma_parse_common_bounds(BuilderModel { required: true, ..m }, tokens, i + 1);
        } else if t == "--secret"@ {
            lemma_parse_common_bounds(BuilderModel { secret: true, ..m }, tokens, i + 1);
        } else if t == "--repeated"@ || t == "--repeat"@ {
            lemma_parse_common_bounds(BuilderModel { repeated: true, ..m }, tokens, i + 1);
        } else if t == "--catch-all"@ {
            lemma_parse_common_bounds(BuilderModel { catch_all: true, ..m }, tokens, i + 1);
        } else if t == "--ordinal"@ || t == "--order"@ || t == "--ord"@ {
            if i + 1 < tokens.len() {
                match spec_parse_u16(tokens[i + 1]) {
                    Some(v) => lemma_parse_common_bounds(
                        BuilderModel { ordinals: m.ordinals.push(v), ..m },
                        tokens,
                        i + 2,
                    ),
                    None => {},
                }
            }
        } else if t == "--name"@ {
            if i + 1 < tokens.len() {
                lemma_parse_common_bounds(
                    BuilderModel { name: Some(tokens[i + 1]), ..m },
                    tokens,
                    i + 2,
                );
            }
        } else if t == "--default"@ {
            if i + 1 < tokens.len() {
                lemma_parse_common_bounds(
                    BuilderModel { default: Some(tokens[i + 1]), ..m },
                    tokens,
                    i + 2,
                );
            }
        } else if t == "--description"@ || t == "--desc"@ {
            if i + 1 < tokens.len() {
                lemma_parse_common_bounds(
                    BuilderModel { description: Some(tokens[i + 1]), ..m },
                    tokens,
                    i + 2,
                );
            }
        } else if t == "--flag"@ {
            if i + 1 < tokens.len() {
                lemma_parse_common_bounds(
                    BuilderModel { flags: m.flags.push(tokens[i + 1]), ..m },
                    tokens,
                    i + 2,
                );
            }
        } else if spec_starts_dash(t) {
        } else {
            lemma_parse_common_bounds(
                BuilderModel { flags: m.flags.push(crate::text::spec_flagify(t)), ..m },
                tokens,
                i + 1,
            );
        }
    }
}

/// Finalizing a draft: the name falls back to one derived from the first
/// flag; a specification that can never be set is rejected.
pub open spec fn spec_build(m: BuilderModel) -> Result<CommonModel, DefErrModel> {
    let name = match m.name {
        Some(n) => Some(n),
        None => if m.flags.len() > 0 {
            Some(spec_fix_name(m.flags[0]))
        } else {
            None
        },
    };
    match name {
        None => Err(DefErrModel::NoNameOrFlags),
        Some(n) => if m.flags.len() == 0 && !m.catch_all && m.ordinals.len() == 0 {
            Err(DefErrModel::NotSettable { name: n })
        } else {
            Ok(
                CommonModel {
                    name: n,
                    flags: m.flags,
                    default: m.default,
                    description: m.description,
                    required: m.required,
                    secret: m.secret,
                    repeated: m.repeated,
                    ordinals: m.ordinals,
                    catch_all: m.catch_all,
                },
            )
        },
    }
}

impl ArgumentCommonBuilder {
    /// Reads shared attribute tokens from `start` on, mutating the draft in
    /// place; stops without consuming at the first `-`-token it does not
    /// recognize (the caller routes it), or at the end of the stream.
    pub fn parse_arguments(&mut self, tokens: &Vec<String>, start: usize) -> (r: Result<
        usize,
        DefinitionError,
    >)
        requires
            start <= tokens@.len(),
        ensures
            match r {
                Ok(j) => start <= j <= tokens@.len() && spec_parse_common(
                    old(self)@,
                    tokens.deep_view(),
                    start as int,
                ) == Ok::<(BuilderModel, int), DefErrModel>((final(self)@, j as int)),
                Err(e) => spec_parse_common(old(self)@, tokens.deep_view(), start as int)
                    == Err::<(BuilderModel, int), DefErrModel>(e@),
            },
    {
        let ghost toks = tokens.deep_view();
        let mut i: usize = start;
        loop
            invariant
                toks == tokens.deep_view(),
                toks.len() == tokens@.len(),
                start <= i <= tokens@.len(),
                spec_parse_common(old(self)@, toks, start as int) == spec_parse_common(
                    self@,
                    toks,
                    i as int,
                ),
            decreases tokens@.len() - i,
        {
            let ghost prev = self@;
            let ghost previ = i as int;
            if i >= tokens.len() {
                assert(spec_parse_common(prev, toks, previ) == Ok::<(BuilderModel, int), DefErrModel>((prev, toks.len() as int)));
                return Ok(i);
            }
            let t = &tokens[i];
            assert(toks[previ] == t@);
            if is_tok(t, "--required") {
                self.required = true;
                proof {
                    assert(self@ =~= (BuilderModel { required: true, ..prev }));
                    assert(spec_parse_common(prev, toks, previ) == spec_parse_common(self@, toks, previ + 1));
                }
                i = i + 1;
            } else if is_tok(t, "--secret") {
                self.secret = true;
                proof {
                    assert(self@ =~= (BuilderModel { secret: true, ..prev }));
                    assert(spec_parse_common(prev, toks, previ) == spec_parse_common(self@, toks, previ + 1));
                }
                i = i + 1;
            } else if is_tok(t, "--repeated") || is_tok(t, "--repeat") {
                self.repeated = true;
                proof {
                    assert(self@ =~= (BuilderModel { repeated: true, ..prev }));
                    assert(spec_parse_common(prev, toks, previ) == spec_parse_common(self@, toks, previ + 1));
                }
                i = i + 1;
            } else if is_tok(t, "--catch-all") {
                self.catch_all = true;
                proof {
                    assert(self@ =~= (BuilderModel { catch_all: true, ..prev }));
                    assert(spec_parse_common(prev, toks, previ) == spec_parse_common(self@, toks, previ + 1));
                }
                i = i + 1;
            } else if is_tok(t, "--ordinal") || is_tok(t, "--order") || is_tok(t, "--ord") {
                if i + 1 >= tokens.len() {
                    let e = DefinitionError::MissingAttributeValue { attribute: t.clone() };
                    assert(spec_parse_common(prev, toks, previ) == Err::<(BuilderModel, int), DefErrModel>(e@));
                    return Err(e);
                }
                let v = &tokens[i + 1];
                assert(toks[previ + 1] == v@);
                match parse_u16(v) {
                    Some(o) => {
                        self.ordinals.push(o);
                        proof {
                            assert(self@ =~= (BuilderModel { ordinals: prev.ordinals.push(o), ..prev }));
                            assert(spec_parse_common(prev, toks, previ) == spec_parse_common(self@, toks, previ + 2));
                        }
                        i = i + 2;
                    },
                    None => {
                        let e = DefinitionError::InvalidOrdinal { value: v.clone() };
                        assert(spec_parse_common(prev, toks, previ) == Err::<(BuilderModel, int), DefErrModel>(e@));
                        return Err(e);
                    },
                }
            } else if is_tok(t, "--name") {
                if i + 1 >= tokens.len() {
                    let e = DefinitionError::MissingAttributeValue { attribute: t.clone() };
                    assert(spec_parse_common(prev, toks, previ) == Err::<(BuilderModel, int), DefErrModel>(e@));
                    return Err(e);
                }
                self.name = Some(tokens[i + 1].clone());
                proof {
                    assert(self@ =~= (BuilderModel { name: Some(toks[previ + 1]), ..prev }));
                    assert(spec_parse_common(prev, toks, previ) == spec_parse_common(self@, toks, previ + 2));
                }
                i = i + 2;
            } else if is_tok(t, "--default") {
                if i + 1 >= tokens.len() {
                    let e = DefinitionError::MissingAttributeValue { attribute: t.clone() };
                    assert(spec_parse_common(prev, toks, previ) == Err::<(BuilderModel, int), DefErrModel>(e@));
                    return Err(e);
                }
                self.default = Some(tokens[i + 1].clone());
                proof {
                    assert(self@ =~= (BuilderModel { default: Some(toks[previ + 1]), ..prev }));
                    assert(spec_parse_common(prev, toks, previ) == spec_parse_common(self@, toks, previ + 2));
                }
                i = i + 2;
            } else if is_tok(t, "--description") || is_tok(t, "--desc") {
                if i + 1 >= tokens.len() {
                    let e = DefinitionError::MissingAttributeValue { attribute: t.clone() };
                    assert(spec_parse_common(prev, toks, previ) == Err::<(BuilderModel, int), DefErrModel>(e@));
                    return Err(e);
                }
                self.description = Some(tokens[i + 1].clone());
                proof {
                    assert(self@ =~= (BuilderModel { description: Some(toks[previ + 1]), ..prev }));
                    assert(spec_parse_common(prev, toks, previ) == spec_parse_common(self@, toks, previ + 2));
                }
                i = i + 2;
            } else if is_tok(t, "--flag") {
                if i + 1 >= tokens.len() {
                    let e = DefinitionError::MissingAttributeValue { attribute: t.clone() };
                    assert(spec_parse_common(prev, toks, previ) == Err::<(BuilderModel, int), DefErrModel>(e@));
                    return Err(e);
                }
                self.all_flags.push(tokens[i + 1].clone());
                proof {
                    assert(self@ =~= (BuilderModel { flags: prev.flags.push(toks[previ + 1]), ..prev }));
                    assert(spec_parse_common(prev, toks, previ) == spec_parse_common(self@, toks, previ + 2));
                }
                i = i + 2;
            } else if starts_with_dash(t) {
                assert(spec_parse_common(prev, toks, previ) == Ok::<(BuilderModel, int), DefErrModel>((prev, previ)));
                return Ok(i);
            } else {
                self.all_flags.push(flagify(t));
                proof {
                    assert(self@ =~= (BuilderModel { flags: prev.flags.push(crate::text::spec_flagify(t@)), ..prev }));
                    assert(spec_parse_common(prev, toks, previ) == spec_parse_common(self@, toks, previ + 1));
                }
                i = i + 1;
            }
        }
    }

    /// Records one more flag spelling.
    pub fn add_flag(&mut self, flag: String)
        ensures
            final(self)@ == (BuilderModel { flags: old(self)@.flags.push(flag@), ..old(self)@ }),
    {
        let ghost before = self@;
        self.all_flags.push(flag);
        proof {
            assert(self@ =~= (BuilderModel { flags: before.flags.push(flag@), ..before }));
        }
    }

    /// Finalizes the draft into an immutable attribute set.
    pub fn build(self) -> (r: Result<ArgumentCommon, DefinitionError>)
        ensures
            match r {
                Ok(c) => spec_build(self@) == Ok::<CommonModel, DefErrModel>(c@),
                Err(e) => spec_build(self@) == Err::<CommonModel, DefErrModel>(e@),
            },
    {
        let name = match self.name {
            Some(n) => n,
            None => {
                if self.all_flags.len() > 0 {
                    fix_name(&self.all_flags[0])
                } else {
                    return Err(DefinitionError::NoNameOrFlags);
                }
            },
        };
        if self.all_flags.len() == 0 && !self.catch_all && self.ordinals.len() == 0 {
            return Err(DefinitionError::NotSettable { name });
        }
        Ok(
            ArgumentCommon {
                name,
                all_flags: self.all_flags,
                default: self.default,
                description: self.description,
                required: self.required,
                secret: self.secret,
                repeated: self.repeated,
                ordinals: self.ordinals,
                catch_all: self.catch_all,
            },
        )
    }
}

} // verus!
