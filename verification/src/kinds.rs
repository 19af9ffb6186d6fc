//! The five argument kinds — boolean, integer, float, string and choice —
//! each a thin wrapper around the shared attribute set, with its own way of
//! consuming one runtime token into a coerced value string.

use vstd::prelude::*;

use crate::common::ArgumentCommon;
use crate::common::ArgumentCommonBuilder;
use crate::common::BuilderModel;
use crate::common::CommonModel;
use crate::common::MatchResult;
use crate::common::lemma_join_take_step;
use crate::common::lemma_parse_common_bounds;
use crate::common::spec_debug_info;
use crate::common::spec_join;
use crate::common::opt_token_view;
use crate::common::spec_build;
use crate::common::spec_empty_builder;
use crate::common::spec_flag_match;
use crate::common::spec_parse_common;
use crate::errors::DefErrModel;
use crate::errors::DefinitionError;
use crate::errors::UserErrModel;
use crate::errors::UserError;
use crate::numbers::i64_to_string;
use crate::numbers::is_float_literal;
use crate::numbers::parse_bool_lit;
use crate::numbers::parse_i64;
use crate::numbers::spec_bool_lit;
use crate::numbers::spec_int_string;
use crate::numbers::spec_is_float;
use crate::numbers::spec_parse_i64;
use crate::text::is_tok;
use crate::text::spec_starts_dash;
use crate::text::starts_with_dash;
use crate::text::string_list_contains;

verus! {

// --- the models ---

/// One entry of a choice option table: either an accepted literal (with an
/// optional description), or an alias mapped to a canonical value.
#[derive(Debug)]
pub enum OptionType {
    /// Typing the literal resolves to this canonical value instead.
    Mapping(String),
    /// The literal itself is the resolved value; the payload describes it.
    Actual(Option<String>),
}

/// The mathematical shape of an option table entry.
pub enum OptionModel {
    Mapping(Seq<char>),
    Actual(Option<Seq<char>>),
}

impl View for OptionType {
    type V = OptionModel;

    open spec fn view(&self) -> OptionModel {
        match self {
            OptionType::Mapping(to) => OptionModel::Mapping(to@),
            OptionType::Actual(d) => OptionModel::Actual(
                match d {
                    Some(t) => Some(t@),
                    None => None,
                },
            ),
        }
    }
}

/// The option table viewed entry by entry.
pub open spec fn options_view(opts: Seq<(String, OptionType)>) -> Seq<(Seq<char>, OptionModel)> {
    opts.map_values(|p: (String, OptionType)| (p.0@, p.1@))
}

/// The mathematical shape of one argument specification: its kind, the
/// shared attributes, and the kind's own data.
pub enum ArgumentModel {
    Boolean { common: CommonModel, negative_flags: Seq<Seq<char>> },
    Integer { common: CommonModel },
    Float { common: CommonModel },
    Str { common: CommonModel },
    Choice { common: CommonModel, options: Seq<(Seq<char>, OptionModel)> },
}

/// The shared attributes of any specification.
pub open spec fn common_of(a: ArgumentModel) -> CommonModel {
    match a {
        ArgumentModel::Boolean { common, .. } => common,
        ArgumentModel::Integer { common } => common,
        ArgumentModel::Float { common } => common,
        ArgumentModel::Str { common } => common,
        ArgumentModel::Choice { common, .. } => common,
    }
}

// --- what consuming one token yields ---

/// The outcome of offering one runtime token (and the queue behind it) to a
/// specification.
pub enum ConsumeOut {
    /// The token selects this specification in no way.
    NoMatch,
    /// A coerced value, and how many tokens were taken from the queue (0 or 1).
    Matched { value: Seq<char>, used: int },
    /// The token selected this specification but its value is bad.
    Failed(UserErrModel),
}

/// The raw (uncoerced) value a flag match yields: inline after `=`, or the
/// head of the queue after a bare flag.
pub enum ValueOut {
    NoMatch,
    Value { value: Seq<char>, used: int },
    Failed(UserErrModel),
}

/// How a non-boolean specification obtains its raw value for one token:
/// `flag=value` carries it inline; a bare flag takes the next queue token,
/// and fails when the queue is empty; no token at all (an ordinal or
/// catch-all invocation) also takes the queue head.
pub open spec fn spec_consume_valued(
    common: CommonModel,
    arg: Option<Seq<char>>,
    queue: Seq<Seq<char>>,
) -> ValueOut {
    match spec_flag_match(common.flags, arg) {
        crate::common::MatchModel::NoMatch => ValueOut::NoMatch,
        crate::common::MatchModel::MatchWithValue(_flag, v) => ValueOut::Value { value: v, used: 0 },
        crate::common::MatchModel::MatchWithoutValue => if queue.len() == 0 {
            ValueOut::Failed(UserErrModel::NoValueForArgument { name: common.name })
        } else {
            ValueOut::Value { value: queue[0], used: 1 }
        },
    }
}

/// The first option whose literal is `v`, in declaration order: an alias
/// entry yields its canonical value, an accepted literal yields `v` itself.
pub open spec fn spec_choice_lookup(options: Seq<(Seq<char>, OptionModel)>, v: Seq<char>) -> Option<
    Seq<char>,
>
    decreases options.len(),
{
    if options.len() == 0 {
        None
    } else if options[0].0 == v {
        match options[0].1 {
            OptionModel::Mapping(to) => Some(to),
            OptionModel::Actual(_) => Some(v),
        }
    } else {
        spec_choice_lookup(options.drop_first(), v)
    }
}

/// Offering one runtime token to a specification, by kind.
///
/// A boolean matches one of its flags (bare: `true`; `=value`: the boolean
/// literal) or one of its negative flags (`false`), and never touches the
/// queue.  The typed kinds obtain a raw value as `spec_consume_valued` says
/// and coerce it: integers are re-emitted in canonical decimal, floats are
/// kept as written when they read as a float literal, strings pass through,
/// and choices resolve through the option table.
pub open spec fn spec_consume(
    a: ArgumentModel,
    arg: Option<Seq<char>>,
    queue: Seq<Seq<char>>,
) -> ConsumeOut {
    match a {
        ArgumentModel::Boolean { common, negative_flags } => match spec_flag_match(
            common.flags,
            arg,
        ) {
            crate::common::MatchModel::NoMatch => {
                if arg is Some && negative_flags.contains(arg->0) {
                    ConsumeOut::Matched { value: "false"@, used: 0 }
                } else {
                    ConsumeOut::NoMatch
                }
            },
            crate::common::MatchModel::MatchWithoutValue => ConsumeOut::Matched {
                value: "true"@,
                used: 0,
            },
            crate::common::MatchModel::MatchWithValue(_flag, v) => match spec_bool_lit(v) {
                Some(b) => ConsumeOut::Matched {
                    value: if b {
                        "true"@
                    } else {
                        "false"@
                    },
                    used: 0,
                },
                None => ConsumeOut::Failed(
                    UserErrModel::NonBooleanValue { name: common.name, value: v },
                ),
            },
        },
        ArgumentModel::Integer { common } => match spec_consume_valued(common, arg, queue) {
            ValueOut::NoMatch => ConsumeOut::NoMatch,
            ValueOut::Failed(e) => ConsumeOut::Failed(e),
            ValueOut::Value { value, used } => match spec_parse_i64(value) {
                Some(n) => ConsumeOut::Matched { value: spec_int_string(n), used },
                None => ConsumeOut::Failed(
                    UserErrModel::NonIntegerValue { name: common.name, value },
                ),
            },
        },
        ArgumentModel::Float { common } => match spec_consume_valued(common, arg, queue) {
            ValueOut::NoMatch => ConsumeOut::NoMatch,
            ValueOut::Failed(e) => ConsumeOut::Failed(e),
            ValueOut::Value { value, used } => if spec_is_float(value) {
                ConsumeOut::Matched { value, used }
            } else {
                ConsumeOut::Failed(UserErrModel::NonNumericValue { name: common.name, value })
            },
        },
        ArgumentModel::Str { common } => match spec_consume_valued(common, arg, queue) {
            ValueOut::NoMatch => ConsumeOut::NoMatch,
            ValueOut::Failed(e) => ConsumeOut::Failed(e),
            ValueOut::Value { value, used } => ConsumeOut::Matched { value, used },
        },
        ArgumentModel::Choice { common, options } => match spec_consume_valued(common, arg, queue) {
            ValueOut::NoMatch => ConsumeOut::NoMatch,
            ValueOut::Failed(e) => ConsumeOut::Failed(e),
            ValueOut::Value { value, used } => match spec_choice_lookup(options, value) {
                Some(out) => ConsumeOut::Matched { value: out, used },
                None => ConsumeOut::Failed(
                    UserErrModel::UnknownChoiceValue { name: common.name, value },
                ),
            },
        },
    }
}

/// What an exec `consume` result must be, given what `spec_consume` says of
/// the same specification, token and queue: `Ok(None)` on no match,
/// `Ok(Some((value, new position)))` on a match, the error otherwise.
pub open spec fn consume_matches(
    a: ArgumentModel,
    arg: Option<Seq<char>>,
    queue: Seq<Seq<char>>,
    pos: int,
    r: Result<Option<(String, usize)>, UserError>,
) -> bool {
    match spec_consume(a, arg, queue) {
        ConsumeOut::NoMatch => r matches Ok(o) && o is None,
        ConsumeOut::Matched { value, used } => r matches Ok(o) && o matches Some(out) && out.0@
            == value && out.1 == pos + used,
        ConsumeOut::Failed(e) => r matches Err(err) && err@ == e,
    }
}

/// Copies an optional token.
pub fn clone_opt_token(o: &Option<String>) -> (r: Option<String>)
    ensures
        opt_token_view(r) == match o {
            Some(t) => Some(t@),
            None => None::<Seq<char>>,
        },
{
    match o {
        Some(t) => Some(t.clone()),
        None => None,
    }
}

/// Obtains the raw value for a non-boolean kind: `Ok(None)` when the token
/// matches no flag, otherwise the inline or queue-head value and the new
/// queue position.
fn consume_value(
    common: &ArgumentCommon,
    arg: Option<String>,
    tokens: &Vec<String>,
    pos: usize,
) -> (r: Result<Option<(String, usize)>, UserError>)
    requires
        pos <= tokens@.len(),
    ensures
        match spec_consume_valued(common@, opt_token_view(arg), tokens.deep_view().skip(pos as int)) {
            ValueOut::NoMatch => r matches Ok(o) && o is None,
            ValueOut::Value { value, used } => r matches Ok(o) && o matches Some(out) && out.0@
                == value && out.1 == pos + used && pos + used <= tokens@.len(),
            ValueOut::Failed(e) => r matches Err(err) && err@ == e,
        },
{
    let ghost queue = tokens.deep_view().skip(pos as int);
    match common.check_flag_match(arg) {
        MatchResult::NoMatch => Ok(None),
        MatchResult::MatchWithValue(_flag, value) => Ok(Some((value, pos))),
        MatchResult::MatchWithoutValue => {
            if pos < tokens.len() {
                assert(queue[0] == tokens.deep_view()[pos as int]);
                Ok(Some((tokens[pos].clone(), pos + 1)))
            } else {
                assert(queue.len() == 0);
                Err(UserError::NoValueForArgument { name: common.get_name().clone() })
            }
        },
    }
}

// --- boolean ---

/// A presence/absence switch: bare flags resolve to `true`, registered
/// negative flags to `false`, and `flag=value` to the boolean literal.
#[derive(Debug)]
pub struct BooleanArgument {
    common: ArgumentCommon,
    negative_flags: Vec<String>,
}

impl View for BooleanArgument {
    type V = ArgumentModel;

    closed spec fn view(&self) -> ArgumentModel {
        ArgumentModel::Boolean {
            common: self.common@,
            negative_flags: self.negative_flags.deep_view(),
        }
    }
}

impl BooleanArgument {
    /// The shared attributes.
    pub fn get_common(&self) -> (r: &ArgumentCommon)
        ensures
            r@ == common_of(self@),
    {
        &self.common
    }

    /// The flag spellings that resolve to `false`.
    pub fn get_negative_flags(&self) -> (r: &Vec<String>)
        ensures
            r.deep_view() == self@->Boolean_negative_flags,
    {
        &self.negative_flags
    }

    /// Offers one runtime token to this specification; never touches the
    /// queue.
    pub fn consume(&self, arg: Option<String>, tokens: &Vec<String>, pos: usize) -> (r: Result<
        Option<(String, usize)>,
        UserError,
    >)
        requires
            pos <= tokens@.len(),
        ensures
            consume_matches(self@, opt_token_view(arg), tokens.deep_view().skip(pos as int), pos as int, r),
            (match r {
                Ok(Some(out)) => out.1 == pos,
                _ => true,
            }),
    {
        let probe = clone_opt_token(&arg);
        match self.common.check_flag_match(probe) {
            MatchResult::NoMatch => {
                match arg {
                    Some(a) => {
                        if string_list_contains(&self.negative_flags, &a) {
                            Ok(Some(("false".to_owned(), pos)))
                        } else {
                            Ok(None)
                        }
                    },
                    None => Ok(None),
                }
            },
            MatchResult::MatchWithoutValue => Ok(Some(("true".to_owned(), pos))),
            MatchResult::MatchWithValue(_flag, value) => {
                match parse_bool_lit(&value) {
                    Some(b) => {
                        if b {
                            Ok(Some(("true".to_owned(), pos)))
                        } else {
                            Ok(Some(("false".to_owned(), pos)))
                        }
                    },
                    None => Err(
                        UserError::NonBooleanValue {
                            name: self.common.get_name().clone(),
                            value,
                        },
                    ),
                }
            },
        }
    }
}

// --- integer ---

/// A 64-bit signed integer value, re-emitted in canonical decimal form.
#[derive(Debug)]
pub struct IntegerArgument {
    common: ArgumentCommon,
}

impl View for IntegerArgument {
    type V = ArgumentModel;

    closed spec fn view(&self) -> ArgumentModel {
        ArgumentModel::Integer { common: self.common@ }
    }
}

impl IntegerArgument {
    /// The shared attributes.
    pub fn get_common(&self) -> (r: &ArgumentCommon)
        ensures
            r@ == common_of(self@),
    {
        &self.common
    }

    /// Offers one runtime token to this specification.
    pub fn consume(&self, arg: Option<String>, tokens: &Vec<String>, pos: usize) -> (r: Result<
        Option<(String, usize)>,
        UserError,
    >)
        requires
            pos <= tokens@.len(),
        ensures
            consume_matches(self@, opt_token_view(arg), tokens.deep_view().skip(pos as int), pos as int, r),
            (match r {
                Ok(Some(out)) => pos <= out.1 <= tokens@.len(),
                _ => true,
            }),
    {
        match consume_value(&self.common, arg, tokens, pos)? {
            None => Ok(None),
            Some((value, newpos)) => {
                match parse_i64(&value) {
                    Some(n) => Ok(Some((i64_to_string(n), newpos))),
                    None => Err(
                        UserError::NonIntegerValue {
                            name: self.common.get_name().clone(),
                            value,
                        },
                    ),
                }
            },
        }
    }
}

// --- float ---

/// A 64-bit float value: the token must read as a float literal and is kept
/// as written.
#[derive(Debug)]
pub struct FloatArgument {
    common: ArgumentCommon,
}

impl View for FloatArgument {
    type V = ArgumentModel;

    closed spec fn view(&self) -> ArgumentModel {
        ArgumentModel::Float { common: self.common@ }
    }
}

impl FloatArgument {
    /// The shared attributes.
    pub fn get_common(&self) -> (r: &ArgumentCommon)
        ensures
            r@ == common_of(self@),
    {
        &self.common
    }

    /// Offers one runtime token to this specification.
    pub fn consume(&self, arg: Option<String>, tokens: &Vec<String>, pos: usize) -> (r: Result<
        Option<(String, usize)>,
        UserError,
    >)
        requires
            pos <= tokens@.len(),
        ensures
            consume_matches(self@, opt_token_view(arg), tokens.deep_view().skip(pos as int), pos as int, r),
            (match r {
                Ok(Some(out)) => pos <= out.1 <= tokens@.len(),
                _ => true,
            }),
    {
        match consume_value(&self.common, arg, tokens, pos)? {
            None => Ok(None),
            Some((value, newpos)) => {
                if is_float_literal(&value) {
                    Ok(Some((value, newpos)))
                } else {
                    Err(
                        UserError::NonNumericValue {
                            name: self.common.get_name().clone(),
                            value,
                        },
                    )
                }
            },
        }
    }
}

// --- string ---

/// A free-form value, passed through unchanged.
#[derive(Debug)]
pub struct StringArgument {
    common: ArgumentCommon,
}

impl View for StringArgument {
    type V = ArgumentModel;

    closed spec fn view(&self) -> ArgumentModel {
        ArgumentModel::Str { common: self.common@ }
    }
}

impl StringArgument {
    /// The shared attributes.
    pub fn get_common(&self) -> (r: &ArgumentCommon)
        ensures
            r@ == common_of(self@),
    {
        &self.common
    }

    /// Offers one runtime token to this specification.
    pub fn consume(&self, arg: Option<String>, tokens: &Vec<String>, pos: usize) -> (r: Result<
        Option<(String, usize)>,
        UserError,
    >)
        requires
            pos <= tokens@.len(),
        ensures
            consume_matches(self@, opt_token_view(arg), tokens.deep_view().skip(pos as int), pos as int, r),
            (match r {
                Ok(Some(out)) => pos <= out.1 <= tokens@.len(),
                _ => true,
            }),
    {
        match consume_value(&self.common, arg, tokens, pos)? {
            None => Ok(None),
            Some((value, newpos)) => Ok(Some((value, newpos))),
        }
    }
}

// --- choice ---

/// A value restricted to an ordered option table; alias entries resolve to
/// their canonical target.
#[derive(Debug)]
pub struct ChoiceArgument {
    common: ArgumentCommon,
    all_options: Vec<(String, OptionType)>,
}

impl View for ChoiceArgument {
    type V = ArgumentModel;

    closed spec fn view(&self) -> ArgumentModel {
        ArgumentModel::Choice {
            common: self.common@,
            options: options_view(self.all_options@),
        }
    }
}

impl ChoiceArgument {
    /// The shared attributes.
    pub fn get_common(&self) -> (r: &ArgumentCommon)
        ensures
            r@ == common_of(self@),
    {
        &self.common
    }

    /// The option table, in declaration order.
    pub fn get_all_options(&self) -> (r: &Vec<(String, OptionType)>)
        ensures
            options_view(r@) == self@->Choice_options,
    {
        &self.all_options
    }

    /// Resolves a raw value through the option table, first literal match
    /// wins.
    fn lookup(&self, value: &String) -> (r: Option<String>)
        ensures
            match r {
                Some(out) => spec_choice_lookup(options_view(self.all_options@), value@) == Some(
                    out@,
                ),
                None => spec_choice_lookup(options_view(self.all_options@), value@) is None,
            },
    {
        let ghost opts = options_view(self.all_options@);
        proof {
            assert(opts.skip(0) =~= opts);
        }
        let mut i: usize = 0;
        while i < self.all_options.len()
            invariant
                opts == options_view(self.all_options@),
                opts.len() == self.all_options@.len(),
                i <= opts.len(),
                spec_choice_lookup(opts, value@) == spec_choice_lookup(
                    opts.skip(i as int),
                    value@,
                ),
            decreases opts.len() - i,
        {
            let entry = &self.all_options[i];
            assert(opts.skip(i as int)[0] == opts[i as int]);
            assert(opts.skip(i as int).drop_first() =~= opts.skip(i + 1));
            if entry.0.eq(value) {
                match &entry.1 {
                    OptionType::Mapping(to) => {
                        return Some(to.clone());
                    },
                    OptionType::Actual(_) => {
                        return Some(value.clone());
                    },
                }
            }
            i = i + 1;
        }
        None
    }

    /// Offers one runtime token to this specification.
    pub fn consume(&self, arg: Option<String>, tokens: &Vec<String>, pos: usize) -> (r: Result<
        Option<(String, usize)>,
        UserError,
    >)
        requires
            pos <= tokens@.len(),
        ensures
            consume_matches(self@, opt_token_view(arg), tokens.deep_view().skip(pos as int), pos as int, r),
            (match r {
                Ok(Some(out)) => pos <= out.1 <= tokens@.len(),
                _ => true,
            }),
    {
        match consume_value(&self.common, arg, tokens, pos)? {
            None => Ok(None),
            Some((value, newpos)) => {
                match self.lookup(&value) {
                    Some(out) => Ok(Some((out, newpos))),
                    None => Err(
                        UserError::UnknownChoiceValue {
                            name: self.common.get_name().clone(),
                            value,
                        },
                    ),
                }
            },
        }
    }
}


// --- reading one specification from the definition stream ---

/// Reading a specification with no kind-specific attributes: the shared
/// attributes from position `i` on, then finalization.
pub open spec fn spec_new_simple(tokens: Seq<Seq<char>>, i: int) -> Result<
    (CommonModel, int),
    DefErrModel,
> {
    match spec_parse_common(spec_empty_builder(), tokens, i) {
        Err(e) => Err(e),
        Ok(out) => match spec_build(out.0) {
            Err(e) => Err(e),
            Ok(c) => Ok((c, out.1)),
        },
    }
}

/// Reading an integer specification.
pub open spec fn spec_new_integer(tokens: Seq<Seq<char>>, i: int) -> Result<
    (ArgumentModel, int),
    DefErrModel,
> {
    match spec_new_simple(tokens, i) {
        Err(e) => Err(e),
        Ok(out) => Ok((ArgumentModel::Integer { common: out.0 }, out.1)),
    }
}

/// Reading a float specification.
pub open spec fn spec_new_float(tokens: Seq<Seq<char>>, i: int) -> Result<
    (ArgumentModel, int),
    DefErrModel,
> {
    match spec_new_simple(tokens, i) {
        Err(e) => Err(e),
        Ok(out) => Ok((ArgumentModel::Float { common: out.0 }, out.1)),
    }
}

/// Reading a string specification.
pub open spec fn spec_new_string(tokens: Seq<Seq<char>>, i: int) -> Result<
    (ArgumentModel, int),
    DefErrModel,
> {
    match spec_new_simple(tokens, i) {
        Err(e) => Err(e),
        Ok(out) => Ok((ArgumentModel::Str { common: out.0 }, out.1)),
    }
}

/// The attribute loop of a boolean specification: shared attributes
/// alternating with `--negative-flag`/`--negative`/`--neg` entries, each of
/// which registers a flag that resolves to `false`.
pub open spec fn spec_new_boolean_loop(
    tokens: Seq<Seq<char>>,
    i: int,
    m: BuilderModel,
    negs: Seq<Seq<char>>,
) -> Result<((BuilderModel, Seq<Seq<char>>), int), DefErrModel>
    decreases tokens.len() - i,
    via spec_new_boolean_loop_dec
{
    match spec_parse_common(m, tokens, i) {
        Err(e) => Err(e),
        Ok(out) => if out.1 >= tokens.len() {
            Ok(((out.0, negs), out.1))
        } else {
            let t = tokens[out.1];
            if t == "--negative-flag"@ || t == "--negative"@ || t == "--neg"@ {
                if out.1 + 1 >= tokens.len() {
                    Err(DefErrModel::MissingAttributeValue { attribute: t })
                } else {
                    spec_new_boolean_loop(tokens, out.1 + 2, out.0, negs.push(tokens[out.1 + 1]))
                }
            } else {
                Ok(((out.0, negs), out.1))
            }
        },
    }
}

#[via_fn]
proof fn spec_new_boolean_loop_dec(
    tokens: Seq<Seq<char>>,
    i: int,
    m: BuilderModel,
    negs: Seq<Seq<char>>,
) {
    if 0 <= i <= tokens.len() {
        lemma_parse_common_bounds(m, tokens, i);
    }
}

/// Reading a boolean specification: the attribute loop, finalization, and
/// the boolean-only restrictions (no repetition, no catch-all, no ordinals).
pub open spec fn spec_new_boolean(tokens: Seq<Seq<char>>, i: int) -> Result<
    (ArgumentModel, int),
    DefErrModel,
> {
    match spec_new_boolean_loop(tokens, i, spec_empty_builder(), Seq::empty()) {
        Err(e) => Err(e),
        Ok(out) => match spec_build(out.0.0) {
            Err(e) => Err(e),
            Ok(c) => if c.repeated {
                Err(DefErrModel::BooleanRepeated { name: c.name })
            } else if c.catch_all {
                Err(DefErrModel::BooleanCatchAll { name: c.name })
            } else if c.ordinals.len() > 0 {
                Err(DefErrModel::BooleanOrdinal { name: c.name })
            } else {
                Ok((ArgumentModel::Boolean { common: c, negative_flags: out.0.1 }, out.1))
            },
        },
    }
}

/// The attribute loop of a choice specification: shared attributes
/// alternating with `--map from to` (an alias entry) and `--option literal
/// [description]` entries; a `-`-token in the description position is not
/// consumed.
pub open spec fn spec_new_choice_loop(
    tokens: Seq<Seq<char>>,
    i: int,
    m: BuilderModel,
    opts: Seq<(Seq<char>, OptionModel)>,
) -> Result<((BuilderModel, Seq<(Seq<char>, OptionModel)>), int), DefErrModel>
    decreases tokens.len() - i,
    via spec_new_choice_loop_dec
{
    match spec_parse_common(m, tokens, i) {
        Err(e) => Err(e),
        Ok(out) => if out.1 >= tokens.len() {
            Ok(((out.0, opts), out.1))
        } else {
            let t = tokens[out.1];
            let j = out.1;
            if t == "--map"@ {
                if j + 1 >= tokens.len() || j + 2 >= tokens.len() {
                    Err(DefErrModel::MissingAttributeValue { attribute: t })
                } else {
                    spec_new_choice_loop(
                        tokens,
                        j + 3,
                        out.0,
                        opts.push((tokens[j + 1], OptionModel::Mapping(tokens[j + 2]))),
                    )
                }
            } else if t == "--option"@ {
                if j + 1 >= tokens.len() {
                    Err(DefErrModel::MissingAttributeValue { attribute: t })
                } else if j + 2 >= tokens.len() || spec_starts_dash(tokens[j + 2]) {
                    spec_new_choice_loop(
                        tokens,
                        j + 2,
                        out.0,
                        opts.push((tokens[j + 1], OptionModel::Actual(None))),
                    )
                } else {
                    spec_new_choice_loop(
                        tokens,
                        j + 3,
                        out.0,
                        opts.push((tokens[j + 1], OptionModel::Actual(Some(tokens[j + 2])))),
                    )
                }
            } else {
                Ok(((out.0, opts), j))
            }
        },
    }
}

#[via_fn]
proof fn spec_new_choice_loop_dec(
    tokens: Seq<Seq<char>>,
    i: int,
    m: BuilderModel,
    opts: Seq<(Seq<char>, OptionModel)>,
) {
    if 0 <= i <= tokens.len() {
        lemma_parse_common_bounds(m, tokens, i);
    }
}

/// Reading a choice specification: the attribute loop, then finalization.
pub open spec fn spec_new_choice(tokens: Seq<Seq<char>>, i: int) -> Result<
    (ArgumentModel, int),
    DefErrModel,
> {
    match spec_new_choice_loop(tokens, i, spec_empty_builder(), Seq::empty()) {
        Err(e) => Err(e),
        Ok(out) => match spec_build(out.0.0) {
            Err(e) => Err(e),
            Ok(c) => Ok((ArgumentModel::Choice { common: c, options: out.0.1 }, out.1)),
        },
    }
}

impl BooleanArgument {
    /// Reads a boolean specification from the definition stream, starting at
    /// `start`, and returns it with the position of the first token it did
    /// not consume.
    pub fn new(tokens: &Vec<String>, start: usize) -> (r: Result<
        (Self, usize),
        DefinitionError,
    >)
        requires
            start <= tokens@.len(),
        ensures
            match r {
                Ok(out) => spec_new_boolean(tokens.deep_view(), start as int) == Ok::<
                    (ArgumentModel, int),
                    DefErrModel,
                >((out.0@, out.1 as int)) && start <= out.1 <= tokens@.len(),
                Err(e) => spec_new_boolean(tokens.deep_view(), start as int) == Err::<
                    (ArgumentModel, int),
                    DefErrModel,
                >(e@),
            },
    {
        let ghost toks = tokens.deep_view();
        let mut builder = ArgumentCommon::new_builder();
        let mut negs: Vec<String> = Vec::new();
        let mut i: usize = start;
        let mut end: usize = 0;
        proof {
            assert(negs.deep_view() =~= Seq::<Seq<char>>::empty());
        }
        loop
            invariant_except_break
                toks == tokens.deep_view(),
                toks.len() == tokens@.len(),
                start <= i <= tokens@.len(),
                spec_new_boolean_loop(toks, start as int, spec_empty_builder(), Seq::empty())
                    == spec_new_boolean_loop(toks, i as int, builder@, negs.deep_view()),
            ensures
                start <= end <= tokens@.len(),
                spec_new_boolean_loop(toks, start as int, spec_empty_builder(), Seq::empty())
                    == Ok::<((BuilderModel, Seq<Seq<char>>), int), DefErrModel>(
                    ((builder@, negs.deep_view()), end as int),
                ),
            decreases tokens@.len() - i,
        {
            let ghost mpre = builder@;
            let ghost ipre = i as int;
            let j = match builder.parse_arguments(tokens, i) {
                Ok(j) => j,
                Err(e) => {
                    assert(spec_new_boolean_loop(toks, ipre, mpre, negs.deep_view()) == Err::<
                        ((BuilderModel, Seq<Seq<char>>), int),
                        DefErrModel,
                    >(e@));
                    return Err(e);
                },
            };
            if j >= tokens.len() {
                end = j;
                assert(spec_new_boolean_loop(toks, ipre, mpre, negs.deep_view()) == Ok::<
                    ((BuilderModel, Seq<Seq<char>>), int),
                    DefErrModel,
                >(((builder@, negs.deep_view()), j as int)));
                break;
            }
            let t = &tokens[j];
            assert(toks[j as int] == t@);
            if is_tok(t, "--negative-flag") || is_tok(t, "--negative") || is_tok(t, "--neg") {
                if j + 1 >= tokens.len() {
                    let e = DefinitionError::MissingAttributeValue { attribute: t.clone() };
                    assert(spec_new_boolean_loop(toks, ipre, mpre, negs.deep_view()) == Err::<
                        ((BuilderModel, Seq<Seq<char>>), int),
                        DefErrModel,
                    >(e@));
                    return Err(e);
                }
                let ghost negspre = negs.deep_view();
                negs.push(tokens[j + 1].clone());
                proof {
                    assert(negs.deep_view() =~= negspre.push(toks[j + 1]));
                    assert(spec_new_boolean_loop(toks, ipre, mpre, negspre)
                        == spec_new_boolean_loop(toks, j + 2, builder@, negs.deep_view()));
                }
                i = j + 2;
            } else {
                end = j;
                assert(spec_new_boolean_loop(toks, ipre, mpre, negs.deep_view()) == Ok::<
                    ((BuilderModel, Seq<Seq<char>>), int),
                    DefErrModel,
                >(((builder@, negs.deep_view()), j as int)));
                break;
            }
        }
        let common = match builder.build() {
            Ok(c) => c,
            Err(e) => {
                return Err(e);
            },
        };
        if common.get_repeated() {
            return Err(DefinitionError::BooleanRepeated { name: common.get_name().clone() });
        }
        if common.get_catch_all() {
            return Err(DefinitionError::BooleanCatchAll { name: common.get_name().clone() });
        }
        if common.get_ordinals().len() > 0 {
            return Err(DefinitionError::BooleanOrdinal { name: common.get_name().clone() });
        }
        Ok((BooleanArgument { common, negative_flags: negs }, end))
    }
}

impl IntegerArgument {
    /// Reads an integer specification from the definition stream, starting
    /// at `start`, and returns it with the position of the first token it
    /// did not consume.
    pub fn new(tokens: &Vec<String>, start: usize) -> (r: Result<
        (Self, usize),
        DefinitionError,
    >)
        requires
            start <= tokens@.len(),
        ensures
            match r {
                Ok(out) => spec_new_integer(tokens.deep_view(), start as int) == Ok::<
                    (ArgumentModel, int),
                    DefErrModel,
                >((out.0@, out.1 as int)) && start <= out.1 <= tokens@.len(),
                Err(e) => spec_new_integer(tokens.deep_view(), start as int) == Err::<
                    (ArgumentModel, int),
                    DefErrModel,
                >(e@),
            },
    {
        let mut builder = ArgumentCommon::new_builder();
        let j = match builder.parse_arguments(tokens, start) {
            Ok(j) => j,
            Err(e) => {
                return Err(e);
            },
        };
        let common = match builder.build() {
            Ok(c) => c,
            Err(e) => {
                return Err(e);
            },
        };
        Ok((IntegerArgument { common }, j))
    }
}

impl FloatArgument {
    /// Reads a float specification from the definition stream, starting at
    /// `start`, and returns it with the position of the first token it did
    /// not consume.
    pub fn new(tokens: &Vec<String>, start: usize) -> (r: Result<
        (Self, usize),
        DefinitionError,
    >)
        requires
            start <= tokens@.len(),
        ensures
            match r {
                Ok(out) => spec_new_float(tokens.deep_view(), start as int) == Ok::<
                    (ArgumentModel, int),
                    DefErrModel,
                >((out.0@, out.1 as int)) && start <= out.1 <= tokens@.len(),
                Err(e) => spec_new_float(tokens.deep_view(), start as int) == Err::<
                    (ArgumentModel, int),
                    DefErrModel,
                >(e@),
            },
    {
        let mut builder = ArgumentCommon::new_builder();
        let j = match builder.parse_arguments(tokens, start) {
            Ok(j) => j,
            Err(e) => {
                return Err(e);
            },
        };
        let common = match builder.build() {
            Ok(c) => c,
            Err(e) => {
                return Err(e);
            },
        };
        Ok((FloatArgument { common }, j))
    }
}

impl StringArgument {
    /// Reads a string specification from the definition stream, starting at
    /// `start`, and returns it with the position of the first token it did
    /// not consume.
    pub fn new(tokens: &Vec<String>, start: usize) -> (r: Result<
        (Self, usize),
        DefinitionError,
    >)
        requires
            start <= tokens@.len(),
        ensures
            match r {
                Ok(out) => spec_new_string(tokens.deep_view(), start as int) == Ok::<
                    (ArgumentModel, int),
                    DefErrModel,
                >((out.0@, out.1 as int)) && start <= out.1 <= tokens@.len(),
                Err(e) => spec_new_string(tokens.deep_view(), start as int) == Err::<
                    (ArgumentModel, int),
                    DefErrModel,
                >(e@),
            },
    {
        let mut builder = ArgumentCommon::new_builder();
        let j = match builder.parse_arguments(tokens, start) {
            Ok(j) => j,
            Err(e) => {
                return Err(e);
            },
        };
        let common = match builder.build() {
            Ok(c) => c,
            Err(e) => {
                return Err(e);
            },
        };
        Ok((StringArgument { common }, j))
    }
}

impl ChoiceArgument {
    /// Reads a choice specification from the definition stream, starting at
    /// `start`, and returns it with the position of the first token it did
    /// not consume.
    pub fn new(tokens: &Vec<String>, start: usize) -> (r: Result<
        (Self, usize),
        DefinitionError,
    >)
        requires
            start <= tokens@.len(),
        ensures
            match r {
                Ok(out) => spec_new_choice(tokens.deep_view(), start as int) == Ok::<
                    (ArgumentModel, int),
                    DefErrModel,
                >((out.0@, out.1 as int)) && start <= out.1 <= tokens@.len(),
                Err(e) => spec_new_choice(tokens.deep_view(), start as int) == Err::<
                    (ArgumentModel, int),
                    DefErrModel,
                >(e@),
            },
    {
        let ghost toks = tokens.deep_view();
        let mut builder = ArgumentCommon::new_builder();
        let mut opts: Vec<(String, OptionType)> = Vec::new();
        let mut i: usize = start;
        let mut end: usize = 0;
        proof {
            assert(options_view(opts@) =~= Seq::<(Seq<char>, OptionModel)>::empty());
        }
        loop
            invariant_except_break
                toks == tokens.deep_view(),
                toks.len() == tokens@.len(),
                start <= i <= tokens@.len(),
                spec_new_choice_loop(toks, start as int, spec_empty_builder(), Seq::empty())
                    == spec_new_choice_loop(toks, i as int, builder@, options_view(opts@)),
            ensures
                start <= end <= tokens@.len(),
                spec_new_choice_loop(toks, start as int, spec_empty_builder(), Seq::empty())
                    == Ok::<((BuilderModel, Seq<(Seq<char>, OptionModel)>), int), DefErrModel>(
                    ((builder@, options_view(opts@)), end as int),
                ),
            decreases tokens@.len() - i,
        {
            let ghost mpre = builder@;
            let ghost ipre = i as int;
            let j = match builder.parse_arguments(tokens, i) {
                Ok(j) => j,
                Err(e) => {
                    assert(spec_new_choice_loop(toks, ipre, mpre, options_view(opts@)) == Err::<
                        ((BuilderModel, Seq<(Seq<char>, OptionModel)>), int),
                        DefErrModel,
                    >(e@));
                    return Err(e);
                },
            };
            if j >= tokens.len() {
                end = j;
                assert(spec_new_choice_loop(toks, ipre, mpre, options_view(opts@)) == Ok::<
                    ((BuilderModel, Seq<(Seq<char>, OptionModel)>), int),
                    DefErrModel,
                >(((builder@, options_view(opts@)), j as int)));
                break;
            }
            let t = &tokens[j];
            assert(toks[j as int] == t@);
            if is_tok(t, "--map") {
                if j + 1 >= tokens.len() || j + 2 >= tokens.len() {
                    let e = DefinitionError::MissingAttributeValue { attribute: t.clone() };
                    assert(spec_new_choice_loop(toks, ipre, mpre, options_view(opts@)) == Err::<
                        ((BuilderModel, Seq<(Seq<char>, OptionModel)>), int),
                        DefErrModel,
                    >(e@));
                    return Err(e);
                }
                let ghost optspre = options_view(opts@);
                let from = tokens[j + 1].clone();
                let to = tokens[j + 2].clone();
                opts.push((from, OptionType::Mapping(to)));
                proof {
                    assert(options_view(opts@) =~= optspre.push(
                        (toks[j + 1], OptionModel::Mapping(toks[j + 2])),
                    ));
                    assert(spec_new_choice_loop(toks, ipre, mpre, optspre)
                        == spec_new_choice_loop(toks, j + 3, builder@, options_view(opts@)));
                }
                i = j + 3;
            } else if is_tok(t, "--option") {
                if j + 1 >= tokens.len() {
                    let e = DefinitionError::MissingAttributeValue { attribute: t.clone() };
                    assert(spec_new_choice_loop(toks, ipre, mpre, options_view(opts@)) == Err::<
                        ((BuilderModel, Seq<(Seq<char>, OptionModel)>), int),
                        DefErrModel,
                    >(e@));
                    return Err(e);
                }
                let ghost optspre = options_view(opts@);
                let from = tokens[j + 1].clone();
                if j + 2 >= tokens.len() || starts_with_dash(&tokens[j + 2]) {
                    opts.push((from, OptionType::Actual(None)));
                    proof {
                        assert(options_view(opts@) =~= optspre.push(
                            (toks[j + 1], OptionModel::Actual(None)),
                        ));
                        assert(spec_new_choice_loop(toks, ipre, mpre, optspre)
                            == spec_new_choice_loop(toks, j + 2, builder@, options_view(opts@)));
                    }
                    i = j + 2;
                } else {
                    let d = tokens[j + 2].clone();
                    opts.push((from, OptionType::Actual(Some(d))));
                    proof {
                        assert(options_view(opts@) =~= optspre.push(
                            (toks[j + 1], OptionModel::Actual(Some(toks[j + 2]))),
                        ));
                        assert(spec_new_choice_loop(toks, ipre, mpre, optspre)
                            == spec_new_choice_loop(toks, j + 3, builder@, options_view(opts@)));
                    }
                    i = j + 3;
                }
            } else {
                end = j;
                assert(spec_new_choice_loop(toks, ipre, mpre, options_view(opts@)) == Ok::<
                    ((BuilderModel, Seq<(Seq<char>, OptionModel)>), int),
                    DefErrModel,
                >(((builder@, options_view(opts@)), j as int)));
                break;
            }
        }
        let common = match builder.build() {
            Ok(c) => c,
            Err(e) => {
                return Err(e);
            },
        };
        Ok((ChoiceArgument { common, all_options: opts }, end))
    }
}



// --- the debug rendering, by kind ---

/// One option table entry rendered for debugging: the literal, with its
/// canonical target after an arrow for an alias entry.
pub open spec fn spec_option_entry(p: (Seq<char>, OptionModel)) -> Seq<char> {
    match p.1 {
        OptionModel::Mapping(to) => p.0 + " -> "@ + to,
        OptionModel::Actual(_) => p.0,
    }
}

/// The terse one-line rendering of a specification: its kind, the shared
/// attributes, and — for a choice — the option table.
pub open spec fn spec_arg_debug_info(a: ArgumentModel) -> Seq<char> {
    match a {
        ArgumentModel::Boolean { common, .. } => "type: Boolean; "@ + spec_debug_info(common),
        ArgumentModel::Integer { common } => "type: Integer; "@ + spec_debug_info(common),
        ArgumentModel::Float { common } => "type: Float; "@ + spec_debug_info(common),
        ArgumentModel::Str { common } => "type: String; "@ + spec_debug_info(common),
        ArgumentModel::Choice { common, options } => "type: Choice; "@ + spec_debug_info(common)
            + "; options: "@ + spec_join(
            options.map_values(|p: (Seq<char>, OptionModel)| spec_option_entry(p)),
            seq![',', ' '],
        ),
    }
}

impl BooleanArgument {
    /// A terse representation of the specification, suitable for debugging.
    pub fn get_debug_info(&self) -> (r: String)
        ensures
            r@ == spec_arg_debug_info(self@),
    {
        let mut out: String = "type: Boolean; ".to_owned();
        out.append(self.common.get_debug_info().as_str());
        out
    }
}

impl IntegerArgument {
    /// A terse representation of the specification, suitable for debugging.
    pub fn get_debug_info(&self) -> (r: String)
        ensures
            r@ == spec_arg_debug_info(self@),
    {
        let mut out: String = "type: Integer; ".to_owned();
        out.append(self.common.get_debug_info().as_str());
        out
    }
}

impl FloatArgument {
    /// A terse representation of the specification, suitable for debugging.
    pub fn get_debug_info(&self) -> (r: String)
        ensures
            r@ == spec_arg_debug_info(self@),
    {
        let mut out: String = "type: Float; ".to_owned();
        out.append(self.common.get_debug_info().as_str());
        out
    }
}

impl StringArgument {
    /// A terse representation of the specification, suitable for debugging.
    pub fn get_debug_info(&self) -> (r: String)
        ensures
            r@ == spec_arg_debug_info(self@),
    {
        let mut out: String = "type: String; ".to_owned();
        out.append(self.common.get_debug_info().as_str());
        out
    }
}

impl ChoiceArgument {
    /// A terse representation of the specification, suitable for debugging.
    pub fn get_debug_info(&self) -> (r: String)
        ensures
            r@ == spec_arg_debug_info(self@),
    {
        let ghost sep = seq![',', ' '];
        let ghost entries = options_view(self.all_options@).map_values(
            |p: (Seq<char>, OptionModel)| spec_option_entry(p),
        );
        let mut out: String = "type: Choice; ".to_owned();
        out.append(self.common.get_debug_info().as_str());
        out.append("; options: ");
        let ghost head = "type: Choice; "@ + spec_debug_info(self.common@) + "; options: "@;
        proof {
            assert(out@ =~= head + spec_join(entries.take(0), sep));
        }
        let mut i: usize = 0;
        while i < self.all_options.len()
            invariant
                sep == seq![',', ' '],
                entries == options_view(self.all_options@).map_values(
                    |p: (Seq<char>, OptionModel)| spec_option_entry(p),
                ),
                head == "type: Choice; "@ + spec_debug_info(self.common@) + "; options: "@,
                i <= entries.len(),
                entries.len() == self.all_options@.len(),
                out@ == head + spec_join(entries.take(i as int), sep),
            decreases entries.len() - i,
        {
            let ghost mid = out@;
            if i > 0 {
                out.append(", ");
            }
            let entry = &self.all_options[i];
            out.append(entry.0.as_str());
            match &entry.1 {
                OptionType::Mapping(to) => {
                    out.append(" -> ");
                    out.append(to.as_str());
                },
                OptionType::Actual(_) => {},
            }
            proof {
                reveal_strlit(", ");
                assert(entries[i as int] == spec_option_entry(
                    (entry.0@, entry.1@),
                ));
                lemma_join_take_step(entries, sep, i as int);
                if i > 0 {
                    assert(out@ =~= mid + sep + entries[i as int]);
                    assert(out@ =~= head + spec_join(entries.take(i + 1), sep));
                } else {
                    assert(spec_join(entries.take(0), sep) =~= Seq::<char>::empty());
                    assert(out@ =~= head + entries[i as int]);
                    assert(out@ =~= head + spec_join(entries.take(i + 1), sep));
                }
            }
            i = i + 1;
        }
        proof {
            assert(entries.take(i as int) =~= entries);
        }
        out
    }
}

// --- one specification, of any kind ---

/// One argument specification: the kind and its data.  The five kinds are
/// fixed and closed, so a sum type with static dispatch stands in place of
/// an open hierarchy.
#[derive(Debug)]
pub enum Argument {
    Boolean(BooleanArgument),
    Integer(IntegerArgument),
    Float(FloatArgument),
    Str(StringArgument),
    Choice(ChoiceArgument),
}

impl View for Argument {
    type V = ArgumentModel;

    open spec fn view(&self) -> ArgumentModel {
        match self {
            Argument::Boolean(a) => a@,
            Argument::Integer(a) => a@,
            Argument::Float(a) => a@,
            Argument::Str(a) => a@,
            Argument::Choice(a) => a@,
        }
    }
}

impl DeepView for Argument {
    type V = ArgumentModel;

    open spec fn deep_view(&self) -> ArgumentModel {
        self.view()
    }
}

impl Argument {
    /// The shared attributes of the specification.
    pub fn get_common(&self) -> (r: &ArgumentCommon)
        ensures
            r@ == common_of(self@),
    {
        match self {
            Argument::Boolean(a) => a.get_common(),
            Argument::Integer(a) => a.get_common(),
            Argument::Float(a) => a.get_common(),
            Argument::Str(a) => a.get_common(),
            Argument::Choice(a) => a.get_common(),
        }
    }

    /// The unique key of the specification.
    pub fn get_name(&self) -> (r: &String)
        ensures
            r@ == common_of(self@).name,
    {
        self.get_common().get_name()
    }

    /// The textual default, applied only when no value was resolved at all.
    pub fn get_default(&self) -> (r: &Option<String>)
        ensures
            match r {
                Some(d) => common_of(self@).default == Some(d@),
                None => common_of(self@).default is None,
            },
    {
        self.get_common().get_default()
    }

    /// The help description.
    pub fn get_description(&self) -> (r: &Option<String>)
        ensures
            match r {
                Some(d) => common_of(self@).description == Some(d@),
                None => common_of(self@).description is None,
            },
    {
        self.get_common().get_description()
    }

    /// Whether the specification is hidden from help output.
    pub fn is_secret(&self) -> (r: bool)
        ensures
            r == common_of(self@).secret,
    {
        self.get_common().get_secret()
    }

    /// Whether the specification may accumulate several values.
    pub fn is_repeated(&self) -> (r: bool)
        ensures
            r == common_of(self@).repeated,
    {
        self.get_common().get_repeated()
    }

    /// Whether a resolved value is mandatory.
    pub fn is_required(&self) -> (r: bool)
        ensures
            r == common_of(self@).required,
    {
        self.get_common().get_required()
    }

    /// Whether the specification accepts a value at this ordinal position.
    pub fn is_ordinal(&self, ordinal: u16) -> (r: bool)
        ensures
            r == common_of(self@).ordinals.contains(ordinal),
    {
        crate::text::u16_list_contains(self.get_common().get_ordinals(), ordinal)
    }

    /// Whether the specification absorbs otherwise-unmatched tokens.
    pub fn is_catch_all(&self) -> (r: bool)
        ensures
            r == common_of(self@).catch_all,
    {
        self.get_common().get_catch_all()
    }


    /// A terse representation of the specification, suitable for debugging.
    pub fn get_debug_info(&self) -> (r: String)
        ensures
            r@ == spec_arg_debug_info(self@),
    {
        match self {
            Argument::Boolean(a) => a.get_debug_info(),
            Argument::Integer(a) => a.get_debug_info(),
            Argument::Float(a) => a.get_debug_info(),
            Argument::Str(a) => a.get_debug_info(),
            Argument::Choice(a) => a.get_debug_info(),
        }
    }

    /// Offers one runtime token to the specification: `Ok(None)` when the
    /// token selects it in no way; the coerced value and the new queue
    /// position on a match; the coercion failure otherwise.
    pub fn consume(&self, arg: Option<String>, tokens: &Vec<String>, pos: usize) -> (r: Result<
        Option<(String, usize)>,
        UserError,
    >)
        requires
            pos <= tokens@.len(),
        ensures
            consume_matches(self@, opt_token_view(arg), tokens.deep_view().skip(pos as int), pos as int, r),
            (match r {
                Ok(Some(out)) => pos <= out.1 <= tokens@.len(),
                _ => true,
            }),
    {
        match self {
            Argument::Boolean(a) => a.consume(arg, tokens, pos),
            Argument::Integer(a) => a.consume(arg, tokens, pos),
            Argument::Float(a) => a.consume(arg, tokens, pos),
            Argument::Str(a) => a.consume(arg, tokens, pos),
            Argument::Choice(a) => a.consume(arg, tokens, pos),
        }
    }
}

} // verus!
