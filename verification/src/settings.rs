//! The top-level definition parser: reads the definition token stream once,
//! dispatching to the five kind constructors at their markers and recording
//! global settings, until the `--` terminator or the end of the stream; what
//! follows the terminator is kept as the runtime token sequence.

use vstd::prelude::*;

use crate::common::BuilderModel;
use crate::common::lemma_parse_common_bounds;
use crate::common::spec_empty_builder;
use crate::common::spec_parse_common;
use crate::errors::DefErrModel;
use crate::errors::DefinitionError;
use crate::kinds::Argument;
use crate::kinds::ArgumentModel;
use crate::kinds::BooleanArgument;
use crate::kinds::ChoiceArgument;
use crate::kinds::FloatArgument;
use crate::kinds::IntegerArgument;
use crate::kinds::OptionModel;
use crate::kinds::StringArgument;
use crate::kinds::common_of;
use crate::kinds::spec_new_boolean;
use crate::kinds::spec_new_boolean_loop;
use crate::kinds::spec_new_choice;
use crate::kinds::spec_new_choice_loop;
use crate::kinds::spec_new_float;
use crate::kinds::spec_new_integer;
use crate::kinds::spec_new_simple;
use crate::kinds::spec_new_string;
use crate::numbers::parse_usize;
use crate::numbers::spec_parse_usize;
use crate::text::is_tok;

verus! {

// --- the settings ---

/// The mathematical shape of a full definition: the ordered specifications,
/// the global settings, and the runtime tokens after the `--` terminator.
#[verifier::ext_equal]
pub struct SettingsModel {
    pub arguments: Seq<ArgumentModel>,
    pub prefix: Option<Seq<char>>,
    pub auto_help: bool,
    pub export: bool,
    pub debug: bool,
    pub program_name: Option<Seq<char>>,
    pub program_summary: Option<Seq<char>>,
    pub program_description: Option<Seq<char>>,
    pub remaining_args: Seq<Seq<char>>,
    pub columns: usize,
    pub help_function: Option<Seq<char>>,
}

/// A parsed definition: the ordered argument specifications, the global
/// settings, and the runtime tokens left after the `--` terminator.
#[derive(Debug)]
pub struct Settings {
    pub arguments: Vec<Argument>,
    pub prefix: Option<String>,
    pub auto_help: bool,
    pub export: bool,
    pub debug: bool,
    pub program_name: Option<String>,
    pub program_summary: Option<String>,
    pub program_description: Option<String>,
    pub remaining_args: Vec<String>,
    pub columns: usize,
    pub help_function: Option<String>,
}

impl View for Settings {
    type V = SettingsModel;

    open spec fn view(&self) -> SettingsModel {
        SettingsModel {
            arguments: self.arguments.deep_view(),
            prefix: match self.prefix {
                Some(ref p) => Some(p@),
                None => None,
            },
            auto_help: self.auto_help,
            export: self.export,
            debug: self.debug,
            program_name: match self.program_name {
                Some(ref p) => Some(p@),
                None => None,
            },
            program_summary: match self.program_summary {
                Some(ref p) => Some(p@),
                None => None,
            },
            program_description: match self.program_description {
                Some(ref p) => Some(p@),
                None => None,
            },
            remaining_args: self.remaining_args.deep_view(),
            columns: self.columns,
            help_function: match self.help_function {
                Some(ref p) => Some(p@),
                None => None,
            },
        }
    }
}

/// A definition with no specifications, nothing set, and the given help
/// column width.
pub open spec fn spec_initial_settings(columns: usize) -> SettingsModel {
    SettingsModel {
        arguments: Seq::empty(),
        prefix: None,
        auto_help: false,
        export: false,
        debug: false,
        program_name: None,
        program_summary: None,
        program_description: None,
        remaining_args: Seq::empty(),
        columns,
        help_function: None,
    }
}

// --- bounds of the kind constructors ---

/// Where reading a kindless specification succeeds it stops inside the
/// stream, at or after where it started.
pub proof fn lemma_new_simple_bounds(tokens: Seq<Seq<char>>, i: int)
    requires
        0 <= i <= tokens.len(),
    ensures
        match spec_new_simple(tokens, i) {
            Ok(out) => i <= out.1 <= tokens.len(),
            Err(_) => true,
        },
{
    lemma_parse_common_bounds(spec_empty_builder(), tokens, i);
}

proof fn lemma_new_boolean_loop_bounds(
    tokens: Seq<Seq<char>>,
    i: int,
    m: BuilderModel,
    negs: Seq<Seq<char>>,
)
    requires
        0 <= i <= tokens.len(),
    ensures
        match spec_new_boolean_loop(tokens, i, m, negs) {
            Ok(out) => i <= out.1 <= tokens.len(),
            Err(_) => true,
        },
    decreases tokens.len() - i,
{
    lemma_parse_common_bounds(m, tokens, i);
    match spec_parse_common(m, tokens, i) {
        Err(_) => {},
        Ok(out) => {
            if out.1 < tokens.len() {
                let t = tokens[out.1];
                if t == "--negative-flag"@ || t == "--negative"@ || t == "--neg"@ {
                    if out.1 + 1 < tokens.len() {
                        lemma_new_boolean_loop_bounds(
                            tokens,
                            out.1 + 2,
                            out.0,
                            negs.push(tokens[out.1 + 1]),
                        );
                    }
                }
            }
        },
    }
}

/// Where reading a boolean specification succeeds it stops inside the
/// stream, at or after where it started.
pub proof fn lemma_new_boolean_bounds(tokens: Seq<Seq<char>>, i: int)
    requires
        0 <= i <= tokens.len(),
    ensures
        match spec_new_boolean(tokens, i) {
            Ok(out) => i <= out.1 <= tokens.len(),
            Err(_) => true,
        },
{
    lemma_new_boolean_loop_bounds(tokens, i, spec_empty_builder(), Seq::empty());
}

proof fn lemma_new_choice_loop_bounds(
    tokens: Seq<Seq<char>>,
    i: int,
    m: BuilderModel,
    opts: Seq<(Seq<char>, OptionModel)>,
)
    requires
        0 <= i <= tokens.len(),
    ensures
        match spec_new_choice_loop(tokens, i, m, opts) {
            Ok(out) => i <= out.1 <= tokens.len(),
            Err(_) => true,
        },
    decreases tokens.len() - i,
{
    lemma_parse_common_bounds(m, tokens, i);
    match spec_parse_common(m, tokens, i) {
        Err(_) => {},
        Ok(out) => {
            if out.1 < tokens.len() {
                let t = tokens[out.1];
                let j = out.1;
                if t == "--map"@ {
                    if j + 1 < tokens.len() && j + 2 < tokens.len() {
                        lemma_new_choice_loop_bounds(
                            tokens,
                            j + 3,
                            out.0,
                            opts.push((tokens[j + 1], OptionModel::Mapping(tokens[j + 2]))),
                        );
                    }
                } else if t == "--option"@ {
                    if j + 1 < tokens.len() {
                        if j + 2 >= tokens.len() || crate::text::spec_starts_dash(tokens[j + 2]) {
                            lemma_new_choice_loop_bounds(
                                tokens,
                                j + 2,
                                out.0,
                                opts.push((tokens[j + 1], OptionModel::Actual(None))),
                            );
                        } else {
                            lemma_new_choice_loop_bounds(
                                tokens,
                                j + 3,
                                out.0,
                                opts.push((tokens[j + 1], OptionModel::Actual(Some(tokens[j + 2])))),
                            );
                        }
                    }
                }
            }
        },
    }
}

/// Where reading a choice specification succeeds it stops inside the stream,
/// at or after where it started.
pub proof fn lemma_new_choice_bounds(tokens: Seq<Seq<char>>, i: int)
    requires
        0 <= i <= tokens.len(),
    ensures
        match spec_new_choice(tokens, i) {
            Ok(out) => i <= out.1 <= tokens.len(),
            Err(_) => true,
        },
{
    lemma_new_choice_loop_bounds(tokens, i, spec_empty_builder(), Seq::empty());
}

// --- the definition grammar ---

/// Reading the definition stream from position `i` on, with `acc` holding
/// what was read so far: kind markers start one specification each; global
/// settings mutate `acc`; `--` ends the definitions and keeps the rest as
/// the runtime tokens; an unrecognized token is a definition error.
pub open spec fn spec_parse_settings(
    tokens: Seq<Seq<char>>,
    i: int,
    acc: SettingsModel,
) -> Result<SettingsModel, DefErrModel>
    decreases tokens.len() - i,
    via spec_parse_settings_dec
{
    if i < 0 || i >= tokens.len() {
        Ok(SettingsModel { remaining_args: Seq::empty(), ..acc })
    } else {
        let t = tokens[i];
        if t == "--"@ {
            Ok(SettingsModel { remaining_args: tokens.skip(i + 1), ..acc })
        } else if t == "--boolean"@ || t == "--bool"@ {
            match spec_new_boolean(tokens, i + 1) {
                Err(e) => Err(e),
                Ok(out) => spec_parse_settings(
                    tokens,
                    out.1,
                    SettingsModel { arguments: acc.arguments.push(out.0), ..acc },
                ),
            }
        } else if t == "--integer"@ || t == "--int"@ {
            match spec_new_integer(tokens, i + 1) {
                Err(e) => Err(e),
                Ok(out) => spec_parse_settings(
                    tokens,
                    out.1,
                    SettingsModel { arguments: acc.arguments.push(out.0), ..acc },
                ),
            }
        } else if t == "--float"@ || t == "--number"@ {
            match spec_new_float(tokens, i + 1) {
                Err(e) => Err(e),
                Ok(out) => spec_parse_settings(
                    tokens,
                    out.1,
                    SettingsModel { arguments: acc.arguments.push(out.0), ..acc },
                ),
            }
        } else if t == "--string"@ || t == "--str"@ {
            match spec_new_string(tokens, i + 1) {
                Err(e) => Err(e),
                Ok(out) => spec_parse_settings(
                    tokens,
                    out.1,
                    SettingsModel { arguments: acc.arguments.push(out.0), ..acc },
                ),
            }
        } else if t == "--choice"@ || t == "--pick"@ {
            match spec_new_choice(tokens, i + 1) {
                Err(e) => Err(e),
                Ok(out) => spec_parse_settings(
                    tokens,
                    out.1,
                    SettingsModel { arguments: acc.arguments.push(out.0), ..acc },
                ),
            }
        } else if t == "--autohelp"@ || t == "--auto-help"@ {
            spec_parse_settings(tokens, i + 1, SettingsModel { auto_help: true, ..acc })
        } else if t == "--help-function"@ {
            if i + 1 >= tokens.len() {
                Err(DefErrModel::MissingAttributeValue { attribute: t })
            } else {
                spec_parse_settings(
                    tokens,
                    i + 2,
                    SettingsModel { help_function: Some(tokens[i + 1]), ..acc },
                )
            }
        } else if t == "--columns"@ || t == "--cols"@ {
            if i + 1 >= tokens.len() {
                Err(DefErrModel::MissingAttributeValue { attribute: t })
            } else {
                match spec_parse_usize(tokens[i + 1]) {
                    Some(c) => spec_parse_settings(
                        tokens,
                        i + 2,
                        SettingsModel { columns: c, ..acc },
                    ),
                    None => Err(DefErrModel::InvalidColumns { value: tokens[i + 1] }),
                }
            }
        } else if t == "--program-name"@ {
            if i + 1 >= tokens.len() {
                Err(DefErrModel::MissingAttributeValue { attribute: t })
            } else {
                spec_parse_settings(
                    tokens,
                    i + 2,
                    SettingsModel { program_name: Some(tokens[i + 1]), ..acc },
                )
            }
        } else if t == "--program-summary"@ {
            if i + 1 >= tokens.len() {
                Err(DefErrModel::MissingAttributeValue { attribute: t })
            } else {
                spec_parse_settings(
                    tokens,
                    i + 2,
                    SettingsModel { program_summary: Some(tokens[i + 1]), ..acc },
                )
            }
        } else if t == "--program-description"@ {
            if i + 1 >= tokens.len() {
                Err(DefErrModel::MissingAttributeValue { attribute: t })
            } else {
                spec_parse_settings(
                    tokens,
                    i + 2,
                    SettingsModel { program_description: Some(tokens[i + 1]), ..acc },
                )
            }
        } else if t == "--export"@ {
            spec_parse_settings(tokens, i + 1, SettingsModel { export: true, ..acc })
        } else if t == "--prefix"@ {
            if i + 1 >= tokens.len() {
                Err(DefErrModel::MissingAttributeValue { attribute: t })
            } else {
                spec_parse_settings(
                    tokens,
                    i + 2,
                    SettingsModel { prefix: Some(tokens[i + 1]), ..acc },
                )
            }
        } else if t == "--debug"@ {
            spec_parse_settings(tokens, i + 1, SettingsModel { debug: true, ..acc })
        } else {
            Err(DefErrModel::UnrecognizedOption { token: t })
        }
    }
}

#[via_fn]
proof fn spec_parse_settings_dec(tokens: Seq<Seq<char>>, i: int, acc: SettingsModel) {
    if 0 <= i < tokens.len() {
        lemma_new_boolean_bounds(tokens, i + 1);
        lemma_new_choice_bounds(tokens, i + 1);
        lemma_new_simple_bounds(tokens, i + 1);
    }
}

/// Reads the full definition token stream (everything before the runtime
/// tokens).  `default_columns` is the help column width used when the stream
/// does not override it with `--columns`.
pub fn parse_settings(tokens: &Vec<String>, default_columns: usize) -> (r: Result<
    Settings,
    DefinitionError,
>)
    ensures
        match r {
            Ok(s) => spec_parse_settings(
                tokens.deep_view(),
                0,
                spec_initial_settings(default_columns),
            ) == Ok::<SettingsModel, DefErrModel>(s@),
            Err(e) => spec_parse_settings(
                tokens.deep_view(),
                0,
                spec_initial_settings(default_columns),
            ) == Err::<SettingsModel, DefErrModel>(e@),
        },
{
    let ghost toks = tokens.deep_view();
    let mut s = Settings {
        arguments: Vec::new(),
        prefix: None,
        auto_help: false,
        export: false,
        debug: false,
        program_name: None,
        program_summary: None,
        program_description: None,
        remaining_args: Vec::new(),
        columns: default_columns,
        help_function: None,
    };
    proof {
        assert(s@ =~= spec_initial_settings(default_columns));
    }
    let mut i: usize = 0;
    loop
        invariant
            toks == tokens.deep_view(),
            toks.len() == tokens@.len(),
            i <= tokens@.len(),
            s@.remaining_args =~= Seq::<Seq<char>>::empty(),
            spec_parse_settings(toks, 0, spec_initial_settings(default_columns))
                == spec_parse_settings(toks, i as int, s@),
        decreases tokens@.len() - i,
    {
        let ghost prev = s@;
        let ghost previ = i as int;
        if i >= tokens.len() {
            proof {
                assert(spec_parse_settings(toks, previ, prev) == Ok::<SettingsModel, DefErrModel>(
                    (SettingsModel { remaining_args: Seq::empty(), ..prev }),
                ));
                assert(s@ =~= (SettingsModel { remaining_args: Seq::empty(), ..prev }));
            }
            return Ok(s);
        }
        let t = &tokens[i];
        assert(toks[previ] == t@);
        if is_tok(t, "--") {
            let mut rem: Vec<String> = Vec::new();
            let mut k: usize = i + 1;
            proof {
                assert(rem.deep_view() =~= toks.subrange(previ + 1, k as int));
            }
            while k < tokens.len()
                invariant
                    toks == tokens.deep_view(),
                    toks.len() == tokens@.len(),
                    0 <= previ + 1 <= k as int <= tokens@.len(),
                    rem.deep_view() == toks.subrange(previ + 1, k as int),
                decreases tokens@.len() - k,
            {
                let ghost rempre = rem.deep_view();
                rem.push(tokens[k].clone());
                proof {
                    assert(rem.deep_view() =~= rempre.push(toks[k as int]));
                    assert(rempre.push(toks[k as int]) =~= toks.subrange(previ + 1, k + 1));
                }
                k = k + 1;
            }
            s.remaining_args = rem;
            proof {
                assert(toks.subrange(previ + 1, toks.len() as int) =~= toks.skip(previ + 1));
                assert(s@ =~= (SettingsModel { remaining_args: toks.skip(previ + 1), ..prev }));
                assert(spec_parse_settings(toks, previ, prev) == Ok::<SettingsModel, DefErrModel>(
                    s@,
                ));
            }
            return Ok(s);
        } else if is_tok(t, "--boolean") || is_tok(t, "--bool") {
            let (a, j) = match BooleanArgument::new(tokens, i + 1) {
                Ok(p) => p,
                Err(e) => {
                    return Err(e);
                },
            };
            s.arguments.push(Argument::Boolean(a));
            proof {
                assert(s@.arguments =~= prev.arguments.push(a@));
                assert(s@ =~= (SettingsModel { arguments: prev.arguments.push(a@), ..prev }));
                assert(spec_parse_settings(toks, previ, prev) == spec_parse_settings(
                    toks,
                    j as int,
                    s@,
                ));
            }
            i = j;
        } else if is_tok(t, "--integer") || is_tok(t, "--int") {
            let (a, j) = match IntegerArgument::new(tokens, i + 1) {
                Ok(p) => p,
                Err(e) => {
                    return Err(e);
                },
            };
            s.arguments.push(Argument::Integer(a));
            proof {
                assert(s@.arguments =~= prev.arguments.push(a@));
                assert(s@ =~= (SettingsModel { arguments: prev.arguments.push(a@), ..prev }));
                assert(spec_parse_settings(toks, previ, prev) == spec_parse_settings(
                    toks,
                    j as int,
                    s@,
                ));
            }
            i = j;
        } else if is_tok(t, "--float") || is_tok(t, "--number") {
            let (a, j) = match FloatArgument::new(tokens, i + 1) {
                Ok(p) => p,
                Err(e) => {
                    return Err(e);
                },
            };
            s.arguments.push(Argument::Float(a));
            proof {
                assert(s@.arguments =~= prev.arguments.push(a@));
                assert(s@ =~= (SettingsModel { arguments: prev.arguments.push(a@), ..prev }));
                assert(spec_parse_settings(toks, previ, prev) == spec_parse_settings(
                    toks,
                    j as int,
                    s@,
                ));
            }
            i = j;
        } else if is_tok(t, "--string") || is_tok(t, "--str") {
            let (a, j) = match StringArgument::new(tokens, i + 1) {
                Ok(p) => p,
                Err(e) => {
                    return Err(e);
                },
            };
            s.arguments.push(Argument::Str(a));
            proof {
                assert(s@.arguments =~= prev.arguments.push(a@));
                assert(s@ =~= (SettingsModel { arguments: prev.arguments.push(a@), ..prev }));
                assert(spec_parse_settings(toks, previ, prev) == spec_parse_settings(
                    toks,
                    j as int,
                    s@,
                ));
            }
            i = j;
        } else if is_tok(t, "--choice") || is_tok(t, "--pick") {
            let (a, j) = match ChoiceArgument::new(tokens, i + 1) {
                Ok(p) => p,
                Err(e) => {
                    return Err(e);
                },
            };
            s.arguments.push(Argument::Choice(a));
            proof {
                assert(s@.arguments =~= prev.arguments.push(a@));
                assert(s@ =~= (SettingsModel { arguments: prev.arguments.push(a@), ..prev }));
                assert(spec_parse_settings(toks, previ, prev) == spec_parse_settings(
                    toks,
                    j as int,
                    s@,
                ));
            }
            i = j;
        } else if is_tok(t, "--autohelp") || is_tok(t, "--auto-help") {
            s.auto_help = true;
            proof {
                assert(s@ =~= (SettingsModel { auto_help: true, ..prev }));
                assert(spec_parse_settings(toks, previ, prev) == spec_parse_settings(
                    toks,
                    previ + 1,
                    s@,
                ));
            }
            i = i + 1;
        } else if is_tok(t, "--help-function") {
            if i + 1 >= tokens.len() {
                return Err(DefinitionError::MissingAttributeValue { attribute: t.clone() });
            }
            s.help_function = Some(tokens[i + 1].clone());
            proof {
                assert(s@ =~= (SettingsModel { help_function: Some(toks[previ + 1]), ..prev }));
                assert(spec_parse_settings(toks, previ, prev) == spec_parse_settings(
                    toks,
                    previ + 2,
                    s@,
                ));
            }
            i = i + 2;
        } else if is_tok(t, "--columns") || is_tok(t, "--cols") {
            if i + 1 >= tokens.len() {
                return Err(DefinitionError::MissingAttributeValue { attribute: t.clone() });
            }
            let v = &tokens[i + 1];
            assert(toks[previ + 1] == v@);
            match parse_usize(v) {
                Some(c) => {
                    s.columns = c;
                    proof {
                        assert(s@ =~= (SettingsModel { columns: c, ..prev }));
                        assert(spec_parse_settings(toks, previ, prev) == spec_parse_settings(
                            toks,
                            previ + 2,
                            s@,
                        ));
                    }
                    i = i + 2;
                },
                None => {
                    return Err(DefinitionError::InvalidColumns { value: v.clone() });
                },
            }
        } else if is_tok(t, "--program-name") {
            if i + 1 >= tokens.len() {
                return Err(DefinitionError::MissingAttributeValue { attribute: t.clone() });
            }
            s.program_name = Some(tokens[i + 1].clone());
            proof {
                assert(s@ =~= (SettingsModel { program_name: Some(toks[previ + 1]), ..prev }));
                assert(spec_parse_settings(toks, previ, prev) == spec_parse_settings(
                    toks,
                    previ + 2,
                    s@,
                ));
            }
            i = i + 2;
        } else if is_tok(t, "--program-summary") {
            if i + 1 >= tokens.len() {
                return Err(DefinitionError::MissingAttributeValue { attribute: t.clone() });
            }
            s.program_summary = Some(tokens[i + 1].clone());
            proof {
                assert(s@ =~= (SettingsModel { program_summary: Some(toks[previ + 1]), ..prev }));
                assert(spec_parse_settings(toks, previ, prev) == spec_parse_settings(
                    toks,
                    previ + 2,
                    s@,
                ));
            }
            i = i + 2;
        } else if is_tok(t, "--program-description") {
            if i + 1 >= tokens.len() {
                return Err(DefinitionError::MissingAttributeValue { attribute: t.clone() });
            }
            s.program_description = Some(tokens[i + 1].clone());
            proof {
                assert(s@ =~= (SettingsModel {
                    program_description: Some(toks[previ + 1]),
                    ..prev
                }));
                assert(spec_parse_settings(toks, previ, prev) == spec_parse_settings(
                    toks,
                    previ + 2,
                    s@,
                ));
            }
            i = i + 2;
        } else if is_tok(t, "--export") {
            s.export = true;
            proof {
                assert(s@ =~= (SettingsModel { export: true, ..prev }));
                assert(spec_parse_settings(toks, previ, prev) == spec_parse_settings(
                    toks,
                    previ + 1,
                    s@,
                ));
            }
            i = i + 1;
        } else if is_tok(t, "--prefix") {
            if i + 1 >= tokens.len() {
                return Err(DefinitionError::MissingAttributeValue { attribute: t.clone() });
            }
            s.prefix = Some(tokens[i + 1].clone());
            proof {
                assert(s@ =~= (SettingsModel { prefix: Some(toks[previ + 1]), ..prev }));
                assert(spec_parse_settings(toks, previ, prev) == spec_parse_settings(
                    toks,
                    previ + 2,
                    s@,
                ));
            }
            i = i + 2;
        } else if is_tok(t, "--debug") {
            s.debug = true;
            proof {
                assert(s@ =~= (SettingsModel { debug: true, ..prev }));
                assert(spec_parse_settings(toks, previ, prev) == spec_parse_settings(
                    toks,
                    previ + 1,
                    s@,
                ));
            }
            i = i + 1;
        } else {
            return Err(DefinitionError::UnrecognizedOption { token: t.clone() });
        }
    }
}

// --- duplicate names ---

/// The first specification name equal to an earlier one, if any.
pub open spec fn spec_first_duplicate(names: Seq<Seq<char>>, k: int) -> Option<Seq<char>>
    decreases names.len() - k,
{
    if k < 0 || k >= names.len() {
        None
    } else if names.take(k).contains(names[k]) {
        Some(names[k])
    } else {
        spec_first_duplicate(names, k + 1)
    }
}

/// The names of the specifications, in declaration order.
pub open spec fn spec_names(arguments: Seq<ArgumentModel>) -> Seq<Seq<char>> {
    arguments.map_values(|a: ArgumentModel| common_of(a).name)
}

/// Rejects a definition in which two specifications share one name: with a
/// duplicate, resolved values of the two would be indistinguishable in the
/// final mapping.
pub fn check_unique_names(arguments: &Vec<Argument>) -> (r: Result<(), DefinitionError>)
    ensures
        match r {
            Ok(()) => spec_first_duplicate(spec_names(arguments.deep_view()), 0) is None,
            Err(e) => match e@ {
                DefErrModel::DuplicateName { name } => spec_first_duplicate(
                    spec_names(arguments.deep_view()),
                    0,
                ) == Some(name),
                _ => false,
            },
        },
{
    let ghost names = spec_names(arguments.deep_view());
    let mut k: usize = 0;
    while k < arguments.len()
        invariant
            names == spec_names(arguments.deep_view()),
            names.len() == arguments@.len(),
            k <= arguments@.len(),
            spec_first_duplicate(names, 0) == spec_first_duplicate(names, k as int),
        decreases arguments@.len() - k,
    {
        let name_k = arguments[k].get_name();
        assert(names[k as int] == name_k@);
        let mut j: usize = 0;
        let mut dup: bool = false;
        while j < k
            invariant
                names == spec_names(arguments.deep_view()),
                names.len() == arguments@.len(),
                j <= k < arguments@.len(),
                name_k@ == names[k as int],
                dup ==> names.take(k as int).contains(names[k as int]),
                !dup ==> forall|x: int| 0 <= x < j ==> names[x] != names[k as int],
            decreases k - j,
        {
            if arguments[j].get_name().eq(name_k) {
                proof {
                    assert(names.take(k as int)[j as int] == names[j as int]);
                }
                dup = true;
            }
            j = j + 1;
        }
        if dup {
            let e = DefinitionError::DuplicateName { name: name_k.clone() };
            assert(spec_first_duplicate(names, k as int) == Some(names[k as int]));
            return Err(e);
        }
        proof {
            assert(forall|x: int|
                0 <= x < k ==> names.take(k as int)[x] == names[x]);
            assert(!names.take(k as int).contains(names[k as int]));
            assert(spec_first_duplicate(names, k as int) == spec_first_duplicate(
                names,
                k + 1,
            ));
        }
        k = k + 1;
    }
    Ok(())
}

/// Whether the runtime tokens are exactly one `--help`, with automatic help
/// enabled: a control signal that takes priority over resolution.
pub fn wants_help(settings: &Settings) -> (r: bool)
    ensures
        r == (settings@.auto_help && settings@.remaining_args.len() == 1
            && settings@.remaining_args[0] == "--help"@),
{
    settings.auto_help && settings.remaining_args.len() == 1 && is_tok(
        &settings.remaining_args[0],
        "--help",
    )
}

} // verus!
