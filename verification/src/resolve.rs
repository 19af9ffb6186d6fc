//! The resolution engine: each runtime token is resolved in up to three
//! passes — a flag match over the specifications in declaration order, then
//! an ordinal match against a shared position counter, then the first
//! willing catch-all — and its coerced value is appended to the winning
//! specification's list, in arrival order.  Multiplicity and required
//! constraints are enforced afterwards by the validator, and defaults are
//! applied when the final output mapping is assembled.

use vstd::prelude::*;

use crate::errors::UserErrModel;
use crate::errors::UserError;
use crate::kinds::ArgumentModel;
use crate::kinds::ConsumeOut;
use crate::kinds::common_of;
use crate::kinds::spec_consume;
use crate::settings::Settings;
use crate::settings::SettingsModel;

verus! {

// --- the three passes over one token ---

/// The flag pass: the first specification at or after `k`, in declaration
/// order, that the token selects; its coerced value and how many tokens it
/// pulled from the queue.  A selected specification with a bad value fails
/// resolution at once.
pub open spec fn spec_flag_pass(
    specs: Seq<ArgumentModel>,
    k: int,
    t: Seq<char>,
    rest: Seq<Seq<char>>,
) -> Result<Option<(int, Seq<char>, int)>, UserErrModel>
    decreases specs.len() - k,
{
    if k < 0 || k >= specs.len() {
        Ok(None)
    } else {
        match spec_consume(specs[k], Some(t), rest) {
            ConsumeOut::NoMatch => spec_flag_pass(specs, k + 1, t, rest),
            ConsumeOut::Matched { value, used } => Ok(Some((k, value, used))),
            ConsumeOut::Failed(e) => Err(e),
        }
    }
}

/// The ordinal pass: the first specification at or after `k` whose ordinal
/// set holds the current counter value.  Counter values outside the 16-bit
/// range match nothing.
pub open spec fn spec_ordinal_pass(specs: Seq<ArgumentModel>, k: int, ordinal: int) -> Option<int>
    decreases specs.len() - k,
{
    if k < 0 || k >= specs.len() {
        None
    } else if 0 <= ordinal <= u16::MAX && common_of(specs[k]).ordinals.contains(ordinal as u16) {
        Some(k)
    } else {
        spec_ordinal_pass(specs, k + 1, ordinal)
    }
}

/// The catch-all pass: the first specification at or after `k` marked
/// catch-all that is repeated or has not yet received any value.
pub open spec fn spec_catch_all_pass(
    specs: Seq<ArgumentModel>,
    k: int,
    values: Seq<Seq<Seq<char>>>,
) -> Option<int>
    decreases specs.len() - k,
{
    if k < 0 || k >= specs.len() {
        None
    } else if common_of(specs[k]).catch_all && (common_of(specs[k]).repeated || values[k].len()
        == 0) {
        Some(k)
    } else {
        spec_catch_all_pass(specs, k + 1, values)
    }
}

/// Handing a token to a specification as an explicit value, bypassing flag
/// matching: what `spec_consume` yields for no token and a one-token queue.
pub open spec fn spec_take_value(a: ArgumentModel, t: Seq<char>) -> Result<
    Seq<char>,
    UserErrModel,
> {
    match spec_consume(a, None, seq![t]) {
        ConsumeOut::Matched { value, .. } => Ok(value),
        ConsumeOut::Failed(e) => Err(e),
        ConsumeOut::NoMatch => Err(UserErrModel::ExtraArgument { token: t }),
    }
}

/// Resolving one token `t` against the whole specification list: the flag
/// pass wins first, then the ordinal pass, then the catch-all pass; with no
/// winner the token is an extra argument and resolution fails.  Yields the
/// winning index, the coerced value, how many extra tokens were consumed,
/// and the ordinal counter after the step — the counter advances on
/// ordinal-pass and catch-all-pass successes, never on a flag match.
pub open spec fn spec_step(
    specs: Seq<ArgumentModel>,
    values: Seq<Seq<Seq<char>>>,
    t: Seq<char>,
    rest: Seq<Seq<char>>,
    ordinal: int,
) -> Result<(int, Seq<char>, int, int), UserErrModel> {
    match spec_flag_pass(specs, 0, t, rest) {
        Err(e) => Err(e),
        Ok(Some(hit)) => Ok((hit.0, hit.1, hit.2, ordinal)),
        Ok(None) => match spec_ordinal_pass(specs, 0, ordinal) {
            Some(k) => match spec_take_value(specs[k], t) {
                Ok(v) => Ok((k, v, 0, ordinal + 1)),
                Err(e) => Err(e),
            },
            None => match spec_catch_all_pass(specs, 0, values) {
                Some(k) => match spec_take_value(specs[k], t) {
                    Ok(v) => Ok((k, v, 0, ordinal + 1)),
                    Err(e) => Err(e),
                },
                None => Err(UserErrModel::ExtraArgument { token: t }),
            },
        },
    }
}

// --- bounds of the passes ---

/// A match consumes at most the whole queue.
pub proof fn lemma_consume_used_bounds(a: ArgumentModel, arg: Option<Seq<char>>, queue: Seq<Seq<char>>)
    ensures
        match spec_consume(a, arg, queue) {
            ConsumeOut::Matched { used, .. } => 0 <= used <= queue.len(),
            _ => true,
        },
{
}

proof fn lemma_flag_pass_bounds(specs: Seq<ArgumentModel>, k: int, t: Seq<char>, rest: Seq<Seq<char>>)
    requires
        0 <= k,
    ensures
        match spec_flag_pass(specs, k, t, rest) {
            Ok(Some(hit)) => k <= hit.0 < specs.len() && 0 <= hit.2 <= rest.len(),
            _ => true,
        },
    decreases specs.len() - k,
{
    if k < specs.len() {
        lemma_consume_used_bounds(specs[k], Some(t), rest);
        match spec_consume(specs[k], Some(t), rest) {
            ConsumeOut::NoMatch => lemma_flag_pass_bounds(specs, k + 1, t, rest),
            _ => {},
        }
    }
}

proof fn lemma_ordinal_pass_bounds(specs: Seq<ArgumentModel>, k: int, ordinal: int)
    requires
        0 <= k,
    ensures
        match spec_ordinal_pass(specs, k, ordinal) {
            Some(x) => k <= x < specs.len(),
            None => true,
        },
    decreases specs.len() - k,
{
    if k < specs.len() {
        if !(0 <= ordinal <= u16::MAX && common_of(specs[k]).ordinals.contains(ordinal as u16)) {
            lemma_ordinal_pass_bounds(specs, k + 1, ordinal);
        }
    }
}

/// A counter value outside the 16-bit range matches no ordinal.
proof fn lemma_ordinal_pass_out_of_range(specs: Seq<ArgumentModel>, k: int, ordinal: int)
    requires
        ordinal < 0 || ordinal > u16::MAX,
    ensures
        spec_ordinal_pass(specs, k, ordinal) is None,
    decreases specs.len() - k,
{
    if 0 <= k < specs.len() {
        lemma_ordinal_pass_out_of_range(specs, k + 1, ordinal);
    }
}

proof fn lemma_catch_all_pass_bounds(specs: Seq<ArgumentModel>, k: int, values: Seq<Seq<Seq<char>>>)
    requires
        0 <= k,
    ensures
        match spec_catch_all_pass(specs, k, values) {
            Some(x) => k <= x < specs.len(),
            None => true,
        },
    decreases specs.len() - k,
{
    if k < specs.len() {
        if !(common_of(specs[k]).catch_all && (common_of(specs[k]).repeated || values[k].len()
            == 0)) {
            lemma_catch_all_pass_bounds(specs, k + 1, values);
        }
    }
}

/// A successful step names a real specification and consumes at most the
/// whole queue.
pub proof fn lemma_step_bounds(
    specs: Seq<ArgumentModel>,
    values: Seq<Seq<Seq<char>>>,
    t: Seq<char>,
    rest: Seq<Seq<char>>,
    ordinal: int,
)
    ensures
        match spec_step(specs, values, t, rest, ordinal) {
            Ok(out) => 0 <= out.0 < specs.len() && 0 <= out.2 <= rest.len() && (out.3 == ordinal
                || out.3 == ordinal + 1),
            Err(_) => true,
        },
{
    lemma_flag_pass_bounds(specs, 0, t, rest);
    lemma_ordinal_pass_bounds(specs, 0, ordinal);
    lemma_catch_all_pass_bounds(specs, 0, values);
}

// --- the loop over the runtime tokens ---

/// One empty value list per specification.
pub open spec fn spec_empty_values(n: nat) -> Seq<Seq<Seq<char>>> {
    Seq::new(n, |k: int| Seq::empty())
}

/// Resolving the runtime tokens in order, accumulating each resolved value
/// at its specification's index, in arrival order.
pub open spec fn spec_resolve_loop(
    specs: Seq<ArgumentModel>,
    values: Seq<Seq<Seq<char>>>,
    tokens: Seq<Seq<char>>,
    ordinal: int,
) -> Result<Seq<Seq<Seq<char>>>, UserErrModel>
    decreases tokens.len(),
    via spec_resolve_loop_dec
{
    if tokens.len() == 0 {
        Ok(values)
    } else {
        let t = tokens[0];
        let rest = tokens.drop_first();
        match spec_step(specs, values, t, rest, ordinal) {
            Err(e) => Err(e),
            Ok(out) => spec_resolve_loop(
                specs,
                values.update(out.0, values[out.0].push(out.1)),
                rest.skip(out.2),
                out.3,
            ),
        }
    }
}

#[via_fn]
proof fn spec_resolve_loop_dec(
    specs: Seq<ArgumentModel>,
    values: Seq<Seq<Seq<char>>>,
    tokens: Seq<Seq<char>>,
    ordinal: int,
) {
    if tokens.len() > 0 {
        lemma_step_bounds(specs, values, tokens[0], tokens.drop_first(), ordinal);
    }
}

/// The full resolution of a runtime token sequence: all lists start empty
/// and the ordinal counter starts at zero.
pub open spec fn spec_resolve(specs: Seq<ArgumentModel>, tokens: Seq<Seq<char>>) -> Result<
    Seq<Seq<Seq<char>>>,
    UserErrModel,
> {
    spec_resolve_loop(specs, spec_empty_values(specs.len()), tokens, 0)
}

// --- the validator ---

/// The post-pass check from specification `k` on: more than one value
/// without `--repeated` fails, no value with `--required` fails.
pub open spec fn spec_validate(
    specs: Seq<ArgumentModel>,
    values: Seq<Seq<Seq<char>>>,
    k: int,
) -> Result<(), UserErrModel>
    decreases specs.len() - k,
{
    if k < 0 || k >= specs.len() {
        Ok(())
    } else {
        let c = common_of(specs[k]);
        if values[k].len() > 1 && !c.repeated {
            Err(UserErrModel::MultipleValues { name: c.name })
        } else if values[k].len() == 0 && c.required {
            Err(UserErrModel::MissingArgument { name: c.name })
        } else {
            spec_validate(specs, values, k + 1)
        }
    }
}

// --- the final mapping ---

/// The final mapping from specification `k` on: a specification with values
/// contributes them; one with none and a default contributes the default as
/// its sole value; one with neither is absent.
pub open spec fn spec_outputs(
    specs: Seq<ArgumentModel>,
    values: Seq<Seq<Seq<char>>>,
    k: int,
) -> Seq<(Seq<char>, Seq<Seq<char>>)>
    decreases specs.len() - k,
{
    if k < 0 || k >= specs.len() {
        Seq::empty()
    } else {
        let c = common_of(specs[k]);
        let restof = spec_outputs(specs, values, k + 1);
        if values[k].len() > 0 {
            seq![(c.name, values[k])] + restof
        } else {
            match c.default {
                Some(d) => seq![(c.name, seq![d])] + restof,
                None => restof,
            }
        }
    }
}

/// The view of the final mapping, entry by entry.
pub open spec fn outputs_view(v: Seq<(String, Vec<String>)>) -> Seq<(Seq<char>, Seq<Seq<char>>)> {
    v.map_values(|p: (String, Vec<String>)| (p.0@, p.1.deep_view()))
}

/// What resolving a whole definition yields: the resolved values, validated,
/// assembled into the final mapping with defaults applied.
pub open spec fn spec_resolve_arguments(s: SettingsModel) -> Result<
    Seq<(Seq<char>, Seq<Seq<char>>)>,
    UserErrModel,
> {
    match spec_resolve(s.arguments, s.remaining_args) {
        Err(e) => Err(e),
        Ok(values) => match spec_validate(s.arguments, values, 0) {
            Err(e) => Err(e),
            Ok(u) => Ok(spec_outputs(s.arguments, values, 0)),
        },
    }
}

// --- the engine ---

/// Resolves one runtime token: the flag pass over the specifications in
/// declaration order, then the ordinal pass, then the catch-all pass.
/// Yields the winning specification's index, the coerced value, the position
/// after any value consumption from the queue, and the new ordinal counter.
pub fn parse_argument_value(
    settings: &Settings,
    ordinal: usize,
    first: &String,
    tokens: &Vec<String>,
    pos: usize,
    known_values: &Vec<Vec<String>>,
) -> (r: Result<(usize, String, usize, usize), UserError>)
    requires
        pos <= tokens@.len(),
        known_values@.len() == settings@.arguments.len(),
        ordinal < usize::MAX,
    ensures
        ({
            let step = spec_step(
                settings@.arguments,
                known_values.deep_view(),
                first@,
                tokens.deep_view().skip(pos as int),
                ordinal as int,
            );
            match r {
                Ok(out) => step == Ok::<(int, Seq<char>, int, int), UserErrModel>(
                    (out.0 as int, out.1@, out.2 - pos, out.3 as int),
                ) && out.0 < settings@.arguments.len() && pos <= out.2 <= tokens@.len() && (out.3
                    == ordinal || out.3 == ordinal + 1),
                Err(e) => step == Err::<(int, Seq<char>, int, int), UserErrModel>(e@),
            }
        }),
{
    let ghost specs = settings@.arguments;
    let ghost queue = tokens.deep_view().skip(pos as int);
    let ghost vals = known_values.deep_view();

    // First pass: flag matches, in declaration order; a flag may pull its
    // value from the queue.
    let n = settings.arguments.len();
    let mut k: usize = 0;
    while k < n
        invariant
            specs == settings@.arguments,
            queue == tokens.deep_view().skip(pos as int),
            n == specs.len(),
            k <= n,
            pos <= tokens@.len(),
            spec_flag_pass(specs, 0, first@, queue) == spec_flag_pass(specs, k as int, first@, queue),
        decreases n - k,
    {
        let a = &settings.arguments[k];
        assert(a.deep_view() == specs[k as int]);
        match a.consume(Some(first.clone()), tokens, pos) {
            Err(e) => {
                assert(spec_flag_pass(specs, k as int, first@, queue) == Err::<
                    Option<(int, Seq<char>, int)>,
                    UserErrModel,
                >(e@));
                return Err(e);
            },
            Ok(Some(hit)) => {
                let (value, newpos) = hit;
                assert(spec_flag_pass(specs, k as int, first@, queue) == Ok::<
                    Option<(int, Seq<char>, int)>,
                    UserErrModel,
                >(Some((k as int, value@, newpos - pos))));
                return Ok((k, value, newpos, ordinal));
            },
            Ok(None) => {
                assert(spec_flag_pass(specs, k as int, first@, queue) == spec_flag_pass(
                    specs,
                    k + 1,
                    first@,
                    queue,
                ));
            },
        }
        k = k + 1;
    }
    assert(spec_flag_pass(specs, 0, first@, queue) == Ok::<
        Option<(int, Seq<char>, int)>,
        UserErrModel,
    >(None));

    // Second pass: ordinal matches against the shared counter; the token
    // itself is the value.
    if ordinal <= u16::MAX as usize {
        let ow: u16 = ordinal as u16;
        let mut k: usize = 0;
        while k < n
            invariant
                specs == settings@.arguments,
                n == specs.len(),
                k <= n,
                pos <= tokens@.len(),
                ordinal < usize::MAX,
                ow as int == ordinal as int,
                spec_flag_pass(specs, 0, first@, tokens.deep_view().skip(pos as int)) == Ok::<
                    Option<(int, Seq<char>, int)>,
                    UserErrModel,
                >(None),
                spec_ordinal_pass(specs, 0, ordinal as int) == spec_ordinal_pass(
                    specs,
                    k as int,
                    ordinal as int,
                ),
            decreases n - k,
        {
            let a = &settings.arguments[k];
            assert(a.deep_view() == specs[k as int]);
            if a.is_ordinal(ow) {
                assert(spec_ordinal_pass(specs, k as int, ordinal as int) == Some(k as int));
                let mut single: Vec<String> = Vec::new();
                single.push(first.clone());
                proof {
                    assert(single.deep_view() =~= seq![first@]);
                    assert(single.deep_view().skip(0) =~= seq![first@]);
                }
                match a.consume(None, &single, 0) {
                    Err(e) => {
                        return Err(e);
                    },
                    Ok(Some(hit)) => {
                        return Ok((k, hit.0, pos, ordinal + 1));
                    },
                    Ok(None) => {
                        return Err(UserError::ExtraArgument { token: first.clone() });
                    },
                }
            }
            assert(spec_ordinal_pass(specs, k as int, ordinal as int) == spec_ordinal_pass(
                specs,
                k + 1,
                ordinal as int,
            ));
            k = k + 1;
        }
        assert(spec_ordinal_pass(specs, 0, ordinal as int) is None);
    } else {
        proof {
            lemma_ordinal_pass_out_of_range(specs, 0, ordinal as int);
        }
    }

    // Third pass: the first willing catch-all; the token itself is the
    // value.
    let mut k: usize = 0;
    while k < n
        invariant
            specs == settings@.arguments,
            vals == known_values.deep_view(),
            n == specs.len(),
            k <= n,
            pos <= tokens@.len(),
            ordinal < usize::MAX,
            known_values@.len() == specs.len(),
            spec_flag_pass(specs, 0, first@, tokens.deep_view().skip(pos as int)) == Ok::<
                Option<(int, Seq<char>, int)>,
                UserErrModel,
            >(None),
            spec_ordinal_pass(specs, 0, ordinal as int) is None,
            spec_catch_all_pass(specs, 0, vals) == spec_catch_all_pass(specs, k as int, vals),
        decreases n - k,
    {
        let a = &settings.arguments[k];
        assert(a.deep_view() == specs[k as int]);
        assert(vals[k as int].len() == known_values@[k as int]@.len());
        if a.is_catch_all() && (a.is_repeated() || known_values[k].len() == 0) {
            assert(spec_catch_all_pass(specs, k as int, vals) == Some(k as int));
            let mut single: Vec<String> = Vec::new();
            single.push(first.clone());
            proof {
                assert(single.deep_view() =~= seq![first@]);
                assert(single.deep_view().skip(0) =~= seq![first@]);
            }
            match a.consume(None, &single, 0) {
                Err(e) => {
                    return Err(e);
                },
                Ok(Some(hit)) => {
                    return Ok((k, hit.0, pos, ordinal + 1));
                },
                Ok(None) => {
                    return Err(UserError::ExtraArgument { token: first.clone() });
                },
            }
        }
        assert(spec_catch_all_pass(specs, k as int, vals) == spec_catch_all_pass(
            specs,
            k + 1,
            vals,
        ));
        k = k + 1;
    }
    assert(spec_catch_all_pass(specs, 0, vals) is None);
    Err(UserError::ExtraArgument { token: first.clone() })
}

/// Resolves the whole runtime token sequence of a definition into one value
/// list per specification, in declaration order, each in arrival order.
pub fn parse_argument_values(settings: &Settings) -> (r: Result<Vec<Vec<String>>, UserError>)
    ensures
        match r {
            Ok(values) => spec_resolve(settings@.arguments, settings@.remaining_args) == Ok::<
                Seq<Seq<Seq<char>>>,
                UserErrModel,
            >(values.deep_view()) && values@.len() == settings@.arguments.len(),
            Err(e) => spec_resolve(settings@.arguments, settings@.remaining_args) == Err::<
                Seq<Seq<Seq<char>>>,
                UserErrModel,
            >(e@),
        },
{
    let ghost specs = settings@.arguments;
    let tokens = &settings.remaining_args;
    let ghost toks = settings@.remaining_args;

    let n = settings.arguments.len();
    let mut values: Vec<Vec<String>> = Vec::new();
    let mut k: usize = 0;
    proof {
        assert(values.deep_view() =~~= spec_empty_values(0));
    }
    while k < n
        invariant
            k <= n,
            values@.len() == k as int,
            values.deep_view() == spec_empty_values(k as nat),
        decreases n - k,
    {
        let ghost dvpre = values.deep_view();
        values.push(Vec::new());
        proof {
            assert(values.deep_view() =~~= dvpre.push(Seq::empty()));
            assert(dvpre.push(Seq::empty()) =~~= spec_empty_values((k + 1) as nat));
        }
        k = k + 1;
    }
    proof {
        assert(n == specs.len());
        assert(toks.skip(0) =~= toks);
    }

    let mut pos: usize = 0;
    let mut ordinal: usize = 0;
    while pos < tokens.len()
        invariant
            specs == settings@.arguments,
            toks == settings@.remaining_args,
            tokens@.len() == toks.len(),
            tokens == &settings.remaining_args,
            values@.len() == specs.len(),
            pos <= toks.len(),
            ordinal <= pos,
            spec_resolve_loop(specs, values.deep_view(), toks.skip(pos as int), ordinal as int)
                == spec_resolve(specs, toks),
        decreases toks.len() - pos,
    {
        let ghost valspre = values.deep_view();
        let first = tokens[pos].clone();
        proof {
            assert(toks.skip(pos as int)[0] == toks[pos as int]);
            assert(toks.skip(pos as int).drop_first() =~= toks.skip(pos + 1));
        }
        match parse_argument_value(settings, ordinal, &first, tokens, pos + 1, &values) {
            Err(e) => {
                return Err(e);
            },
            Ok(out) => {
                let (k, value, newpos, newordinal) = out;
                let ghost used = newpos - (pos + 1);
                let ghost vat = values@;
                let mut row = values.remove(k);
                row.push(value);
                proof {
                    assert(row.deep_view() =~= valspre[k as int].push(value@));
                }
                values.insert(k, row);
                proof {
                    assert(values@ =~= vat.update(k as int, row));
                    assert(values.deep_view() =~~= valspre.update(
                        k as int,
                        valspre[k as int].push(value@),
                    ));
                    assert(toks.skip(pos + 1).skip(used) =~= toks.skip(newpos as int));
                    assert(spec_resolve_loop(specs, valspre, toks.skip(pos as int), ordinal as int)
                        == spec_resolve_loop(
                        specs,
                        values.deep_view(),
                        toks.skip(newpos as int),
                        newordinal as int,
                    ));
                }
                pos = newpos;
                ordinal = newordinal;
            },
        }
    }
    proof {
        assert(toks.skip(pos as int) =~= Seq::<Seq<char>>::empty());
    }
    Ok(values)
}

/// Enforces multiplicity and required constraints: more than one value
/// without `--repeated` fails, and no value with `--required` fails.
pub fn validate_argument_values(settings: &Settings, values: &Vec<Vec<String>>) -> (r: Result<
    (),
    UserError,
>)
    requires
        values@.len() == settings@.arguments.len(),
    ensures
        match r {
            Ok(()) => spec_validate(settings@.arguments, values.deep_view(), 0) == Ok::<
                (),
                UserErrModel,
            >(()),
            Err(e) => spec_validate(settings@.arguments, values.deep_view(), 0) == Err::<
                (),
                UserErrModel,
            >(e@),
        },
{
    let ghost specs = settings@.arguments;
    let ghost vals = values.deep_view();
    let n = settings.arguments.len();
    let mut k: usize = 0;
    while k < n
        invariant
            specs == settings@.arguments,
            vals == values.deep_view(),
            n == specs.len(),
            k <= n,
            values@.len() == specs.len(),
            spec_validate(specs, vals, 0) == spec_validate(specs, vals, k as int),
        decreases n - k,
    {
        let a = &settings.arguments[k];
        assert(a.deep_view() == specs[k as int]);
        assert(vals[k as int].len() == values@[k as int]@.len());
        if values[k].len() > 1 && !a.is_repeated() {
            let e = UserError::MultipleValues { name: a.get_name().clone() };
            assert(spec_validate(specs, vals, k as int) == Err::<(), UserErrModel>(e@));
            return Err(e);
        }
        if values[k].len() == 0 && a.is_required() {
            let e = UserError::MissingArgument { name: a.get_name().clone() };
            assert(spec_validate(specs, vals, k as int) == Err::<(), UserErrModel>(e@));
            return Err(e);
        }
        assert(spec_validate(specs, vals, k as int) == spec_validate(specs, vals, k + 1));
        k = k + 1;
    }
    Ok(())
}

/// Copies one value list.
fn clone_row(row: &Vec<String>) -> (r: Vec<String>)
    ensures
        r.deep_view() == row.deep_view(),
{
    let mut out: Vec<String> = Vec::new();
    let mut i: usize = 0;
    while i < row.len()
        invariant
            i <= row@.len(),
            out.deep_view() == row.deep_view().take(i as int),
        decreases row@.len() - i,
    {
        let ghost outpre = out.deep_view();
        out.push(row[i].clone());
        proof {
            assert(out.deep_view() =~= outpre.push(row.deep_view()[i as int]));
            assert(outpre.push(row.deep_view()[i as int]) =~= row.deep_view().take(i + 1));
        }
        i = i + 1;
    }
    proof {
        assert(row.deep_view().take(i as int) =~= row.deep_view());
    }
    out
}

/// Assembles the final mapping from name to resolved values, in declaration
/// order: values as resolved; the default, as the sole value, where nothing
/// was resolved; nothing where there is no default either.
pub fn resolved_outputs(settings: &Settings, values: &Vec<Vec<String>>) -> (r: Vec<
    (String, Vec<String>),
>)
    requires
        values@.len() == settings@.arguments.len(),
    ensures
        outputs_view(r@) == spec_outputs(settings@.arguments, values.deep_view(), 0),
{
    let ghost specs = settings@.arguments;
    let ghost vals = values.deep_view();
    let n = settings.arguments.len();
    let mut out: Vec<(String, Vec<String>)> = Vec::new();
    proof {
        assert(outputs_view(out@) =~= Seq::<(Seq<char>, Seq<Seq<char>>)>::empty());
    }
    let mut k: usize = 0;
    while k < n
        invariant
            specs == settings@.arguments,
            vals == values.deep_view(),
            n == specs.len(),
            k <= n,
            values@.len() == specs.len(),
            spec_outputs(specs, vals, 0) == outputs_view(out@) + spec_outputs(specs, vals, k as int),
        decreases n - k,
    {
        let a = &settings.arguments[k];
        assert(a.deep_view() == specs[k as int]);
        assert(vals[k as int].len() == values@[k as int]@.len());
        let ghost outpre = outputs_view(out@);
        if values[k].len() > 0 {
            let row = clone_row(&values[k]);
            out.push((a.get_name().clone(), row));
            proof {
                assert(outputs_view(out@) =~= outpre.push((common_of(specs[k as int]).name, vals[k as int])));
                assert(outpre + spec_outputs(specs, vals, k as int) =~= outputs_view(out@)
                    + spec_outputs(specs, vals, k + 1));
            }
        } else {
            match a.get_default() {
                Some(d) => {
                    let mut row: Vec<String> = Vec::new();
                    row.push(d.clone());
                    proof {
                        assert(row.deep_view() =~= seq![d@]);
                    }
                    out.push((a.get_name().clone(), row));
                    proof {
                        assert(outputs_view(out@) =~= outpre.push(
                            (common_of(specs[k as int]).name, seq![d@]),
                        ));
                        assert(outpre + spec_outputs(specs, vals, k as int) =~= outputs_view(out@)
                            + spec_outputs(specs, vals, k + 1));
                    }
                },
                None => {
                    proof {
                        assert(spec_outputs(specs, vals, k as int) == spec_outputs(
                            specs,
                            vals,
                            k + 1,
                        ));
                    }
                },
            }
        }
        k = k + 1;
    }
    proof {
        assert(spec_outputs(specs, vals, n as int) =~= Seq::<(Seq<char>, Seq<Seq<char>>)>::empty());
        assert(outputs_view(out@) + spec_outputs(specs, vals, n as int) =~= outputs_view(out@));
    }
    out
}

/// Resolves the runtime tokens of a parsed definition end to end: the
/// three-pass resolution, the multiplicity and required checks, and the
/// final mapping with defaults applied.
pub fn resolve_arguments(settings: &Settings) -> (r: Result<Vec<(String, Vec<String>)>, UserError>)
    ensures
        match r {
            Ok(out) => spec_resolve_arguments(settings@) == Ok::<
                Seq<(Seq<char>, Seq<Seq<char>>)>,
                UserErrModel,
            >(outputs_view(out@)),
            Err(e) => spec_resolve_arguments(settings@) == Err::<
                Seq<(Seq<char>, Seq<Seq<char>>)>,
                UserErrModel,
            >(e@),
        },
{
    let values = match parse_argument_values(settings) {
        Ok(v) => v,
        Err(e) => {
            return Err(e);
        },
    };
    match validate_argument_values(settings, &values) {
        Ok(u) => {},
        Err(e) => {
            return Err(e);
        },
    }
    Ok(resolved_outputs(settings, &values))
}

} // verus!
