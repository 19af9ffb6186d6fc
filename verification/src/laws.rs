//! The engine's general laws, each stated over the specification functions
//! the executable contracts use and proved for every input its premise
//! admits.

use vstd::prelude::*;

use crate::common::CommonModel;
use crate::common::MatchModel;
use crate::common::spec_flag_match;
use crate::errors::UserErrModel;
use crate::kinds::ArgumentModel;
use crate::kinds::ConsumeOut;
use crate::kinds::OptionModel;
use crate::kinds::common_of;
use crate::kinds::spec_choice_lookup;
use crate::kinds::spec_consume;
use crate::numbers::spec_bool_lit;
use crate::resolve::lemma_step_bounds;
use crate::resolve::spec_catch_all_pass;
use crate::resolve::spec_empty_values;
use crate::resolve::spec_flag_pass;
use crate::resolve::spec_ordinal_pass;
use crate::resolve::spec_outputs;
use crate::resolve::spec_resolve;
use crate::resolve::spec_resolve_loop;
use crate::resolve::spec_step;
use crate::resolve::spec_take_value;
use crate::resolve::spec_validate;
use crate::text::eq_index_from;
use crate::text::lemma_split_eq_concat;

verus! {

// --- defaults ---

proof fn lemma_outputs_contains_from(
    specs: Seq<ArgumentModel>,
    values: Seq<Seq<Seq<char>>>,
    j: int,
    k: int,
)
    requires
        0 <= j <= k < specs.len(),
        values.len() == specs.len(),
        values[k].len() == 0,
        common_of(specs[k]).default is Some,
    ensures
        spec_outputs(specs, values, j).contains(
            (common_of(specs[k]).name, seq![common_of(specs[k]).default->0]),
        ),
    decreases k - j,
{
    let e = (common_of(specs[k]).name, seq![common_of(specs[k]).default->0]);
    if j == k {
        let restof = spec_outputs(specs, values, j + 1);
        assert(spec_outputs(specs, values, j) == seq![e] + restof);
        assert((seq![e] + restof)[0] == e);
        assert(spec_outputs(specs, values, j).contains(e));
    } else {
        lemma_outputs_contains_from(specs, values, j + 1, k);
        let restof = spec_outputs(specs, values, j + 1);
        let idx = choose|idx: int| 0 <= idx < restof.len() && restof[idx] == e;
        let c = common_of(specs[j]);
        if values[j].len() > 0 {
            assert((seq![(c.name, values[j])] + restof)[1 + idx] == e);
        } else {
            match c.default {
                Some(d) => {
                    assert((seq![(c.name, seq![d])] + restof)[1 + idx] == e);
                },
                None => {},
            }
        }
    }
}

/// A specification with a default that resolved no value at all is mapped to
/// exactly its default, as the sole value, in the final output.
pub proof fn lemma_default_applies(
    specs: Seq<ArgumentModel>,
    values: Seq<Seq<Seq<char>>>,
    k: int,
)
    requires
        0 <= k < specs.len(),
        values.len() == specs.len(),
        values[k].len() == 0,
        common_of(specs[k]).default is Some,
    ensures
        spec_outputs(specs, values, 0).contains(
            (common_of(specs[k]).name, seq![common_of(specs[k]).default->0]),
        ),
{
    lemma_outputs_contains_from(specs, values, 0, k);
}

// --- booleans ---

/// Offering a boolean specification one of its bare flags yields `true`,
/// without touching the queue.
pub proof fn lemma_boolean_bare_flag(
    common: CommonModel,
    negs: Seq<Seq<char>>,
    flag: Seq<char>,
    queue: Seq<Seq<char>>,
)
    requires
        common.flags.contains(flag),
        eq_index_from(flag, 0) is None,
    ensures
        spec_consume(ArgumentModel::Boolean { common, negative_flags: negs }, Some(flag), queue)
            == (ConsumeOut::Matched { value: "true"@, used: 0 as int }),
{
    assert(spec_flag_match(common.flags, Some(flag)) == MatchModel::MatchWithoutValue);
}

/// Offering a boolean specification `flag=value` yields the boolean literal
/// itself — `true` or `false` — and fails with a user error naming the value
/// and the specification when the value is neither.
pub proof fn lemma_boolean_eq_value(
    common: CommonModel,
    negs: Seq<Seq<char>>,
    flag: Seq<char>,
    v: Seq<char>,
    queue: Seq<Seq<char>>,
)
    requires
        common.flags.contains(flag),
        eq_index_from(flag, 0) is None,
    ensures
        spec_consume(
            ArgumentModel::Boolean { common, negative_flags: negs },
            Some(flag + seq!['='] + v),
            queue,
        ) == (match spec_bool_lit(v) {
            Some(true) => ConsumeOut::Matched { value: "true"@, used: 0 as int },
            Some(false) => ConsumeOut::Matched { value: "false"@, used: 0 as int },
            None => ConsumeOut::Failed(UserErrModel::NonBooleanValue { name: common.name, value: v }),
        }),
{
    lemma_split_eq_concat(flag, v);
    assert(spec_flag_match(common.flags, Some(flag + seq!['='] + v)) == MatchModel::MatchWithValue(
        flag,
        v,
    ));
}

// --- choices ---

/// Resolving a choice value that first matches an alias entry yields the
/// alias's canonical target, not the literal typed.
pub proof fn lemma_choice_alias(
    options: Seq<(Seq<char>, OptionModel)>,
    k: int,
    v: Seq<char>,
    to: Seq<char>,
)
    requires
        0 <= k < options.len(),
        options[k] == (v, OptionModel::Mapping(to)),
        forall|j: int| 0 <= j < k ==> options[j].0 != v,
    ensures
        spec_choice_lookup(options, v) == Some(to),
    decreases k,
{
    if k == 0 {
        assert(spec_choice_lookup(options, v) == Some(to));
    } else {
        assert(options[0].0 != v);
        lemma_choice_alias(options.drop_first(), k - 1, v, to);
    }
}

// --- tokens no specification absorbs ---

proof fn lemma_catch_all_pass_none(
    specs: Seq<ArgumentModel>,
    k: int,
    values: Seq<Seq<Seq<char>>>,
)
    requires
        forall|x: int| 0 <= x < specs.len() ==> !common_of(specs[x]).catch_all,
    ensures
        spec_catch_all_pass(specs, k, values) is None,
    decreases specs.len() - k,
{
    if 0 <= k < specs.len() {
        lemma_catch_all_pass_none(specs, k + 1, values);
    }
}

/// With no catch-all specification declared, a token that matches no flag
/// and no ordinal always fails resolution as an extra argument, regardless
/// of its content.
pub proof fn lemma_no_catch_all_extra(
    specs: Seq<ArgumentModel>,
    values: Seq<Seq<Seq<char>>>,
    t: Seq<char>,
    rest: Seq<Seq<char>>,
    ordinal: int,
)
    requires
        forall|x: int| 0 <= x < specs.len() ==> !common_of(specs[x]).catch_all,
        spec_flag_pass(specs, 0, t, rest) == Ok::<Option<(int, Seq<char>, int)>, UserErrModel>(
            None,
        ),
        spec_ordinal_pass(specs, 0, ordinal) is None,
    ensures
        spec_step(specs, values, t, rest, ordinal) == Err::<(int, Seq<char>, int, int), UserErrModel>(
            UserErrModel::ExtraArgument { token: t },
        ),
{
    lemma_catch_all_pass_none(specs, 0, values);
}

/// With no specifications at all, any non-empty runtime token sequence fails
/// resolution at its first token, regardless of content.
pub proof fn lemma_no_specs_extra(tokens: Seq<Seq<char>>)
    requires
        tokens.len() > 0,
    ensures
        spec_resolve(Seq::empty(), tokens) == Err::<Seq<Seq<Seq<char>>>, UserErrModel>(
            UserErrModel::ExtraArgument { token: tokens[0] },
        ),
{
    let specs = Seq::<ArgumentModel>::empty();
    let values = spec_empty_values(0);
    let rest = tokens.drop_first();
    assert(spec_flag_pass(specs, 0, tokens[0], rest) == Ok::<
        Option<(int, Seq<char>, int)>,
        UserErrModel,
    >(None));
    assert(spec_ordinal_pass(specs, 0, 0) is None);
    assert(spec_catch_all_pass(specs, 0, values) is None);
}

// --- ordinal order ---

/// Ordinal resolution is order-stable: with `a` bound to ordinal 0 and `b`
/// to ordinal 1, declared in that order, two runtime tokens that match no
/// flags resolve the first to `a` and the second to `b`, each coerced by its
/// own specification.
pub proof fn lemma_ordinal_order(
    a: ArgumentModel,
    b: ArgumentModel,
    x: Seq<char>,
    y: Seq<char>,
    va: Seq<char>,
    vb: Seq<char>,
)
    requires
        common_of(a).ordinals.contains(0u16),
        !common_of(a).ordinals.contains(1u16),
        common_of(b).ordinals.contains(1u16),
        spec_consume(a, Some(x), seq![y]) == ConsumeOut::NoMatch,
        spec_consume(b, Some(x), seq![y]) == ConsumeOut::NoMatch,
        spec_consume(a, Some(y), Seq::empty()) == ConsumeOut::NoMatch,
        spec_consume(b, Some(y), Seq::empty()) == ConsumeOut::NoMatch,
        spec_take_value(a, x) == Ok::<Seq<char>, UserErrModel>(va),
        spec_take_value(b, y) == Ok::<Seq<char>, UserErrModel>(vb),
    ensures
        spec_resolve(seq![a, b], seq![x, y]) == Ok::<Seq<Seq<Seq<char>>>, UserErrModel>(
            seq![seq![va], seq![vb]],
        ),
{
    let specs = seq![a, b];
    let values0 = spec_empty_values(2);
    let tokens = seq![x, y];
    let rest1 = tokens.drop_first();
    assert(rest1 =~= seq![y]);

    assert(specs.len() == 2);
    assert(specs[0] == a);
    assert(specs[1] == b);

    // first token: the flag pass declines, ordinal 0 selects `a`
    assert(spec_flag_pass(specs, 2, x, rest1) == Ok::<
        Option<(int, Seq<char>, int)>,
        UserErrModel,
    >(None));
    assert(spec_flag_pass(specs, 1, x, rest1) == Ok::<
        Option<(int, Seq<char>, int)>,
        UserErrModel,
    >(None));
    assert(spec_flag_pass(specs, 0, x, rest1) == Ok::<
        Option<(int, Seq<char>, int)>,
        UserErrModel,
    >(None));
    assert(spec_ordinal_pass(specs, 0, 0) == Some(0int));
    assert(spec_step(specs, values0, x, rest1, 0) == Ok::<
        (int, Seq<char>, int, int),
        UserErrModel,
    >((0int, va, 0int, 1int)));

    let values1 = values0.update(0, values0[0].push(va));
    assert(rest1.skip(0) =~= seq![y]);
    assert(spec_resolve_loop(specs, values0, tokens, 0) == spec_resolve_loop(
        specs,
        values1,
        seq![y],
        1,
    ));

    // second token: the flag pass declines, ordinal 1 skips `a` and selects `b`
    let rest2 = seq![y].drop_first();
    assert(rest2 =~= Seq::<Seq<char>>::empty());
    assert(spec_consume(a, Some(y), rest2) == ConsumeOut::NoMatch);
    assert(spec_consume(b, Some(y), rest2) == ConsumeOut::NoMatch);
    assert(spec_flag_pass(specs, 2, y, rest2) == Ok::<
        Option<(int, Seq<char>, int)>,
        UserErrModel,
    >(None));
    assert(spec_flag_pass(specs, 1, y, rest2) == Ok::<
        Option<(int, Seq<char>, int)>,
        UserErrModel,
    >(None));
    assert(spec_flag_pass(specs, 0, y, rest2) == Ok::<
        Option<(int, Seq<char>, int)>,
        UserErrModel,
    >(None));
    assert(spec_ordinal_pass(specs, 1, 1) == Some(1int));
    assert(spec_ordinal_pass(specs, 0, 1) == Some(1int));
    assert(spec_step(specs, values1, y, rest2, 1) == Ok::<
        (int, Seq<char>, int, int),
        UserErrModel,
    >((1int, vb, 0int, 2int)));

    let values2 = values1.update(1, values1[1].push(vb));
    assert(rest2.skip(0) =~= Seq::<Seq<char>>::empty());
    assert(spec_resolve_loop(specs, values1, seq![y], 1) == spec_resolve_loop(
        specs,
        values2,
        Seq::empty(),
        2,
    ));
    assert(spec_resolve_loop(specs, values2, Seq::empty(), 2) == Ok::<
        Seq<Seq<Seq<char>>>,
        UserErrModel,
    >(values2));
    assert(values2 =~~= seq![seq![va], seq![vb]]);
}

// --- accumulation and multiplicity ---

/// Resolution only appends: every value list a resolution run starts from is
/// a prefix of the corresponding list in its result, so values accumulate in
/// arrival order and are never reordered or dropped.
pub proof fn lemma_resolve_preserves_prefix(
    specs: Seq<ArgumentModel>,
    values: Seq<Seq<Seq<char>>>,
    tokens: Seq<Seq<char>>,
    ordinal: int,
    k: int,
)
    requires
        values.len() == specs.len(),
        0 <= k < values.len(),
    ensures
        match spec_resolve_loop(specs, values, tokens, ordinal) {
            Ok(res) => res.len() == values.len() && values[k].len() <= res[k].len() && res[k].take(
                values[k].len() as int,
            ) == values[k],
            Err(_) => true,
        },
    decreases tokens.len(),
{
    if tokens.len() > 0 {
        let t = tokens[0];
        let rest = tokens.drop_first();
        lemma_step_bounds(specs, values, t, rest, ordinal);
        match spec_step(specs, values, t, rest, ordinal) {
            Err(_) => {},
            Ok(out) => {
                let values2 = values.update(out.0, values[out.0].push(out.1));
                lemma_resolve_preserves_prefix(specs, values2, rest.skip(out.2), out.3, k);
                assert(values2[k].take(values[k].len() as int) =~= values[k]);
                match spec_resolve_loop(specs, values2, rest.skip(out.2), out.3) {
                    Err(_) => {},
                    Ok(res) => {
                        assert(res[k].take(values[k].len() as int) =~= values[k]);
                    },
                }
            },
        }
    }
}

/// A specification that is not repeated and resolved more than one value
/// fails validation, even though resolution itself succeeded.
pub proof fn lemma_multiple_values_fail(
    specs: Seq<ArgumentModel>,
    values: Seq<Seq<Seq<char>>>,
    j: int,
    k: int,
)
    requires
        0 <= j <= k < specs.len(),
        values.len() == specs.len(),
        values[k].len() > 1,
        !common_of(specs[k]).repeated,
    ensures
        spec_validate(specs, values, j) is Err,
    decreases k - j,
{
    let c = common_of(specs[j]);
    if values[j].len() > 1 && !c.repeated {
    } else if values[j].len() == 0 && c.required {
    } else {
        lemma_multiple_values_fail(specs, values, j + 1, k);
    }
}

} // verus!
