use argparse_sh::errors::UserError;
use argparse_sh::resolve::parse_argument_values;
use argparse_sh::resolve::resolve_arguments;
use argparse_sh::resolve::validate_argument_values;
use argparse_sh::settings::parse_settings;
use argparse_sh::settings::wants_help;
use argparse_sh::settings::Settings;

fn toks(parts: &[&str]) -> Vec<String> {
    parts.iter().map(|p| p.to_string()).collect()
}

fn parse(parts: &[&str]) -> Settings {
    parse_settings(&toks(parts), 80).expect("definition should parse")
}

fn entry(name: &str, values: &[&str]) -> (String, Vec<String>) {
    (name.to_string(), values.iter().map(|v| v.to_string()).collect())
}

const P7_DEF: &[&str] = &[
    "--bool", "verbose", "v", "--int", "count", "c", "--default", "1", "--choice", "mode", "m",
    "--option", "fast", "--option", "slow", "--default", "slow",
];

fn p7_settings(runtime: &[&str]) -> Settings {
    let mut def: Vec<&str> = P7_DEF.to_vec();
    def.push("--");
    def.extend_from_slice(runtime);
    parse(&def)
}

#[test]
fn end_to_end_flags_and_defaults() {
    let settings = p7_settings(&["-v", "--count=5"]);
    let out = resolve_arguments(&settings).expect("resolution should succeed");
    assert_eq!(
        out,
        vec![
            entry("VERBOSE", &["true"]),
            entry("COUNT", &["5"]),
            entry("MODE", &["slow"]),
        ]
    );
}

#[test]
fn end_to_end_unknown_choice_value() {
    let settings = p7_settings(&["--mode=turbo"]);
    let err = resolve_arguments(&settings).expect_err("turbo is not a mode");
    assert!(matches!(
        err,
        UserError::UnknownChoiceValue { ref name, ref value } if name == "MODE" && value == "turbo"
    ));
}

#[test]
fn resolution_is_repeatable_on_identical_inputs() {
    let settings = p7_settings(&["--count", "7"]);
    let first = resolve_arguments(&settings).expect("resolution should succeed");
    let second = resolve_arguments(&settings).expect("resolution should succeed");
    assert_eq!(first, second);
    assert_eq!(
        first,
        vec![entry("COUNT", &["7"]), entry("MODE", &["slow"])]
    );
}

#[test]
fn default_used_only_without_runtime_value() {
    let settings = parse(&["--int", "count", "--default", "42", "--"]);
    let out = resolve_arguments(&settings).expect("resolution should succeed");
    assert_eq!(out, vec![entry("COUNT", &["42"])]);

    let settings = parse(&["--int", "count", "--default", "42", "--", "--count", "3"]);
    let out = resolve_arguments(&settings).expect("resolution should succeed");
    assert_eq!(out, vec![entry("COUNT", &["3"])]);
}

#[test]
fn absent_without_default_is_omitted() {
    let settings = parse(&["--string", "title", "--"]);
    let out = resolve_arguments(&settings).expect("resolution should succeed");
    assert_eq!(out, Vec::<(String, Vec<String>)>::new());
}

#[test]
fn boolean_bare_flag_yields_true() {
    let settings = parse(&["--bool", "verbose", "--", "--verbose"]);
    let out = resolve_arguments(&settings).expect("resolution should succeed");
    assert_eq!(out, vec![entry("VERBOSE", &["true"])]);
}

#[test]
fn boolean_inline_false_yields_false() {
    let settings = parse(&["--bool", "verbose", "--", "--verbose=false"]);
    let out = resolve_arguments(&settings).expect("resolution should succeed");
    assert_eq!(out, vec![entry("VERBOSE", &["false"])]);
}

#[test]
fn boolean_non_boolean_value_fails() {
    let settings = parse(&["--bool", "verbose", "--", "--verbose=notabool"]);
    let err = resolve_arguments(&settings).expect_err("notabool is not a boolean");
    assert!(matches!(
        err,
        UserError::NonBooleanValue { ref name, ref value }
            if name == "VERBOSE" && value == "notabool"
    ));
}

#[test]
fn boolean_negative_flag_yields_false() {
    let settings = parse(&["--bool", "verbose", "--negative-flag", "--quiet", "--", "--quiet"]);
    let out = resolve_arguments(&settings).expect("resolution should succeed");
    assert_eq!(out, vec![entry("VERBOSE", &["false"])]);
}

#[test]
fn choice_alias_resolves_to_canonical_value() {
    let settings = parse(&[
        "--choice", "mode", "--map", "quick", "fast", "--option", "fast", "--", "--mode", "quick",
    ]);
    let out = resolve_arguments(&settings).expect("resolution should succeed");
    assert_eq!(out, vec![entry("MODE", &["fast"])]);
}

#[test]
fn choice_literal_resolves_to_itself() {
    let settings = parse(&[
        "--choice", "mode", "--map", "quick", "fast", "--option", "slow", "--", "--mode", "slow",
    ]);
    let out = resolve_arguments(&settings).expect("resolution should succeed");
    assert_eq!(out, vec![entry("MODE", &["slow"])]);
}

#[test]
fn extra_token_without_catch_all_fails() {
    let settings = parse(&["--int", "count", "--", "stray"]);
    let err = resolve_arguments(&settings).expect_err("no spec absorbs the token");
    assert!(matches!(
        err,
        UserError::ExtraArgument { ref token } if token == "stray"
    ));
}

#[test]
fn extra_token_fails_regardless_of_content() {
    for stray in ["x", "--", "=", "12.5", ""] {
        let settings = parse(&["--int", "count", "--", stray]);
        assert!(matches!(
            resolve_arguments(&settings),
            Err(UserError::ExtraArgument { .. })
        ));
    }
}

#[test]
fn ordinals_resolve_in_order() {
    let settings = parse(&[
        "--string", "--name", "A", "--ordinal", "0", "--string", "--name", "B", "--ordinal", "1",
        "--", "x", "y",
    ]);
    let out = resolve_arguments(&settings).expect("resolution should succeed");
    assert_eq!(out, vec![entry("A", &["x"]), entry("B", &["y"])]);
}

#[test]
fn ordinal_counter_ignores_flag_matches() {
    // the flag match in between does not advance the ordinal counter
    let settings = parse(&[
        "--string", "--name", "A", "--ordinal", "0", "--string", "--name", "B", "--ordinal", "1",
        "--int", "count", "--", "x", "--count", "9", "y",
    ]);
    let out = resolve_arguments(&settings).expect("resolution should succeed");
    assert_eq!(
        out,
        vec![entry("A", &["x"]), entry("B", &["y"]), entry("COUNT", &["9"])]
    );
}

#[test]
fn repeated_spec_accumulates_in_arrival_order() {
    let settings = parse(&["--string", "item", "i", "--repeated", "--", "-i", "a", "-i", "b"]);
    let out = resolve_arguments(&settings).expect("resolution should succeed");
    assert_eq!(out, vec![entry("ITEM", &["a", "b"])]);
}

#[test]
fn two_values_without_repeated_fail_validation_after_resolution() {
    let settings = parse(&["--string", "item", "i", "--", "-i", "a", "-i", "b"]);
    // resolution itself succeeds and keeps both values in arrival order
    let values = parse_argument_values(&settings).expect("resolution should succeed");
    assert_eq!(values, vec![vec!["a".to_string(), "b".to_string()]]);
    // validation then rejects the multiplicity
    let err = validate_argument_values(&settings, &values).expect_err("item is not repeated");
    assert!(matches!(
        err,
        UserError::MultipleValues { ref name } if name == "ITEM"
    ));
}

#[test]
fn required_spec_without_value_fails() {
    let settings = parse(&["--string", "title", "--required", "--"]);
    let err = resolve_arguments(&settings).expect_err("title is required");
    assert!(matches!(
        err,
        UserError::MissingArgument { ref name } if name == "TITLE"
    ));
}

#[test]
fn bare_flag_without_value_fails() {
    let settings = parse(&["--int", "count", "--", "--count"]);
    let err = resolve_arguments(&settings).expect_err("the value is missing");
    assert!(matches!(
        err,
        UserError::NoValueForArgument { ref name } if name == "COUNT"
    ));
}

#[test]
fn catch_all_absorbs_unmatched_tokens() {
    let settings = parse(&["--string", "rest", "--catch-all", "--repeated", "--", "a", "b"]);
    let out = resolve_arguments(&settings).expect("resolution should succeed");
    assert_eq!(out, vec![entry("REST", &["a", "b"])]);
}

#[test]
fn non_repeated_catch_all_absorbs_only_once() {
    let settings = parse(&["--string", "rest", "--catch-all", "--", "a", "b"]);
    let err = resolve_arguments(&settings).expect_err("the catch-all is already filled");
    assert!(matches!(
        err,
        UserError::ExtraArgument { ref token } if token == "b"
    ));
}

#[test]
fn flag_value_from_queue() {
    let settings = parse(&["--string", "title", "--", "--title", "hello world"]);
    let out = resolve_arguments(&settings).expect("resolution should succeed");
    assert_eq!(out, vec![entry("TITLE", &["hello world"])]);
}

#[test]
fn inline_value_keeps_later_equals_signs() {
    let settings = parse(&["--string", "expr", "--", "--expr=a=b=c"]);
    let out = resolve_arguments(&settings).expect("resolution should succeed");
    assert_eq!(out, vec![entry("EXPR", &["a=b=c"])]);
}

#[test]
fn help_request_is_detected() {
    let settings = parse(&["--autohelp", "--int", "count", "--", "--help"]);
    assert!(wants_help(&settings));
    let settings = parse(&["--int", "count", "--", "--help"]);
    assert!(!wants_help(&settings));
    let settings = parse(&["--autohelp", "--int", "count", "--", "--help", "x"]);
    assert!(!wants_help(&settings));
}

#[test]
fn empty_definition_and_runtime() {
    let settings = parse(&[]);
    assert!(settings.arguments.is_empty());
    let out = resolve_arguments(&settings).expect("nothing to resolve");
    assert_eq!(out, Vec::<(String, Vec<String>)>::new());
}
