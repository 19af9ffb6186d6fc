use argparse_sh::common::ArgumentCommon;
use argparse_sh::common::MatchResult;
use argparse_sh::errors::DefinitionError;
use argparse_sh::kinds::Argument;
use argparse_sh::kinds::BooleanArgument;
use argparse_sh::settings::check_unique_names;
use argparse_sh::settings::parse_settings;
use argparse_sh::settings::Settings;

fn toks(parts: &[&str]) -> Vec<String> {
    parts.iter().map(|p| p.to_string()).collect()
}

fn parse(parts: &[&str]) -> Settings {
    parse_settings(&toks(parts), 80).expect("definition should parse")
}

fn parse_err(parts: &[&str]) -> DefinitionError {
    parse_settings(&toks(parts), 80).expect_err("definition should be rejected")
}

#[test]
fn flags_and_names_are_recorded() {
    let settings = parse(&["--int", "count", "c", "--name", "TOTAL", "--desc", "how many"]);
    assert_eq!(settings.arguments.len(), 1);
    let a = &settings.arguments[0];
    assert_eq!(a.get_name(), "TOTAL");
    assert_eq!(
        a.get_common().get_all_flags(),
        &vec!["--count".to_string(), "-c".to_string()]
    );
    assert_eq!(a.get_description().as_deref(), Some("how many"));
}

#[test]
fn name_derived_from_first_flag() {
    let settings = parse(&["--string", "my-file.path!"]);
    assert_eq!(settings.arguments[0].get_name(), "MY_FILE_PATH");
    assert_eq!(
        settings.arguments[0].get_common().get_all_flags(),
        &vec!["--my-file.path!".to_string()]
    );
}

#[test]
fn single_character_token_gets_short_marker() {
    let settings = parse(&["--bool", "verbose", "v"]);
    assert_eq!(
        settings.arguments[0].get_common().get_all_flags(),
        &vec!["--verbose".to_string(), "-v".to_string()]
    );
}

#[test]
fn explicit_flag_is_recorded_verbatim() {
    let settings = parse(&["--string", "--name", "OUT", "--flag", "-o"]);
    assert_eq!(
        settings.arguments[0].get_common().get_all_flags(),
        &vec!["-o".to_string()]
    );
}

#[test]
fn markers_set_their_attributes() {
    let settings = parse(&[
        "--string", "item", "--required", "--secret", "--repeat", "--ordinal", "3", "--ord", "7",
    ]);
    let c = settings.arguments[0].get_common();
    assert!(c.get_required());
    assert!(c.get_secret());
    assert!(c.get_repeated());
    assert!(!c.get_catch_all());
    assert_eq!(c.get_ordinals(), &vec![3u16, 7u16]);
}

#[test]
fn global_settings_are_recorded() {
    let settings = parse(&[
        "--autohelp", "--export", "--debug", "--prefix", "ARG_", "--columns", "120",
        "--program-name", "demo", "--program-summary", "a demo", "--program-description", "longer",
        "--help-function", "show_help", "--", "rest",
    ]);
    assert!(settings.auto_help);
    assert!(settings.export);
    assert!(settings.debug);
    assert_eq!(settings.prefix.as_deref(), Some("ARG_"));
    assert_eq!(settings.columns, 120);
    assert_eq!(settings.program_name.as_deref(), Some("demo"));
    assert_eq!(settings.program_summary.as_deref(), Some("a demo"));
    assert_eq!(settings.program_description.as_deref(), Some("longer"));
    assert_eq!(settings.help_function.as_deref(), Some("show_help"));
    assert_eq!(settings.remaining_args, vec!["rest".to_string()]);
}

#[test]
fn default_columns_kept_without_override() {
    let settings = parse_settings(&toks(&["--int", "count"]), 132).expect("should parse");
    assert_eq!(settings.columns, 132);
}

#[test]
fn unrecognized_top_level_token_is_rejected() {
    let err = parse_err(&["--int", "count", "--bogus-marker"]);
    // the unknown token ends the integer's attributes and reaches the top level
    assert!(matches!(
        err,
        DefinitionError::UnrecognizedOption { ref token } if token == "--bogus-marker"
    ));
}

#[test]
fn missing_attribute_values_are_rejected() {
    let err = parse_err(&["--int", "count", "--default"]);
    assert!(matches!(
        err,
        DefinitionError::MissingAttributeValue { ref attribute } if attribute == "--default"
    ));
    let err = parse_err(&["--choice", "mode", "--map", "only-from"]);
    assert!(matches!(
        err,
        DefinitionError::MissingAttributeValue { ref attribute } if attribute == "--map"
    ));
    let err = parse_err(&["--columns"]);
    assert!(matches!(
        err,
        DefinitionError::MissingAttributeValue { ref attribute } if attribute == "--columns"
    ));
}

#[test]
fn bad_ordinal_positions_are_rejected() {
    let err = parse_err(&["--string", "item", "--ordinal", "70000"]);
    assert!(matches!(
        err,
        DefinitionError::InvalidOrdinal { ref value } if value == "70000"
    ));
    let err = parse_err(&["--string", "item", "--ordinal", "zero"]);
    assert!(matches!(err, DefinitionError::InvalidOrdinal { .. }));
}

#[test]
fn ordinal_boundary_value_is_accepted() {
    let settings = parse(&["--string", "item", "--ordinal", "65535", "--ord", "+0"]);
    assert_eq!(
        settings.arguments[0].get_common().get_ordinals(),
        &vec![65535u16, 0u16]
    );
}

#[test]
fn bad_column_count_is_rejected() {
    let err = parse_err(&["--cols", "wide"]);
    assert!(matches!(
        err,
        DefinitionError::InvalidColumns { ref value } if value == "wide"
    ));
}

#[test]
fn spec_without_name_or_flags_is_rejected() {
    let err = parse_err(&["--string", "--required"]);
    assert!(matches!(err, DefinitionError::NoNameOrFlags));
}

#[test]
fn spec_that_can_never_be_set_is_rejected() {
    let err = parse_err(&["--string", "--name", "FOO"]);
    assert!(matches!(
        err,
        DefinitionError::NotSettable { ref name } if name == "FOO"
    ));
}

#[test]
fn boolean_restrictions_are_rejected() {
    let err = parse_err(&["--bool", "verbose", "--repeated"]);
    assert!(matches!(
        err,
        DefinitionError::BooleanRepeated { ref name } if name == "VERBOSE"
    ));
    let err = parse_err(&["--bool", "verbose", "--catch-all"]);
    assert!(matches!(err, DefinitionError::BooleanCatchAll { .. }));
    let err = parse_err(&["--bool", "verbose", "--ordinal", "0"]);
    assert!(matches!(err, DefinitionError::BooleanOrdinal { .. }));
}

#[test]
fn duplicate_names_are_detected() {
    let settings = parse(&["--int", "count", "--string", "count"]);
    let err = check_unique_names(&settings.arguments).expect_err("count is declared twice");
    assert!(matches!(
        err,
        DefinitionError::DuplicateName { ref name } if name == "COUNT"
    ));
    let settings = parse(&["--int", "count", "--string", "title"]);
    assert!(check_unique_names(&settings.arguments).is_ok());
}

#[test]
fn check_flag_match_distinguishes_the_three_cases() {
    let settings = parse(&["--int", "count", "c"]);
    let c: &ArgumentCommon = settings.arguments[0].get_common();
    assert!(matches!(
        c.check_flag_match(Some("--count".to_string())),
        MatchResult::MatchWithoutValue
    ));
    assert!(matches!(
        c.check_flag_match(Some("--count=5".to_string())),
        MatchResult::MatchWithValue(ref name, ref value) if name == "--count" && value == "5"
    ));
    assert!(matches!(
        c.check_flag_match(Some("--other".to_string())),
        MatchResult::NoMatch
    ));
    assert!(matches!(
        c.check_flag_match(None),
        MatchResult::MatchWithoutValue
    ));
}

#[test]
fn boolean_new_stops_at_foreign_marker() {
    let tokens = toks(&["verbose", "--negative-flag", "--quiet", "--int"]);
    let (b, end) = BooleanArgument::new(&tokens, 0).expect("boolean should parse");
    assert_eq!(end, 3);
    assert_eq!(b.get_common().get_all_flags(), &vec!["--verbose".to_string()]);
}

#[test]
fn choice_option_description_not_starting_with_dash_is_consumed() {
    let settings = parse(&[
        "--choice", "mode", "--option", "fast", "the quick one", "--option", "slow",
    ]);
    match &settings.arguments[0] {
        Argument::Choice(c) => {
            let opts = c.get_all_options();
            assert_eq!(opts.len(), 2);
            assert_eq!(opts[0].0, "fast");
            assert_eq!(opts[1].0, "slow");
        },
        _ => panic!("expected a choice specification"),
    }
}
