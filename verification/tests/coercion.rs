use argparse_sh::common::fix_name;
use argparse_sh::errors::UserError;
use argparse_sh::numbers::is_float_literal;
use argparse_sh::numbers::parse_bool_lit;
use argparse_sh::numbers::parse_i64;
use argparse_sh::numbers::i64_to_string;
use argparse_sh::resolve::resolve_arguments;
use argparse_sh::settings::parse_settings;
use argparse_sh::settings::Settings;

fn toks(parts: &[&str]) -> Vec<String> {
    parts.iter().map(|p| p.to_string()).collect()
}

fn parse(parts: &[&str]) -> Settings {
    parse_settings(&toks(parts), 80).expect("definition should parse")
}

fn entry(name: &str, values: &[&str]) -> (String, Vec<String>) {
    (name.to_string(), values.iter().map(|v| v.to_string()).collect())
}

#[test]
fn integer_values_are_canonicalized() {
    let settings = parse(&["--int", "count", "--", "--count=+007"]);
    let out = resolve_arguments(&settings).expect("resolution should succeed");
    assert_eq!(out, vec![entry("COUNT", &["7"])]);

    let settings = parse(&["--int", "count", "--", "--count", "-12"]);
    let out = resolve_arguments(&settings).expect("resolution should succeed");
    assert_eq!(out, vec![entry("COUNT", &["-12"])]);
}

#[test]
fn non_integer_values_fail() {
    for bad in ["abc", "1.5", "", "-", "9223372036854775808"] {
        let settings = parse(&["--int", "count", "--", &format!("--count={bad}")]);
        let err = resolve_arguments(&settings).expect_err("not a 64-bit integer");
        assert!(matches!(
            err,
            UserError::NonIntegerValue { ref name, ref value }
                if name == "COUNT" && value == bad
        ));
    }
}

#[test]
fn integer_extremes_round_trip() {
    let settings = parse(&["--int", "count", "--", "--count=-9223372036854775808"]);
    let out = resolve_arguments(&settings).expect("the minimum fits");
    assert_eq!(out, vec![entry("COUNT", &["-9223372036854775808"])]);
}

#[test]
fn float_values_pass_through_when_well_formed() {
    for good in ["1.5", "-0.25", ".5", "5.", "1e3", "2.5E-4", "inf", "-Infinity", "nan", "+7"] {
        let settings = parse(&["--float", "ratio", "--", &format!("--ratio={good}")]);
        let out = resolve_arguments(&settings).expect("a float literal");
        assert_eq!(out, vec![entry("RATIO", &[good])]);
    }
}

#[test]
fn non_float_values_fail() {
    for bad in ["abc", "", ".", "1.2.3", "1e", "e5", "--5", "in", "5x"] {
        let settings = parse(&["--float", "ratio", "--", "--ratio", bad]);
        let err = resolve_arguments(&settings).expect_err("not a float literal");
        assert!(matches!(
            err,
            UserError::NonNumericValue { ref name, ref value }
                if name == "RATIO" && value == bad
        ));
    }
}

#[test]
fn float_recognizer_agrees_with_std() {
    for s in [
        "1.5", "-0.25", ".5", "5.", "1e3", "2.5E-4", "inf", "-Infinity", "nan", "+7", "abc", "",
        ".", "1.2.3", "1e", "e5", "--5", "in", "5x", "+.e1", "+.5e1", "0x10",
    ] {
        assert_eq!(
            is_float_literal(&s.to_string()),
            s.parse::<f64>().is_ok(),
            "disagreement on {s:?}"
        );
    }
}

#[test]
fn integer_parser_agrees_with_std() {
    for s in [
        "0", "+07", "-12", "9223372036854775807", "-9223372036854775808",
        "9223372036854775808", "abc", "", "-", "+", "1_000", " 5",
    ] {
        assert_eq!(parse_i64(&s.to_string()), s.parse::<i64>().ok(), "disagreement on {s:?}");
    }
    assert_eq!(i64_to_string(-40), "-40");
    assert_eq!(i64_to_string(0), "0");
}

#[test]
fn boolean_literals_are_exact() {
    assert_eq!(parse_bool_lit(&"true".to_string()), Some(true));
    assert_eq!(parse_bool_lit(&"false".to_string()), Some(false));
    assert_eq!(parse_bool_lit(&"True".to_string()), None);
    assert_eq!(parse_bool_lit(&"1".to_string()), None);
    assert_eq!(parse_bool_lit(&"".to_string()), None);
}

#[test]
fn fix_name_collapses_runs_and_uppercases() {
    assert_eq!(fix_name(&"--units".to_string()), "UNITS");
    assert_eq!(fix_name(&"--my-file.path!".to_string()), "MY_FILE_PATH");
    assert_eq!(fix_name(&"-v".to_string()), "V");
    assert_eq!(fix_name(&"a1b2".to_string()), "A1B2");
    assert_eq!(fix_name(&"---".to_string()), "");
}

#[test]
fn debug_info_lists_the_attributes() {
    let settings = parse(&[
        "--int", "count", "c", "--default", "1", "--required", "--desc", "how many",
    ]);
    assert_eq!(
        settings.arguments[0].get_debug_info(),
        "type: Integer; name: COUNT; flags: --count, -c; required; default: 1; description: how many"
    );
}

#[test]
fn debug_info_lists_choice_options() {
    let settings = parse(&[
        "--choice", "mode", "--map", "quick", "fast", "--option", "slow",
    ]);
    assert_eq!(
        settings.arguments[0].get_debug_info(),
        "type: Choice; name: MODE; flags: --mode; options: quick -> fast, slow"
    );
}

#[test]
fn debug_info_shows_markers() {
    let settings = parse(&["--string", "rest", "--secret", "--repeated", "--catch-all"]);
    assert_eq!(
        settings.arguments[0].get_debug_info(),
        "type: String; name: REST; flags: --rest; repeated; secret; catch-all"
    );
}
