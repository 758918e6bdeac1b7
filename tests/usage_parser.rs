use sub::usage_parser::{parse_usage_line, ArgBase, ArgSpec, ParseError, UsageLang};

fn full_line() -> &'static str {
    "# Usage: {cmd} <name> <m2-_m> -f --long [opt] [-o] [--longopt] [--value=VALUE] [--exclusive=EXCLUSIVE]!"
}

fn full_expected() -> UsageLang {
    UsageLang {
        arguments: vec![
            ArgSpec { base: ArgBase::Positional("name".to_owned()), required: true, exclusive: false },
            ArgSpec { base: ArgBase::Positional("m2-_m".to_owned()), required: true, exclusive: false },
            ArgSpec { base: ArgBase::Short('f'), required: true, exclusive: false },
            ArgSpec { base: ArgBase::Long("long".to_owned(), None), required: true, exclusive: false },
            ArgSpec { base: ArgBase::Positional("opt".to_owned()), required: false, exclusive: false },
            ArgSpec { base: ArgBase::Short('o'), required: false, exclusive: false },
            ArgSpec { base: ArgBase::Long("longopt".to_owned(), None), required: false, exclusive: false },
            ArgSpec {
                base: ArgBase::Long("value".to_owned(), Some("VALUE".to_owned())),
                required: false,
                exclusive: false,
            },
            ArgSpec {
                base: ArgBase::Long("exclusive".to_owned(), Some("EXCLUSIVE".to_owned())),
                required: false,
                exclusive: true,
            },
        ],
        rest: None,
    }
}

fn rest_expected() -> UsageLang {
    UsageLang {
        arguments: vec![
            ArgSpec { base: ArgBase::Positional("name".to_owned()), required: true, exclusive: false },
            ArgSpec { base: ArgBase::Positional("opt".to_owned()), required: false, exclusive: false },
        ],
        rest: Some("rest".to_owned()),
    }
}

#[test]
fn usage_parser_parse_without_rest() {
    let result = parse_usage_line(full_line()).unwrap();
    assert_eq!(result, full_expected());
}

#[test]
fn usage_parser_parse_with_rest() {
    let input = "# Usage: {cmd} <name> [opt] [rest]...";
    let result = parse_usage_line(input).unwrap();
    assert_eq!(result, rest_expected());
}

#[test]
fn usage_parse_without_rest() {
    let result = parse_usage_line(full_line()).unwrap();
    assert_eq!(result, full_expected());
}

#[test]
fn usage_parse_with_rest() {
    let input = "# Usage: {cmd} <name> [opt] [rest]...";
    let result = parse_usage_line(input).unwrap();
    assert_eq!(result, rest_expected());
}

#[test]
fn empty_usage_line_has_no_arguments() {
    let result = parse_usage_line("# Usage: {cmd}").unwrap();
    assert_eq!(result, UsageLang { arguments: vec![], rest: None });
}

#[test]
fn padding_inside_brackets_is_accepted() {
    let result = parse_usage_line("  # Usage:   {cmd}   [ -o ]   < bad").unwrap_err();
    assert_eq!(result, vec![ParseError { position: 30, found: Some('<') }]);
    let ok = parse_usage_line("# Usage: {cmd} [ -o ] [ --x=Y ]").unwrap();
    assert_eq!(ok.arguments.len(), 2);
    assert_eq!(ok.arguments[1].base, ArgBase::Long("x".to_owned(), Some("Y".to_owned())));
}

#[test]
fn rest_followed_by_argument_fails() {
    let err = parse_usage_line("# Usage: {cmd} [rest]... <name>").unwrap_err();
    assert_eq!(err, vec![ParseError { position: 25, found: Some('<') }]);
    let err = parse_usage_line("# Usage: {cmd} [a]... [b]...").unwrap_err();
    assert_eq!(err.len(), 1);
    assert_eq!(err[0].position, 22);
}

#[test]
fn rest_followed_by_spaces_is_last() {
    let ok = parse_usage_line("# Usage: {cmd} [rest]...   ").unwrap();
    assert_eq!(ok.rest, Some("rest".to_owned()));
}

#[test]
fn exclusive_marker_only_once_and_only_on_optional() {
    assert!(parse_usage_line("# Usage: {cmd} [--all]!!").is_err());
    assert!(parse_usage_line("# Usage: {cmd} <name>!").is_err());
    assert!(parse_usage_line("# Usage: {cmd} --long!").is_err());
    let ok = parse_usage_line("# Usage: {cmd} [--all]! <name>").unwrap();
    assert!(ok.arguments[0].exclusive && !ok.arguments[0].required);
    assert!(!ok.arguments[1].exclusive && ok.arguments[1].required);
}

#[test]
fn argument_must_be_followed_by_space() {
    let err = parse_usage_line("# Usage: {cmd} <a><b>").unwrap_err();
    assert_eq!(err, vec![ParseError { position: 15, found: Some('<') }]);
    let err = parse_usage_line("# Usage: {cmd} -fx").unwrap_err();
    assert_eq!(err[0].position, 15);
}

#[test]
fn bare_name_outside_brackets_fails() {
    let err = parse_usage_line("# Usage: {cmd} name").unwrap_err();
    assert_eq!(err, vec![ParseError { position: 15, found: Some('n') }]);
}

#[test]
fn missing_prefix_and_cmd_are_reported() {
    let err = parse_usage_line("Usage: {cmd}").unwrap_err();
    assert_eq!(err, vec![ParseError { position: 0, found: Some('U') }]);
    let err = parse_usage_line("# Usage: cmd").unwrap_err();
    assert_eq!(err, vec![ParseError { position: 9, found: Some('c') }]);
    let err = parse_usage_line("# Usage:").unwrap_err();
    assert_eq!(err, vec![ParseError { position: 8, found: None }]);
}

#[test]
fn long_with_equals_but_no_value_fails() {
    assert!(parse_usage_line("# Usage: {cmd} [--x=]").is_err());
    assert!(parse_usage_line("# Usage: {cmd} [--x=lower]").is_err());
}

#[test]
fn non_ascii_letter_is_a_short_flag() {
    let ok = parse_usage_line("# Usage: {cmd} [-é]").unwrap();
    assert_eq!(ok.arguments[0].base, ArgBase::Short('é'));
    assert!(parse_usage_line("# Usage: {cmd} [-1]").is_err());
}
