use sub::completion::CompletionType;
use sub::error::Error;
use sub::script::{extract_options, extract_usage, parse_script, Script};
use sub::usage_parser::{parse_usage_line, ArgBase};

fn lines(text: &str) -> Vec<String> {
    text.lines().map(|l| l.to_owned()).collect()
}

#[test]
fn test_magic_module_integration() {
    let test_script_content = r#"#!/usr/bin/env bash
#
# Summary: Test script for magic module
#
# Usage: {cmd} <name> [--verbose] [--count=COUNT]
#
# Options:
#   name: The name to greet
#   verbose: Enable verbose output
#   count (script): Number of times to greet
#
# This is a test script for the magic module.
# It demonstrates how the magic module can parse
# script metadata and usage information.

echo "Hello, $1!"
"#;
    let path = "/tmp/test_magic_script.sh".to_owned();
    let script = parse_script(&path, &lines(test_script_content)).unwrap();

    assert_eq!(script.metadata.summary, Some("Test script for magic module".to_string()));
    assert!(script.metadata.description.is_some());
    assert_eq!(script.metadata.provides_completions, false);

    assert!(script.usage.is_some());
    let usage = script.usage.as_ref().unwrap();
    assert_eq!(usage.arguments.len(), 3);
    assert_eq!(usage.rest, None);

    assert_eq!(script.options.len(), 3);
    assert_eq!(script.options[0].name, "name");
    assert_eq!(script.options[1].name, "verbose");
    assert_eq!(script.options[2].name, "count");

    assert!(script.completion_info.provides_completions);
    assert!(script.completion_info.get_completion_type("count").is_some());
    assert!(script.has_usage());
    assert!(script.provides_completions());
    assert_eq!(script.path, "/tmp/test_magic_script.sh");
}

#[test]
fn script_with_bad_usage_fails() {
    let err = Script::parse(&"x".to_owned(), &lines("# Usage: {cmd} <a")).unwrap_err();
    assert!(matches!(err, Error::InvalidUsageString(_)));
    assert!(matches!(extract_usage(&lines("# Usage: {cmd} <a")), Err(Error::InvalidUsageString(_))));
    assert_eq!(extract_usage(&lines("# Summary: none")).unwrap(), None);
}

#[test]
fn options_of_a_script() {
    let text = "# Options:\n#   a(`ls`): first\n#   broken line\n#   b: second";
    let opts = extract_options(&lines(text));
    assert_eq!(opts.len(), 2);
    assert_eq!(opts[0].completion_type, Some(CompletionType::LiteralCommand("ls".to_owned())));
    assert_eq!(opts[1].name, "b");
}

#[test]
fn written_usage_line_reads_back() {
    let line = "# Usage:   {cmd}   <name>  -f [ --x=Y ]!   [opt]   [more]...  ";
    let parsed = parse_usage_line(line).unwrap();
    let written = parsed.to_line();
    assert_eq!(written, "# Usage: {cmd} <name> -f [--x=Y]! [opt] [more]...");
    assert_eq!(parse_usage_line(&written).unwrap(), parsed);
    assert_eq!(parsed.arguments[2].base, ArgBase::Long("x".to_owned(), Some("Y".to_owned())));
}
