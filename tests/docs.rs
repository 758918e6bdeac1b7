use sub::docs::{extract_docs, extract_help, extract_initial_comment_block, provides_completions, Docs, Metadata};
use sub::option_parser::{parse_option_line, OptionSpec};
use sub::completion::{CompletionInfo, CompletionType};
use sub::usage_parser::ParseError;

fn lines(text: &str) -> Vec<String> {
    text.lines().map(|l| l.to_owned()).collect()
}

fn sample() -> Vec<String> {
    lines(
        "#!/usr/bin/env bash
#
# Summary: Test script for magic module
#
# Usage: {cmd} <name> [--verbose] [--count=COUNT]
#
# Options:
#   name: The name to greet
#   verbose: Enable verbose output
#   count (script): Number of times to greet
#
# This is a test script for the magic module.
# It demonstrates how the magic module can parse
#
# script metadata and usage information.

echo \"Hello, $1!\"
# not part of the block",
    )
}

#[test]
fn comment_block_stops_at_first_other_line() {
    let block = extract_initial_comment_block(&sample());
    assert_eq!(block.len(), 15);
    assert_eq!(block[14], "# script metadata and usage information.");
}

#[test]
fn docs_of_a_script() {
    let docs = extract_docs(&sample());
    assert_eq!(docs.summary, Some("Test script for magic module".to_owned()));
    assert_eq!(docs.usage, Some("# Usage: {cmd} <name> [--verbose] [--count=COUNT]".to_owned()));
    assert_eq!(
        docs.options,
        vec![
            "name: The name to greet".to_owned(),
            "verbose: Enable verbose output".to_owned(),
            "count (script): Number of times to greet".to_owned(),
        ]
    );
    assert_eq!(
        docs.description,
        Some(
            "This is a test script for the magic module.\nIt demonstrates how the magic module can parse\n\nscript metadata and usage information."
                .to_owned()
        )
    );
}

#[test]
fn empty_docs() {
    let d = Docs::new();
    assert!(d.summary.is_none() && d.usage.is_none() && d.options.is_empty() && d.description.is_none());
    let docs = extract_docs(&lines("echo hi\n# Summary: too late"));
    assert!(docs.summary.is_none());
}

#[test]
fn summary_is_trimmed() {
    let docs = extract_docs(&lines("# Summary:   spaced out  \t"));
    assert_eq!(docs.summary, Some("spaced out".to_owned()));
}

#[test]
fn non_indented_option_lines_are_ignored() {
    let docs = extract_docs(&lines("# Options:\n#   a: first\n# b: not indented\n#\n# Text"));
    assert_eq!(docs.options, vec!["a: first".to_owned()]);
    assert_eq!(docs.description, Some("Text".to_owned()));
}

#[test]
fn completion_marker() {
    assert!(provides_completions(&lines("#!/bin/sh\necho\n# Provide completions")));
    assert!(!provides_completions(&lines("#!/bin/sh\n# Provide completions please")));
}

#[test]
fn metadata_of_a_script() {
    let m = extract_help(&sample());
    assert_eq!(m.summary, Some("Test script for magic module".to_owned()));
    assert!(m.description.is_some());
    assert!(!m.provides_completions);
    let n = Metadata::new();
    assert!(n.summary.is_none() && !n.provides_completions);
    let f = Metadata::from_docs(&extract_docs(&sample()), true);
    assert!(f.provides_completions);
}

#[test]
fn option_lines() {
    assert_eq!(
        parse_option_line("count (script): Number of times to greet").unwrap(),
        OptionSpec {
            name: "count".to_owned(),
            completion_type: Some(CompletionType::Script),
            description: Some("Number of times to greet".to_owned()),
        }
    );
    assert_eq!(
        parse_option_line("host(` ls /etc `):  where").unwrap(),
        OptionSpec {
            name: "host".to_owned(),
            completion_type: Some(CompletionType::LiteralCommand("ls /etc ".to_owned())),
            description: Some("where".to_owned()),
        }
    );
    assert_eq!(
        parse_option_line("name: The name").unwrap().completion_type,
        None
    );
    assert_eq!(parse_option_line("count(scripts): x").unwrap_err(), vec![ParseError { position: 12, found: Some('s') }]);
    assert_eq!(parse_option_line(": x").unwrap_err(), vec![ParseError { position: 0, found: Some(':') }]);
    assert!(parse_option_line("name").is_err());
    assert!(parse_option_line("x(`unterminated): y").is_err());
}

#[test]
fn completion_index_takes_the_last_entry() {
    let info = CompletionInfo::with_completions(vec![
        ("a".to_owned(), CompletionType::Script),
        ("a".to_owned(), CompletionType::LiteralCommand("ls".to_owned())),
    ]);
    assert!(info.provides_completions);
    assert_eq!(info.get_completion_type("a"), Some(CompletionType::LiteralCommand("ls".to_owned())));
    let empty = CompletionInfo::new();
    assert!(!empty.provides_completions);
    assert_eq!(empty.get_completion_type("a"), None);
}
