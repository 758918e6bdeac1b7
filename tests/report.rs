use sub::commands::{subcommand, Command, Entry, EntryKind};
use sub::config::{Color, Config};
use sub::error::Error;
use sub::report::{error_lines, report_lines};
use sub::usage_parser::ParseError;

fn config() -> Config {
    Config::new("mycli".to_owned(), "/opt/mycli".to_owned(), Color::Never, false, "/c".to_owned())
}

fn script(text: &str) -> Entry {
    Entry { kind: EntryKind::File { executable: true }, text: text.lines().map(|l| l.to_owned()).collect() }
}

fn dir() -> Entry {
    Entry { kind: EntryKind::Directory, text: vec![] }
}

#[test]
fn unknown_sub_command_message() {
    let e = Error::UnknownSubCommand("nope".to_owned());
    assert_eq!(error_lines("mycli", "", &e, false), vec!["mycli: no such sub command 'nope'".to_owned()]);
    assert!(error_lines("mycli", "", &e, true).is_empty());
}

#[test]
fn invalid_usage_message_names_the_file_and_positions() {
    let e = Error::InvalidUsageString(vec![
        ParseError { position: 1234, found: Some('<') },
        ParseError { position: 7, found: None },
    ]);
    assert_eq!(
        error_lines("mycli", "/opt/mycli/libexec/bad", &e, false),
        vec![
            "/opt/mycli/libexec/bad: invalid usage string".to_owned(),
            "  at 1234: unexpected '<'".to_owned(),
            "  at 7: unexpected end of input".to_owned(),
        ]
    );
}

#[test]
fn other_messages() {
    assert!(error_lines("m", "", &Error::NonExecutable("x".to_owned()), false).is_empty());
    assert!(error_lines("m", "", &Error::SubCommandInterrupted, false).is_empty());
    assert!(error_lines("m", "", &Error::NoCompletions, false).is_empty());
    assert_eq!(error_lines("m", "", &Error::InvalidUTF8, false), vec!["invalid UTF-8".to_owned()]);
    assert_eq!(
        error_lines("m", "", &Error::NoLibexecDir, false),
        vec!["m: libexec directory not found in root".to_owned()]
    );
    assert_eq!(
        error_lines("m", "", &Error::SubCommandIoError("denied".to_owned()), false),
        vec!["m: denied".to_owned()]
    );
    assert_eq!(
        error_lines("m", "/p", &Error::InvalidUsageString(vec![ParseError { position: 0, found: Some('x') }]), false)[1],
        "  at 0: unexpected 'x'"
    );
}

#[test]
fn group_validation_collects_every_child() {
    let group = subcommand(&config(), vec!["tools".to_owned()], &dir(), &vec![dir()]).unwrap();
    let listing = vec![
        ("bad".to_owned(), script("# Usage: {cmd} <x")),
        ("good".to_owned(), script("# Usage: {cmd} <x>")),
        ("worse".to_owned(), script("# Usage: {cmd} [y]!!")),
    ];
    let kids = group.subcommands(&config(), &listing);
    let reports: Vec<Vec<(String, Error)>> = kids.iter().map(|k| k.validate_subtree(&vec![])).collect();
    let all = group.validate_subtree(&reports);
    assert_eq!(all.len(), 2);
    assert_eq!(all[0].0, "/opt/mycli/libexec/tools/bad");
    assert_eq!(all[1].0, "/opt/mycli/libexec/tools/worse");
    let lines = report_lines("mycli", &all);
    assert_eq!(lines[0], "/opt/mycli/libexec/tools/bad: invalid usage string");
    assert_eq!(lines[1], "  at 15: unexpected '<'");
    assert_eq!(lines.len(), 4);
    match &kids[1] {
        Command::File(f) => assert!(f.usage.error.is_none()),
        _ => panic!("not a script"),
    }
}
