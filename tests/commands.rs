use sub::commands::{subcommand, Command, Entry, EntryKind};
use sub::completion::CompletionType;
use sub::config::{Color, Config};
use sub::dispatch::{has_extension, validate_all, CompletionAction};
use sub::engine::Engine;
use sub::error::{exit_status, Error};

fn config() -> Config {
    Config::new(
        "mycli".to_owned(),
        "/opt/mycli".to_owned(),
        Color::Never,
        false,
        "/home/u/.cache/mycli/cache".to_owned(),
    )
}

fn lines(text: &str) -> Vec<String> {
    text.lines().map(|l| l.to_owned()).collect()
}

fn dir() -> Entry {
    Entry { kind: EntryKind::Directory, text: vec![] }
}

fn script(text: &str) -> Entry {
    Entry { kind: EntryKind::File { executable: true }, text: lines(text) }
}

fn args(v: &[&str]) -> Vec<String> {
    v.iter().map(|s| s.to_string()).collect()
}

fn greet() -> Entry {
    script("#!/bin/bash\n# Summary: Greets\n# Usage: {cmd} <name> [--loud]!\necho hi")
}

#[test]
fn greet_usage_and_summary() {
    let c = subcommand(&config(), args(&["greet"]), &dir(), &vec![greet()]).unwrap();
    assert_eq!(c.usage().unwrap(), "Usage: mycli greet <name> [--loud]");
    assert_eq!(c.summary(), "Greets");
    assert_eq!(c.name(), "greet");
    match &c {
        Command::File(f) => {
            assert_eq!(f.path, "/opt/mycli/libexec/greet");
            assert!(f.args.is_empty());
        }
        _ => panic!("not a script"),
    }
}

#[test]
fn admin_listing_is_sorted() {
    let c = subcommand(&config(), args(&[]), &dir(), &vec![]).unwrap();
    assert!(matches!(c, Command::TopLevel(_)));
    let admin = subcommand(&config(), args(&["admin"]), &dir(), &vec![dir()]).unwrap();
    let listing = vec![
        ("status".to_owned(), script("#!/bin/sh")),
        ("restart".to_owned(), script("#!/bin/sh")),
    ];
    let children = admin.subcommands(&config(), &listing);
    let names: Vec<String> = children.iter().map(|c| c.name().clone()).collect();
    assert_eq!(names, vec!["restart".to_owned(), "status".to_owned()]);
    let again = admin.subcommands(&config(), &listing);
    let names_again: Vec<String> = again.iter().map(|c| c.name().clone()).collect();
    assert_eq!(names, names_again);
}

#[test]
fn non_executable_file_fails() {
    let old = Entry { kind: EntryKind::File { executable: false }, text: lines("#!/bin/sh") };
    let err = subcommand(&config(), args(&["old"]), &dir(), &vec![old]).unwrap_err();
    assert_eq!(err, Error::NonExecutable("old".to_owned()));
}

#[test]
fn completion_hint_from_option_line() {
    let text = "#!/bin/bash\n# Usage: {cmd} [--count=COUNT]\n# Options:\n#   count(script): number of retries\n#";
    let c = subcommand(&config(), args(&["retry"]), &dir(), &vec![script(text)]).unwrap();
    match &c {
        Command::File(f) => {
            assert_eq!(f.usage.get_completion_type("count"), Some(CompletionType::Script));
            assert_eq!(f.usage.get_completion_type("other"), None);
            assert!(f.usage.provides_completions());
        }
        _ => panic!("not a script"),
    }
}

#[test]
fn invocation_env_carries_arguments() {
    let c = subcommand(&config(), args(&["greet", "Ada"]), &dir(), &vec![greet()]).unwrap();
    match &c {
        Command::File(f) => {
            assert_eq!(f.args, vec!["Ada".to_owned()]);
            let matched = vec![("name".to_owned(), vec![Some("Ada".to_owned())])];
            let env = f.invocation_env(&config(), &matched).unwrap();
            assert_eq!(env[0], ("_MYCLI_ROOT".to_owned(), "/opt/mycli".to_owned()));
            assert_eq!(env[1], ("_MYCLI_CACHE".to_owned(), "/home/u/.cache/mycli/cache".to_owned()));
            assert_eq!(env[2], ("_MYCLI_ARGS".to_owned(), "name \"Ada\"".to_owned()));
        }
        _ => panic!("not a script"),
    }
}

#[test]
fn invalid_utf8_value_fails_invocation() {
    let c = subcommand(&config(), args(&["greet"]), &dir(), &vec![greet()]).unwrap();
    match &c {
        Command::File(f) => {
            let matched = vec![("name".to_owned(), vec![None])];
            assert_eq!(f.invocation_env(&config(), &matched).unwrap_err(), Error::InvalidUTF8);
        }
        _ => panic!("not a script"),
    }
}

#[test]
fn several_values_are_joined() {
    let text = "#!/bin/sh\n# Usage: {cmd} <a> [rest]...";
    let c = subcommand(&config(), args(&["x"]), &dir(), &vec![script(text)]).unwrap();
    match &c {
        Command::File(f) => {
            let matched = vec![
                ("a".to_owned(), vec![Some("1".to_owned())]),
                ("rest".to_owned(), vec![Some("p".to_owned()), Some("q r".to_owned())]),
            ];
            let kv = f.usage.parse_into_kv(&matched).unwrap();
            assert_eq!(kv, "a \"1\" rest \"p q r\"");
        }
        _ => panic!("not a script"),
    }
}

#[test]
fn hidden_segment_is_unknown() {
    let err = subcommand(&config(), args(&[".git"]), &dir(), &vec![dir()]).unwrap_err();
    assert_eq!(err, Error::UnknownSubCommand(".git".to_owned()));
    let err = subcommand(&config(), args(&["a", ".hidden"]), &dir(), &vec![dir(), greet()]).unwrap_err();
    assert_eq!(err, Error::UnknownSubCommand(".hidden".to_owned()));
    let err = subcommand(&config(), args(&["a", ".hidden"]), &dir(), &vec![dir(), Entry { kind: EntryKind::Missing, text: vec![] }]).unwrap_err();
    assert_eq!(err, Error::UnknownSubCommand(".hidden".to_owned()));
}

#[test]
fn missing_segment_is_unknown() {
    let err = subcommand(&config(), args(&["nope"]), &dir(), &vec![]).unwrap_err();
    assert_eq!(err, Error::UnknownSubCommand("nope".to_owned()));
}

#[test]
fn missing_libexec_resolves_by_segments() {
    let root = Entry { kind: EntryKind::Missing, text: vec![] };
    let c = subcommand(&config(), args(&[]), &root, &vec![]).unwrap();
    assert!(matches!(c, Command::TopLevel(_)));
    let err = subcommand(&config(), args(&[".x"]), &root, &vec![Entry { kind: EntryKind::Missing, text: vec![] }]).unwrap_err();
    assert_eq!(err, Error::UnknownSubCommand(".x".to_owned()));
    let err = subcommand(&config(), args(&["greet"]), &root, &vec![Entry { kind: EntryKind::Missing, text: vec![] }]).unwrap_err();
    assert_eq!(err, Error::UnknownSubCommand("greet".to_owned()));
    let c = subcommand(&config(), args(&["commands", "a"]), &root, &vec![]).unwrap();
    assert_eq!(c.name(), "commands");
    let c = Engine::new(config()).subcommand(args(&["help"]), &root, &vec![]).unwrap();
    assert_eq!(c.name(), "help");
}

#[test]
fn file_takes_the_remaining_segments_as_arguments() {
    let c = subcommand(&config(), args(&["tools", "greet", "a", "-b"]), &dir(), &vec![dir(), greet()]).unwrap();
    match &c {
        Command::File(f) => {
            assert_eq!(f.names, vec!["tools".to_owned(), "greet".to_owned()]);
            assert_eq!(f.args, vec!["a".to_owned(), "-b".to_owned()]);
            assert_eq!(f.path, "/opt/mycli/libexec/tools/greet");
            assert_eq!(f.usage.generate(), "Usage: mycli tools greet <name> [--loud]");
        }
        _ => panic!("not a script"),
    }
}

#[test]
fn builtin_names_are_never_shadowed() {
    let c = subcommand(&config(), args(&["help", "greet"]), &dir(), &vec![greet()]).unwrap();
    match &c {
        Command::Internal(i) => {
            assert_eq!(i.name, "help");
            assert_eq!(i.args, vec!["greet".to_owned()]);
        }
        _ => panic!("not built in"),
    }
    let c = subcommand(&config(), args(&["completions"]), &dir(), &vec![]).unwrap();
    assert_eq!(c.name(), "completions");
}

#[test]
fn listing_skips_hidden_broken_and_non_executable() {
    let top = subcommand(&config(), args(&[]), &dir(), &vec![]).unwrap();
    let listing = vec![
        ("zeta".to_owned(), script("#!/bin/sh\n# Summary: Last")),
        (".hidden".to_owned(), script("#!/bin/sh")),
        ("plain".to_owned(), Entry { kind: EntryKind::File { executable: false }, text: vec![] }),
        ("gone".to_owned(), Entry { kind: EntryKind::Missing, text: vec![] }),
        ("alpha".to_owned(), dir()),
        ("help".to_owned(), script("#!/bin/sh")),
    ];
    let children = top.subcommands(&config(), &listing);
    let names: Vec<String> = children.iter().map(|c| c.name().clone()).collect();
    assert_eq!(names, vec!["alpha", "zeta", "help", "commands"]);
}

#[test]
fn directory_help_lists_children() {
    let readme = Entry { kind: EntryKind::Directory, text: lines("# Summary: Admin tools\n#\n# Manage the service.") };
    let admin = subcommand(&config(), args(&["admin"]), &dir(), &vec![readme]).unwrap();
    let listing = vec![
        ("status".to_owned(), script("#!/bin/sh\n# Summary: Show status")),
        ("restart".to_owned(), script("#!/bin/sh\n# Summary: Restart it")),
    ];
    let children = admin.subcommands(&config(), &listing);
    let help = admin.help(&children).unwrap();
    assert_eq!(
        help,
        "Usage: mycli admin [<subcommands>] [<args>]\n\nAdmin tools\n\nManage the service.\n\nAvailable subcommands:\n    restart    Restart it\n    status     Show status\n"
    );
    assert_eq!(admin.summary(), "Admin tools");
}

#[test]
fn malformed_usage_is_deferred() {
    let bad = script("#!/bin/sh\n# Summary: Broken\n# Usage: {cmd} <oops");
    let c = subcommand(&config(), args(&["broken"]), &dir(), &vec![bad.clone()]).unwrap();
    assert_eq!(c.summary(), "Broken");
    match c.usage().unwrap_err() {
        Error::InvalidUsageString(errors) => {
            assert_eq!(errors.len(), 1);
            assert_eq!(errors[0].position, 15);
        }
        other => panic!("unexpected {:?}", other),
    }
    let errs = c.validate();
    assert_eq!(errs.len(), 1);
    assert_eq!(errs[0].0, "/opt/mycli/libexec/broken");
}

#[test]
fn validation_reports_only_the_broken_sibling() {
    let top = subcommand(&config(), args(&[]), &dir(), &vec![]).unwrap();
    let listing = vec![
        ("good".to_owned(), greet()),
        ("broken".to_owned(), script("#!/bin/sh\n# Usage: {cmd} [x]!!")),
        ("other".to_owned(), script("#!/bin/sh\n# Usage: {cmd} [--v=V]")),
    ];
    let mut nodes = top.subcommands(&config(), &listing);
    nodes.push(top);
    let report = validate_all(&nodes);
    assert_eq!(report.len(), 1);
    assert_eq!(report[0].0, "/opt/mycli/libexec/broken");
    assert!(matches!(report[0].1, Error::InvalidUsageString(_)));
}

#[test]
fn completion_actions() {
    let text = "#!/bin/bash\n# Usage: {cmd} <host> <port>\n# Options:\n#   host(script): the host\n#   port(`seq 1 3`): the port\n#";
    let c = subcommand(&config(), args(&["conn"]), &dir(), &vec![script(text)]).unwrap();
    let a = c.completion_action(&args(&["--verbose", "<host>", "<port>"]));
    assert!(matches!(a, CompletionAction::RunScript(ref n) if n == "host"));
    let a = c.completion_action(&args(&["<port>"]));
    assert!(matches!(a, CompletionAction::RunShell(ref s) if s == "seq 1 3"));
    let a = c.completion_action(&args(&[]));
    assert!(matches!(a, CompletionAction::Nothing));
    let legacy = script("#!/bin/bash\n# Provide completions\necho");
    let c = subcommand(&config(), args(&["old"]), &dir(), &vec![legacy]).unwrap();
    assert!(matches!(c.completion_action(&args(&[])), CompletionAction::Legacy));
    let d = subcommand(&config(), args(&["admin"]), &dir(), &vec![dir()]).unwrap();
    assert!(matches!(d.completion_action(&args(&[])), CompletionAction::ListChildren));
}

#[test]
fn completion_env_names() {
    let c = subcommand(&config(), args(&["greet"]), &dir(), &vec![greet()]).unwrap();
    match &c {
        Command::File(f) => {
            let env = f.completion_env(&config(), "name");
            assert_eq!(env[0].0, "_MYCLI_ROOT");
            assert_eq!(env[1], ("_MYCLI_COMPLETE".to_owned(), "true".to_owned()));
            assert_eq!(env[2], ("_MYCLI_COMPLETE_ARG".to_owned(), "name".to_owned()));
        }
        _ => panic!("not a script"),
    }
}

#[test]
fn declarations_for_the_validator() {
    let text = "#!/bin/bash\n# Usage: {cmd} <name> -v [--level=LEVEL]! [more]...\n# Options:\n#   name: who to greet\n#   level: how loud";
    let c = subcommand(&config(), args(&["greet"]), &dir(), &vec![script(text)]).unwrap();
    match &c {
        Command::File(f) => {
            let d = f.usage.declarations();
            assert_eq!(d.len(), 4);
            assert_eq!(d[0].id, "name");
            assert!(d[0].required && d[0].takes_value);
            assert_eq!(d[0].help, Some("who to greet".to_owned()));
            assert_eq!(d[1].id, "v");
            assert_eq!(d[1].short, Some('v'));
            assert!(!d[1].takes_value);
            assert_eq!(d[2].long, Some("level".to_owned()));
            assert_eq!(d[2].value_name, Some("LEVEL".to_owned()));
            assert!(d[2].exclusive && !d[2].required);
            assert_eq!(d[2].help, Some("how loud".to_owned()));
            assert!(d[3].trailing);
            assert_eq!(d[3].id, "more");
        }
        _ => panic!("not a script"),
    }
    let plain = subcommand(&config(), args(&["p"]), &dir(), &vec![script("#!/bin/sh")]).unwrap();
    match &plain {
        Command::File(f) => {
            assert_eq!(f.usage.generate(), "Usage: mycli p [args]...");
            let d = f.usage.declarations();
            assert_eq!(d.len(), 1);
            assert_eq!(d[0].id, "args");
            assert!(d[0].trailing);
        }
        _ => panic!("not a script"),
    }
}

#[test]
fn engine_delegates() {
    let e = Engine::new(config());
    assert_eq!(e.name(), "mycli");
    assert_eq!(e.root(), "/opt/mycli");
    assert_eq!(e.cache_directory(), "/home/u/.cache/mycli/cache");
    assert_eq!(e.libexec_path(), "/opt/mycli/libexec");
    let c = e.subcommand(args(&["greet"]), &dir(), &vec![greet()]).unwrap();
    assert_eq!(c.name(), "greet");
    let c = e.external_subcommand(args(&["help"]), &vec![greet()]).unwrap();
    assert!(matches!(c, Command::File(_)));
}

#[test]
fn exit_status_mapping() {
    assert_eq!(exit_status(Some(3)), Ok(3));
    assert_eq!(exit_status(None), Err(Error::SubCommandInterrupted));
}

#[test]
fn libexec_path_joins_once() {
    let mut c = config();
    c.root = "/opt/mycli/".to_owned();
    assert_eq!(c.libexec_path(), "/opt/mycli/libexec");
    assert_eq!(c.env_name("ROOT"), "_MYCLI_ROOT");
}

#[test]
fn extensions_of_names() {
    assert!(has_extension("run.sh", "sh"));
    assert!(!has_extension("run.sh", "py"));
    assert!(has_extension("a.b.c", "c"));
    assert!(!has_extension(".bashrc", "bashrc"));
    assert!(!has_extension("noext", ""));
    assert!(has_extension("foo.", ""));
    assert!(!has_extension("..", ""));
}
