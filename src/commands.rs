//! Command nodes and the resolution of a command path into one.
//!
//! The filesystem is read by the caller: for each path segment it hands over
//! what stands at that path (an [`Entry`]), and the resolution decides from
//! those facts alone.
use vstd::prelude::*;
use crate::config::{join_path_exec, path_of, Config};
use crate::docs::completions_marker;
use crate::error::{error_is, Error, Failure};
use crate::text::{join_by, strings_view, to_chars};
use crate::usage::Usage;

verus! {

/// What the filesystem holds at a path.
#[derive(Debug, Clone, Copy, PartialEq, Eq, Structural)]
pub enum EntryKind {
    Missing,
    Directory,
    File { executable: bool },
}

/// A filesystem entry with the text that documents it: a script's lines, or
/// the lines of a directory's `README` (none where it has no `README`).
#[derive(Debug, Clone)]
pub struct Entry {
    pub kind: EntryKind,
    pub text: Vec<String>,
}

pub open spec fn kinds_of(entries: Seq<Entry>) -> Seq<EntryKind> {
    entries.map_values(|e: Entry| e.kind)
}

/// The kind at index `i`; nothing stands beyond the entries given.
pub open spec fn kind_of(kinds: Seq<EntryKind>, i: int) -> EntryKind {
    if 0 <= i < kinds.len() {
        kinds[i]
    } else {
        EntryKind::Missing
    }
}

/// A hidden name, one that starts with `.`.
pub open spec fn is_hidden(seg: Seq<char>) -> bool {
    seg.len() > 0 && seg[0] == '.'
}

pub open spec fn help_word() -> Seq<char> {
    seq!['h', 'e', 'l', 'p']
}

pub open spec fn commands_word() -> Seq<char> {
    seq!['c', 'o', 'm', 'm', 'a', 'n', 'd', 's']
}

pub open spec fn completions_word() -> Seq<char> {
    seq!['c', 'o', 'm', 'p', 'l', 'e', 't', 'i', 'o', 'n', 's']
}

/// The names that the built-in commands reserve.
pub open spec fn is_internal_name(s: Seq<char>) -> bool {
    s == help_word() || s == commands_word() || s == completions_word()
}

/// The command that a path resolves to.
pub enum Target {
    TopLevel,
    /// A built-in command and its arguments.
    Internal(Seq<char>, Seq<Seq<char>>),
    /// A command group and its path.
    Directory(Seq<Seq<char>>),
    /// A script, its path, and the arguments handed to it.
    File(Seq<Seq<char>>, Seq<Seq<char>>),
}

/// The walk through the command tree from segment `i` on.
pub open spec fn walk(args: Seq<Seq<char>>, kinds: Seq<EntryKind>, i: int) -> Result<
    Target,
    Failure,
>
    decreases args.len() - i,
{
    if 0 <= i < args.len() {
        let head = args[i];
        if is_hidden(head) {
            Err(Failure::Unknown(head))
        } else {
            match kind_of(kinds, i) {
                EntryKind::Missing => Err(Failure::Unknown(head)),
                EntryKind::Directory => if i + 1 == args.len() {
                    Ok(Target::Directory(args))
                } else {
                    walk(args, kinds, i + 1)
                },
                EntryKind::File { executable } => if executable {
                    Ok(Target::File(args.take(i + 1), args.skip(i + 1)))
                } else {
                    Err(Failure::NonExecutable(head))
                },
            }
        }
    } else {
        Ok(Target::TopLevel)
    }
}

/// What the command path `args` resolves to, where `kinds[i]` stands at
/// the path of the first `i + 1` segments below `libexec`: nothing names the
/// top-level command, a built-in name as the first segment intercepts
/// resolution, and any other path is walked through the command tree.
pub open spec fn resolve(args: Seq<Seq<char>>, kinds: Seq<EntryKind>) -> Result<
    Target,
    Failure,
> {
    if args.len() == 0 {
        Ok(Target::TopLevel)
    } else if is_internal_name(args[0]) {
        Ok(Target::Internal(args[0], args.skip(1)))
    } else {
        walk(args, kinds, 0)
    }
}

/// The command line of a command: the tool's name and the path segments,
/// separated by spaces.
pub open spec fn cmd_line(name: Seq<char>, names: Seq<Seq<char>>) -> Seq<char> {
    join_by(seq![name] + names, ' ')
}

// ---------------------------------------------------------------------------
// Command nodes.
/// The command that the tool's name alone stands for.
#[derive(Debug, Clone)]
pub struct TopLevelCommand {
    pub name: String,
    pub path: String,
    pub usage: Usage,
}

/// A built-in command: `help`, `commands` or `completions`.
#[derive(Debug, Clone)]
pub struct InternalCommand {
    pub name: String,
    pub summary: String,
    pub description: String,
    pub args: Vec<String>,
}

/// A command group: a directory below `libexec`.
#[derive(Debug, Clone)]
pub struct DirectoryCommand {
    pub names: Vec<String>,
    pub path: String,
    pub usage: Usage,
}

/// A script below `libexec`, with the arguments handed to it.
#[derive(Debug, Clone)]
pub struct FileCommand {
    pub names: Vec<String>,
    pub path: String,
    pub usage: Usage,
    pub args: Vec<String>,
    /// The script answers `--complete` itself.
    pub legacy_completions: bool,
}

/// A resolved command.
#[derive(Debug, Clone)]
pub enum Command {
    TopLevel(TopLevelCommand),
    Internal(InternalCommand),
    Directory(DirectoryCommand),
    File(FileCommand),
}

impl Command {
    /// The path that this command stands for.
    pub open spec fn target(&self) -> Target {
        match self {
            Command::TopLevel(_) => Target::TopLevel,
            Command::Internal(c) => Target::Internal(c.name@, strings_view(c.args@)),
            Command::Directory(d) => Target::Directory(strings_view(d.names@)),
            Command::File(f) => Target::File(strings_view(f.names@), strings_view(f.args@)),
        }
    }

    /// The name under which the command is listed.
    pub open spec fn name_view(&self) -> Seq<char> {
        match self {
            Command::TopLevel(t) => t.name@,
            Command::Internal(c) => c.name@,
            Command::Directory(d) => d.names@.last()@,
            Command::File(f) => f.names@.last()@,
        }
    }

    /// The summary shown beside the name in a listing.
    pub open spec fn summary_view(&self) -> Seq<char> {
        match self {
            Command::TopLevel(t) => t.usage.summary_text(),
            Command::Internal(c) => c.summary@,
            Command::Directory(d) => d.usage.summary_text(),
            Command::File(f) => f.usage.summary_text(),
        }
    }

    /// The node is built for `config` from the text `text` that documents it.
    pub open spec fn built_from(&self, config: &Config, text: Seq<Seq<char>>) -> bool {
        match self {
            Command::TopLevel(t) => t.name@ == config.name@ && t.path@ == config.libexec()
                && t.usage.describes(config.name@, text, true),
            Command::Internal(c) => true,
            Command::Directory(d) => d.names@.len() > 0 && d.path@ == path_of(
                config.libexec(),
                strings_view(d.names@),
            ) && d.usage.describes(cmd_line(config.name@, strings_view(d.names@)), text, true),
            Command::File(f) => f.names@.len() > 0 && f.path@ == path_of(
                config.libexec(),
                strings_view(f.names@),
            ) && f.usage.describes(cmd_line(config.name@, strings_view(f.names@)), text, false)
                && f.legacy_completions == text.contains(completions_marker()),
        }
    }
}

// ---------------------------------------------------------------------------
// Building nodes.
fn copy_range(v: &Vec<String>, lo: usize, hi: usize) -> (r: Vec<String>)
    requires
        lo <= hi <= v@.len(),
    ensures
        r@ == v@.subrange(lo as int, hi as int),
{
    let mut r: Vec<String> = Vec::new();
    let mut i = lo;
    while i < hi
        invariant
            lo <= i <= hi <= v@.len(),
            r@ == v@.subrange(lo as int, i as int),
        decreases hi - i,
    {
        r.push(v[i].clone());
        assert(r@ =~= v@.subrange(lo as int, i + 1));
        i = i + 1;
    }
    r
}

/// The command line of the command at `names`.
pub fn command_line(config: &Config, names: &Vec<String>) -> (r: String)
    ensures
        r@ == cmd_line(config.name@, strings_view(names@)),
{
    let mut parts: Vec<String> = Vec::new();
    parts.push(config.name.clone());
    let mut i: usize = 0;
    while i < names.len()
        invariant
            i <= names@.len(),
            strings_view(parts@) == seq![config.name@] + strings_view(names@).take(i as int),
        decreases names@.len() - i,
    {
        let ghost before = parts@;
        parts.push(names[i].clone());
        assert(strings_view(parts@) =~= strings_view(before).push(names@[i as int]@));
        assert(strings_view(names@).take(i + 1) =~= strings_view(names@).take(i as int).push(
            names@[i as int]@,
        ));
        assert(strings_view(parts@) =~= seq![config.name@] + strings_view(names@).take(i + 1));
        i = i + 1;
    }
    assert(strings_view(names@).take(names@.len() as int) =~= strings_view(names@));
    crate::text::join_strings(&parts, ' ')
}

/// The path of the command at `names`.
pub fn command_path(config: &Config, names: &Vec<String>) -> (r: String)
    ensures
        r@ == path_of(config.libexec(), strings_view(names@)),
{
    let mut r = config.libexec_path();
    let mut i: usize = 0;
    while i < names.len()
        invariant
            i <= names@.len(),
            r@ == path_of(config.libexec(), strings_view(names@).take(i as int)),
        decreases names@.len() - i,
    {
        r = join_path_exec(r.as_str(), names[i].as_str());
        assert(strings_view(names@).take(i + 1).drop_last() =~= strings_view(names@).take(
            i as int,
        ));
        i = i + 1;
    }
    assert(strings_view(names@).take(names@.len() as int) =~= strings_view(names@));
    r
}

impl TopLevelCommand {
    /// The top-level command, documented by the `README` of `libexec`.
    pub fn new(config: &Config, text: &Vec<String>) -> (r: TopLevelCommand)
        ensures
            Command::TopLevel(r).built_from(config, strings_view(text@)),
    {
        let usage = Usage::new(config.name.clone(), text, true);
        TopLevelCommand { name: config.name.clone(), path: config.libexec_path(), usage }
    }
}

impl DirectoryCommand {
    /// The command group at `names`, documented by its `README`.
    pub fn new(config: &Config, names: Vec<String>, text: &Vec<String>) -> (r: DirectoryCommand)
        requires
            names@.len() > 0,
        ensures
            Command::Directory(r).built_from(config, strings_view(text@)),
            strings_view(r.names@) == strings_view(names@),
    {
        let cmd = command_line(config, &names);
        let path = command_path(config, &names);
        let usage = Usage::new(cmd, text, true);
        DirectoryCommand { names, path, usage }
    }
}

impl FileCommand {
    /// The script at `names`, with the arguments handed to it and its text.
    pub fn new(config: &Config, names: Vec<String>, args: Vec<String>, text: &Vec<String>) -> (r: FileCommand)
        requires
            names@.len() > 0,
        ensures
            Command::File(r).built_from(config, strings_view(text@)),
            strings_view(r.names@) == strings_view(names@),
            strings_view(r.args@) == strings_view(args@),
    {
        let cmd = command_line(config, &names);
        let path = command_path(config, &names);
        let usage = Usage::new(cmd, text, false);
        let legacy_completions = crate::docs::provides_completions(text);
        FileCommand { names, path, usage, args, legacy_completions }
    }
}

/// The built-in `help` command with its arguments.
pub fn internal_help(args: Vec<String>) -> (r: InternalCommand)
    ensures
        r.name@ == help_word(),
        r.args@ == args@,
{
    let name = String::from_str("help");
    proof {
        reveal_strlit("help");
        assert(name@ =~= help_word());
    }
    InternalCommand {
        name,
        summary: String::from_str("Display help for a sub command"),
        description: String::from_str(
            "A command is considered documented if it starts with a comment block that has a `Summary:' or `Usage:' section. The remainder of the comment block is displayed as extended documentation.",
        ),
        args,
    }
}

/// The built-in `commands` command with its arguments.
pub fn internal_commands(args: Vec<String>) -> (r: InternalCommand)
    ensures
        r.name@ == commands_word(),
        r.args@ == args@,
{
    let name = String::from_str("commands");
    proof {
        reveal_strlit("commands");
        assert(name@ =~= commands_word());
    }
    InternalCommand {
        name,
        summary: String::from_str("List available commands"),
        description: String::new(),
        args,
    }
}

/// The built-in `completions` command with its arguments.
pub fn internal_completions(args: Vec<String>) -> (r: InternalCommand)
    ensures
        r.name@ == completions_word(),
        r.args@ == args@,
{
    let name = String::from_str("completions");
    proof {
        reveal_strlit("completions");
        assert(name@ =~= completions_word());
    }
    InternalCommand {
        name,
        summary: String::from_str("List completions for a sub command"),
        description: String::new(),
        args,
    }
}

fn internal_name(s: &str) -> (r: u8)
    ensures
        r == 1 <==> s@ == help_word(),
        r == 2 <==> s@ == commands_word(),
        r == 3 <==> s@ == completions_word(),
        r == 0 <==> !is_internal_name(s@),
{
    let c = to_chars(s);
    let h = vec!['h', 'e', 'l', 'p'];
    let m = vec!['c', 'o', 'm', 'm', 'a', 'n', 'd', 's'];
    let p = vec!['c', 'o', 'm', 'p', 'l', 'e', 't', 'i', 'o', 'n', 's'];
    assert(h@ =~= help_word());
    assert(m@ =~= commands_word());
    assert(p@ =~= completions_word());
    if crate::text::chars_eq(&c, &h) {
        1
    } else if crate::text::chars_eq(&c, &m) {
        2
    } else if crate::text::chars_eq(&c, &p) {
        3
    } else {
        0
    }
}

/// Whether `s` is a name that the built-in commands reserve.
pub(crate) fn reserved_name(s: &str) -> (r: bool)
    ensures
        r == is_internal_name(s@),
{
    internal_name(s) != 0
}

// ---------------------------------------------------------------------------
// Resolution.
/// The text that documents the node that `t` names.
pub open spec fn text_for(t: Target, root: Entry, entries: Seq<Entry>) -> Seq<Seq<char>> {
    match t {
        Target::TopLevel => strings_view(root.text@),
        Target::Internal(_, _) => Seq::empty(),
        Target::Directory(names) => strings_view(entries[names.len() - 1].text@),
        Target::File(names, _) => strings_view(entries[names.len() - 1].text@),
    }
}

/// A walk that starts inside the path never ends at the top level.
proof fn lemma_walk_not_top(args: Seq<Seq<char>>, kinds: Seq<EntryKind>, i: int)
    requires
        0 <= i < args.len(),
    ensures
        walk(args, kinds, i) != Ok::<Target, Failure>(Target::TopLevel),
    decreases args.len() - i,
{
    if !is_hidden(args[i]) && kind_of(kinds, i) == EntryKind::Directory && i + 1 < args.len() {
        lemma_walk_not_top(args, kinds, i + 1);
    }
}

proof fn lemma_walk_hidden(args: Seq<Seq<char>>, kinds: Seq<EntryKind>, i: int, j: int)
    requires
        0 <= i <= j < args.len(),
        is_hidden(args[j]),
        forall|m: int| i <= m < j ==> kind_of(kinds, m) == EntryKind::Directory,
    ensures
        walk(args, kinds, i) is Err && walk(args, kinds, i)->Err_0 is Unknown,
    decreases j - i,
{
    if i < j && !is_hidden(args[i]) {
        lemma_walk_hidden(args, kinds, i + 1, j);
    }
}

/// A hidden segment never resolves: where the walk reaches a segment that
/// starts with `.` (every segment before it is a directory), resolution fails
/// with an unknown sub command, whatever stands at that segment's path.
pub proof fn lemma_hidden_segment_unknown(args: Seq<Seq<char>>, kinds: Seq<EntryKind>, j: int)
    requires
        0 <= j < args.len(),
        is_hidden(args[j]),
        j > 0 ==> !is_internal_name(args[0]),
        forall|m: int| 0 <= m < j ==> kind_of(kinds, m) == EntryKind::Directory,
    ensures
        resolve(args, kinds) is Err,
        resolve(args, kinds)->Err_0 is Unknown,
{
    if j == 0 {
        assert(args[0][0] != help_word()[0]);
        assert(args[0][0] != commands_word()[0]);
        assert(args[0][0] != completions_word()[0]);
    }
    lemma_walk_hidden(args, kinds, 0, j);
}

/// A built-in name as the first segment intercepts resolution, whatever the
/// filesystem holds: the built-in command takes the other segments as its
/// arguments.
pub proof fn lemma_builtin_intercepts(args: Seq<Seq<char>>, kinds: Seq<EntryKind>)
    requires
        args.len() > 0,
        is_internal_name(args[0]),
    ensures
        resolve(args, kinds) == Ok::<Target, Failure>(Target::Internal(args[0], args.skip(1))),
{
}

/// No segments at all name the top-level command, whatever the filesystem
/// holds.
pub proof fn lemma_no_segments_top_level(kinds: Seq<EntryKind>)
    ensures
        resolve(Seq::empty(), kinds) == Ok::<Target, Failure>(Target::TopLevel),
{
}

/// Walks the command tree along `args` from its first segment, without
/// looking at the built-in names.
pub fn external_subcommand(config: &Config, args: &Vec<String>, entries: &Vec<Entry>) -> (r: Result<
    Command,
    Error,
>)
    requires
        args@.len() > 0,
    ensures
        match walk(strings_view(args@), kinds_of(entries@), 0) {
            Ok(t) => r is Ok && r->Ok_0.target() == t && r->Ok_0.built_from(
                config,
                text_for(t, entries@[0], entries@),
            ),
            Err(f) => r is Err && error_is(r->Err_0, f),
        },
{
    let ghost av = strings_view(args@);
    let ghost kinds = kinds_of(entries@);
    let n = args.len();
    let mut i: usize = 0;
    loop
        invariant
            n == args@.len(),
            av == strings_view(args@),
            kinds == kinds_of(entries@),
            i < n,
            walk(av, kinds, 0) == walk(av, kinds, i as int),
        decreases n - i,
    {
        let c = to_chars(args[i].as_str());
        if c.len() > 0 && c[0] == '.' {
            assert(is_hidden(av[i as int]));
            return Err(Error::UnknownSubCommand(args[i].clone()));
        }
        let kind = if i < entries.len() {
            entries[i].kind
        } else {
            EntryKind::Missing
        };
        assert(kind == kind_of(kinds, i as int));
        match kind {
            EntryKind::Missing => {
                return Err(Error::UnknownSubCommand(args[i].clone()));
            },
            EntryKind::File { executable } => {
                if !executable {
                    return Err(Error::NonExecutable(args[i].clone()));
                }
                let names = copy_range(args, 0, i + 1);
                let rest = copy_range(args, i + 1, n);
                assert(strings_view(names@) =~= av.take(i + 1));
                assert(strings_view(rest@) =~= av.skip(i + 1));
                let f = FileCommand::new(config, names, rest, &entries[i].text);
                return Ok(Command::File(f));
            },
            EntryKind::Directory => {
                if i + 1 == n {
                    let names = copy_range(args, 0, n);
                    assert(strings_view(names@) =~= av);
                    let d = DirectoryCommand::new(config, names, &entries[i].text);
                    return Ok(Command::Directory(d));
                }
                i = i + 1;
            },
        }
    }
}

/// Resolves a command path: nothing names the top-level command, a built-in
/// name as the first segment the built-in command, and any other path is
/// walked through the command tree. `libexec` is the `libexec` directory,
/// whose `README` documents the top-level command, and `entries[i]` what
/// stands at the path of the first `i + 1` segments.
pub fn subcommand(config: &Config, cliargs: Vec<String>, libexec: &Entry, entries: &Vec<Entry>) -> (r: Result<
    Command,
    Error,
>)
    ensures
        match resolve(strings_view(cliargs@), kinds_of(entries@)) {
            Ok(t) => r is Ok && r->Ok_0.target() == t && r->Ok_0.built_from(
                config,
                text_for(t, *libexec, entries@),
            ),
            Err(f) => r is Err && error_is(r->Err_0, f),
        },
{
    if cliargs.len() == 0 {
        return Ok(Command::TopLevel(TopLevelCommand::new(config, &libexec.text)));
    }
    let which = internal_name(cliargs[0].as_str());
    if which != 0 {
        let rest = copy_range(&cliargs, 1, cliargs.len());
        assert(strings_view(rest@) =~= strings_view(cliargs@).skip(1));
        let c = if which == 1 {
            internal_help(rest)
        } else if which == 2 {
            internal_commands(rest)
        } else {
            internal_completions(rest)
        };
        return Ok(Command::Internal(c));
    }
    proof {
        lemma_walk_not_top(strings_view(cliargs@), kinds_of(entries@), 0);
    }
    external_subcommand(config, &cliargs, entries)
}

} // verus!
