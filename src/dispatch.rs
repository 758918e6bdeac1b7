//! What can be done with a resolved command: its name, summary, usage and
//! help, the listing of its subcommands, the completion decision, the
//! environment of a script, and validation.
use vstd::prelude::*;
use vstd::multiset::Multiset;
use crate::commands::{
    commands_word, help_word, internal_commands, internal_help, is_hidden, is_internal_name,
    kind_of, resolve, walk, Command, DirectoryCommand, Entry, EntryKind, FileCommand, Target,
};
use crate::completion::{lookup_hint, CompletionType, CompletionView};
use crate::config::{env_var, Config};
use crate::error::{same_error, Error};
use crate::text::{append_str, push_char, strings_view, to_chars};
use crate::usage::{all_text, first_angled, kv_text};

verus! {

// ---------------------------------------------------------------------------
// The order of names.
/// `a` comes before `b`: character by character, a proper prefix first.
pub open spec fn name_less(a: Seq<char>, b: Seq<char>) -> bool
    decreases a.len(),
{
    if a.len() == 0 {
        b.len() > 0
    } else if b.len() == 0 {
        false
    } else if a[0] != b[0] {
        a[0] < b[0]
    } else {
        name_less(a.drop_first(), b.drop_first())
    }
}

/// No name comes before itself.
pub proof fn lemma_name_less_irreflexive(a: Seq<char>)
    ensures
        !name_less(a, a),
    decreases a.len(),
{
    if a.len() > 0 {
        lemma_name_less_irreflexive(a.drop_first());
    }
}

/// The order of names is transitive.
pub proof fn lemma_name_less_transitive(a: Seq<char>, b: Seq<char>, c: Seq<char>)
    requires
        name_less(a, b),
        name_less(b, c),
    ensures
        name_less(a, c),
    decreases a.len(),
{
    if a.len() > 0 && b.len() > 0 && c.len() > 0 && a[0] == b[0] && b[0] == c[0] {
        lemma_name_less_transitive(a.drop_first(), b.drop_first(), c.drop_first());
    }
}

/// Whether `a` comes before `b`.
pub fn name_lt(a: &str, b: &str) -> (r: bool)
    ensures
        r == name_less(a@, b@),
{
    let n = a.unicode_len();
    let m = b.unicode_len();
    let mut i: usize = 0;
    assert(a@.skip(0) =~= a@);
    assert(b@.skip(0) =~= b@);
    while i < n && i < m && a.get_char(i) == b.get_char(i)
        invariant
            n == a@.len(),
            m == b@.len(),
            i <= n,
            i <= m,
            name_less(a@, b@) == name_less(a@.skip(i as int), b@.skip(i as int)),
        decreases n - i,
    {
        assert(a@.skip(i as int).drop_first() =~= a@.skip(i + 1));
        assert(b@.skip(i as int).drop_first() =~= b@.skip(i + 1));
        i = i + 1;
    }
    if i == n {
        i < m
    } else if i == m {
        false
    } else {
        a.get_char(i) < b.get_char(i)
    }
}

/// The commands stand in the order of their names.
pub open spec fn names_sorted(s: Seq<Command>) -> bool {
    forall|i: int, j: int|
        0 <= i < j < s.len() ==> !name_less(#[trigger] s[j].name_view(), #[trigger] s[i].name_view())
}

// ---------------------------------------------------------------------------
// Listing.
/// The command that the entry `name` of a command group lists, if any.
pub open spec fn child_target(parent: Seq<Seq<char>>, name: Seq<char>, kind: EntryKind, top: bool) -> Option<Target> {
    if is_hidden(name) || (top && is_internal_name(name)) {
        None
    } else {
        match kind {
            EntryKind::Missing => None,
            EntryKind::Directory => Some(Target::Directory(parent.push(name))),
            EntryKind::File { executable } => if executable {
                Some(Target::File(parent.push(name), Seq::empty()))
            } else {
                None
            },
        }
    }
}

/// The commands that the entries of a command group list, in their order.
pub open spec fn listed(parent: Seq<Seq<char>>, listing: Seq<(String, Entry)>, top: bool) -> Seq<Target>
    decreases listing.len(),
{
    if listing.len() == 0 {
        Seq::empty()
    } else {
        let p = listed(parent, listing.drop_last(), top);
        match child_target(parent, listing.last().0@, listing.last().1.kind, top) {
            Some(t) => p.push(t),
            None => p,
        }
    }
}

/// `c` is built from one of the entries: it bears that entry's name and is
/// documented by that entry's text.
pub open spec fn from_listing(c: Command, config: &Config, listing: Seq<(String, Entry)>) -> bool {
    exists|k: int|
        0 <= k < listing.len() && c.name_view() == (#[trigger] listing[k]).0@ && c.built_from(
            config,
            strings_view(listing[k].1.text@),
        )
}

pub open spec fn targets(s: Seq<Command>) -> Seq<Target> {
    s.map_values(|c: Command| c.target())
}

/// The completion decision for a command.
#[derive(Debug, Clone)]
pub enum CompletionAction {
    /// Nothing to offer.
    Nothing,
    /// Run the script in completion mode for the named argument.
    RunScript(String),
    /// Run the given shell command.
    RunShell(String),
    /// Run the script with `--complete`.
    Legacy,
    /// List the names of the group's subcommands.
    ListChildren,
}

/// The mathematical form of a [`CompletionAction`].
pub enum ActionView {
    Nothing,
    RunScript(Seq<char>),
    RunShell(Seq<char>),
    Legacy,
    ListChildren,
}

impl View for CompletionAction {
    type V = ActionView;

    open spec fn view(&self) -> ActionView {
        match self {
            CompletionAction::Nothing => ActionView::Nothing,
            CompletionAction::RunScript(n) => ActionView::RunScript(n@),
            CompletionAction::RunShell(c) => ActionView::RunShell(c@),
            CompletionAction::Legacy => ActionView::Legacy,
            CompletionAction::ListChildren => ActionView::ListChildren,
        }
    }
}

/// What completing a command does, given the entries that the argument
/// validator names as missing.
pub open spec fn completion_of(c: Command, missing: Seq<Seq<char>>) -> ActionView {
    match c {
        Command::File(f) => if f.usage.completions.provides_completions {
            match first_angled(missing) {
                Some(n) => match lookup_hint(f.usage.completions.completion_types@, n) {
                    Some(CompletionView::Script) => ActionView::RunScript(n),
                    Some(CompletionView::LiteralCommand(s)) => ActionView::RunShell(s),
                    None => ActionView::Nothing,
                },
                None => ActionView::Nothing,
            }
        } else if f.legacy_completions {
            ActionView::Legacy
        } else {
            ActionView::Nothing
        },
        Command::Internal(_) => ActionView::Nothing,
        _ => ActionView::ListChildren,
    }
}

// ---------------------------------------------------------------------------
// Help.
pub open spec fn max_name_len(rows: Seq<Command>) -> nat
    decreases rows.len(),
{
    if rows.len() == 0 {
        0
    } else {
        let m = max_name_len(rows.drop_last());
        if rows.last().name_view().len() > m {
            rows.last().name_view().len()
        } else {
            m
        }
    }
}

pub open spec fn spaces(n: nat) -> Seq<char> {
    Seq::new(n, |i: int| ' ')
}

/// One row of a listing: the name padded to `width`, then the summary.
pub open spec fn row_text(c: Command, width: nat) -> Seq<char> {
    seq![' ', ' ', ' ', ' '] + c.name_view() + spaces((width - c.name_view().len()) as nat)
        + c.summary_view() + seq!['\n']
}

pub open spec fn rows_text(rows: Seq<Command>, width: nat) -> Seq<char>
    decreases rows.len(),
{
    if rows.len() == 0 {
        Seq::empty()
    } else {
        rows_text(rows.drop_last(), width) + row_text(rows.last(), width)
    }
}

pub open spec fn listing_header() -> Seq<char> {
    seq![
        '\n', '\n', 'A', 'v', 'a', 'i', 'l', 'a', 'b', 'l', 'e', ' ', 's', 'u', 'b', 'c', 'o', 'm',
        'm', 'a', 'n', 'd', 's', ':', '\n',
    ]
}

/// The listing of subcommands: a header, then one row each, the names in a
/// column four wider than the longest.
pub open spec fn listing_text(rows: Seq<Command>) -> Seq<char> {
    if rows.len() == 0 {
        Seq::empty()
    } else {
        listing_header() + rows_text(rows, max_name_len(rows) + 4)
    }
}

// ---------------------------------------------------------------------------
// Validation.
/// The deferred failure of a command, with its path.
pub open spec fn node_errors(c: Command) -> Seq<(Seq<char>, Error)> {
    match c {
        Command::File(f) => match f.usage.error {
            Some(e) => seq![(f.path@, e)],
            None => Seq::empty(),
        },
        _ => Seq::empty(),
    }
}

/// The deferred failures of all the commands, in their order.
pub open spec fn tree_errors(nodes: Seq<Command>) -> Seq<(Seq<char>, Error)>
    decreases nodes.len(),
{
    if nodes.len() == 0 {
        Seq::empty()
    } else {
        tree_errors(nodes.drop_last()) + node_errors(nodes.last())
    }
}

/// `r` reports what `s` holds.
pub open spec fn errors_agree(r: Seq<(String, Error)>, s: Seq<(Seq<char>, Error)>) -> bool {
    r.len() == s.len() && forall|i: int|
        0 <= i < r.len() ==> (#[trigger] r[i]).0@ == s[i].0 && same_error(s[i].1, r[i].1)
}

// ---------------------------------------------------------------------------
// Environment.
pub open spec fn root_word() -> Seq<char> {
    seq!['R', 'O', 'O', 'T']
}

pub open spec fn cache_word() -> Seq<char> {
    seq!['C', 'A', 'C', 'H', 'E']
}

pub open spec fn args_var_word() -> Seq<char> {
    seq!['A', 'R', 'G', 'S']
}

pub open spec fn complete_word() -> Seq<char> {
    seq!['C', 'O', 'M', 'P', 'L', 'E', 'T', 'E']
}

pub open spec fn complete_arg_word() -> Seq<char> {
    seq!['C', 'O', 'M', 'P', 'L', 'E', 'T', 'E', '_', 'A', 'R', 'G']
}

pub open spec fn true_word() -> Seq<char> {
    seq!['t', 'r', 'u', 'e']
}

pub open spec fn env_views(v: Seq<(String, String)>) -> Seq<(Seq<char>, Seq<char>)> {
    v.map_values(|p: (String, String)| (p.0@, p.1@))
}

impl Command {
    /// Path segments are present where the command has them.
    pub open spec fn wf(&self) -> bool {
        match self {
            Command::Directory(d) => d.names@.len() > 0,
            Command::File(f) => f.names@.len() > 0,
            _ => true,
        }
    }

    /// The name under which the command is listed.
    pub fn name(&self) -> (r: &String)
        requires
            self.wf(),
        ensures
            r@ == self.name_view(),
    {
        match self {
            Command::TopLevel(t) => &t.name,
            Command::Internal(c) => &c.name,
            Command::Directory(d) => &d.names[d.names.len() - 1],
            Command::File(f) => &f.names[f.names.len() - 1],
        }
    }

    /// The summary shown beside the name in a listing.
    pub fn summary(&self) -> (r: String)
        ensures
            r@ == self.summary_view(),
    {
        match self {
            Command::TopLevel(t) => t.usage.summary(),
            Command::Internal(c) => c.summary.clone(),
            Command::Directory(d) => d.usage.summary(),
            Command::File(f) => f.usage.summary(),
        }
    }

    /// The usage text; for a script, its deferred failure where its usage
    /// line does not parse. A built-in command has none.
    pub fn usage(&self) -> (r: Result<String, Error>)
        ensures
            match self {
                Command::File(f) => match f.usage.error {
                    Some(e) => r is Err && same_error(r->Err_0, e),
                    None => r is Ok && r->Ok_0@ == f.usage.usage_text(),
                },
                Command::Directory(d) => r is Ok && r->Ok_0@ == d.usage.usage_text(),
                Command::TopLevel(t) => r is Ok && r->Ok_0@ == t.usage.usage_text(),
                Command::Internal(_) => r is Ok && r->Ok_0@.len() == 0,
            },
    {
        match self {
            Command::File(f) => {
                match f.usage.validate() {
                    Err(e) => Err(e),
                    Ok(_) => Ok(f.usage.generate()),
                }
            },
            Command::Directory(d) => Ok(d.usage.generate()),
            Command::TopLevel(t) => Ok(t.usage.generate()),
            Command::Internal(_) => Ok(String::new()),
        }
    }

    /// The help text. For a command group, `children` are its subcommands,
    /// listed after its own help.
    pub fn help(&self, children: &Vec<Command>) -> (r: Result<String, Error>)
        requires
            forall|i: int| 0 <= i < children@.len() ==> (#[trigger] children@[i]).wf(),
            forall|i: int|
                0 <= i < children@.len() ==> (#[trigger] children@[i]).name_view().len() + 4
                    <= usize::MAX,
        ensures
            match self {
                Command::File(f) => match f.usage.error {
                    Some(e) => r is Err && same_error(r->Err_0, e),
                    None => r is Ok && r->Ok_0@ == f.usage.help_text(),
                },
                Command::Directory(d) => d.usage.error is None ==> r is Ok && r->Ok_0@
                    == d.usage.help_text() + listing_text(children@),
                Command::TopLevel(t) => t.usage.error is None ==> r is Ok && r->Ok_0@
                    == t.usage.help_text() + listing_text(children@),
                Command::Internal(c) => r is Ok && r->Ok_0@ == c.description@,
            },
    {
        match self {
            Command::File(f) => f.usage.help(),
            Command::Internal(c) => Ok(c.description.clone()),
            Command::Directory(d) => {
                match d.usage.help() {
                    Ok(h) => {
                        let mut h = h;
                        append_listing(&mut h, children);
                        Ok(h)
                    },
                    Err(e) => Err(e),
                }
            },
            Command::TopLevel(t) => {
                match t.usage.help() {
                    Ok(h) => {
                        let mut h = h;
                        append_listing(&mut h, children);
                        Ok(h)
                    },
                    Err(e) => Err(e),
                }
            },
        }
    }

    /// The subcommands of a command group, given its directory's entries by
    /// name: every entry that resolves, in the order of their names; after
    /// them, at the top level, the built-in `help` and `commands`. Hidden
    /// entries and entries that do not resolve are left out.
    pub fn subcommands(&self, config: &Config, listing: &Vec<(String, Entry)>) -> (r: Vec<Command>)
        ensures
            match self {
                Command::Directory(d) => {
                    &&& targets(r@).to_multiset() == listed(strings_view(d.names@), listing@, false).to_multiset()
                    &&& names_sorted(r@)
                    &&& forall|i: int| 0 <= i < r@.len() ==> (#[trigger] r@[i]).wf()
                    &&& forall|i: int| 0 <= i < r@.len() ==> from_listing(#[trigger] r@[i], config, listing@)
                },
                Command::TopLevel(_) => {
                    let k = listed(Seq::empty(), listing@, true).len();
                    &&& r@.len() == k + 2
                    &&& targets(r@.take(k as int)).to_multiset() == listed(Seq::empty(), listing@, true).to_multiset()
                    &&& names_sorted(r@.take(k as int))
                    &&& forall|i: int| 0 <= i < r@.len() ==> (#[trigger] r@[i]).wf()
                    &&& forall|i: int| 0 <= i < k ==> from_listing(#[trigger] r@[i], config, listing@)
                    &&& r@[k as int].name_view() == help_word()
                    &&& r@[k as int + 1].name_view() == commands_word()
                },
                _ => r@.len() == 0,
            },
    {
        match self {
            Command::Directory(d) => sorted_children(config, &d.names, listing, false),
            Command::TopLevel(_) => {
                let empty: Vec<String> = Vec::new();
                let mut r = sorted_children(config, &empty, listing, true);
                assert(strings_view(empty@) =~= Seq::<Seq<char>>::empty());
                let ghost sorted = r@;
                r.push(Command::Internal(internal_help(Vec::new())));
                r.push(Command::Internal(internal_commands(Vec::new())));
                assert(r@.take(sorted.len() as int) =~= sorted);
                r
            },
            _ => Vec::new(),
        }
    }

    /// What completing this command does, given the entries that the
    /// argument validator names as missing.
    pub fn completion_action(&self, missing: &Vec<String>) -> (r: CompletionAction)
        ensures
            r@ == completion_of(*self, strings_view(missing@)),
    {
        match self {
            Command::File(f) => {
                if f.usage.provides_completions() {
                    match f.usage.get_next_option_name_for_completions(missing) {
                        Some(n) => match f.usage.get_completion_type(n.as_str()) {
                            Some(CompletionType::Script) => CompletionAction::RunScript(n),
                            Some(CompletionType::LiteralCommand(s)) => CompletionAction::RunShell(
                                s,
                            ),
                            None => CompletionAction::Nothing,
                        },
                        None => CompletionAction::Nothing,
                    }
                } else if f.legacy_completions {
                    CompletionAction::Legacy
                } else {
                    CompletionAction::Nothing
                }
            },
            Command::Internal(_) => CompletionAction::Nothing,
            _ => CompletionAction::ListChildren,
        }
    }

    /// The report of the subtree at this command: a script's own deferred
    /// failure; for a command group, the reports of its subcommands
    /// (`children`, in the order of its listing) one after the other.
    pub fn validate_subtree(&self, children: &Vec<Vec<(String, Error)>>) -> (r: Vec<
        (String, Error),
    >)
        ensures
            match self {
                Command::File(_) => errors_agree(r@, node_errors(*self)),
                Command::Internal(_) => r@.len() == 0,
                _ => same_reports(r@, flat_reports(children@)),
            },
    {
        match self {
            Command::File(_) => self.validate(),
            Command::Internal(_) => Vec::new(),
            _ => {
                let mut r: Vec<(String, Error)> = Vec::new();
                let mut i: usize = 0;
                while i < children.len()
                    invariant
                        i <= children@.len(),
                        same_reports(r@, flat_reports(children@.take(i as int))),
                    decreases children@.len() - i,
                {
                    let ghost before = r@;
                    let c = &children[i];
                    let mut j: usize = 0;
                    while j < c.len()
                        invariant
                            j <= c@.len(),
                            r@.len() == before.len() + j,
                            forall|k: int| 0 <= k < before.len() ==> r@[k] == before[k],
                            forall|k: int|
                                0 <= k < j ==> (#[trigger] r@[before.len() + k]).0@ == c@[k].0@
                                    && same_error(c@[k].1, r@[before.len() + k].1),
                        decreases c@.len() - j,
                    {
                        r.push((c[j].0.clone(), c[j].1.duplicate()));
                        j = j + 1;
                    }
                    proof {
                        assert(children@.take(i + 1).drop_last() =~= children@.take(i as int));
                        assert(children@.take(i + 1).last() == children@[i as int]);
                        let want = flat_reports(children@.take(i + 1));
                        let prev = flat_reports(children@.take(i as int));
                        assert(want =~= prev + c@);
                        assert forall|k: int| 0 <= k < r@.len() implies (#[trigger] r@[k]).0@
                            == want[k].0@ && same_error(want[k].1, r@[k].1) by {
                            if k >= before.len() {
                                let m = k - before.len();
                                assert(r@[before.len() + m] == r@[k]);
                                assert(want[k] == c@[m]);
                            } else {
                                assert(r@[k] == before[k]);
                                assert(want[k] == prev[k]);
                                lemma_same_error_transitive(want[k].1, before[k].1, r@[k].1);
                            }
                        }
                    }
                    i = i + 1;
                }
                assert(children@.take(children@.len() as int) =~= children@);
                r
            },
        }
    }

    /// The deferred failure of this command, with its path.
    pub fn validate(&self) -> (r: Vec<(String, Error)>)
        ensures
            errors_agree(r@, node_errors(*self)),
    {
        let mut r: Vec<(String, Error)> = Vec::new();
        match self {
            Command::File(f) => match &f.usage.error {
                Some(e) => {
                    r.push((f.path.clone(), e.duplicate()));
                },
                None => {},
            },
            _ => {},
        }
        r
    }
}

/// The reports one after the other.
pub open spec fn flat_reports(v: Seq<Vec<(String, Error)>>) -> Seq<(String, Error)>
    decreases v.len(),
{
    if v.len() == 0 {
        Seq::empty()
    } else {
        flat_reports(v.drop_last()) + v.last()@
    }
}

/// Two reports name the same paths with the same errors, in order.
pub open spec fn same_reports(r: Seq<(String, Error)>, s: Seq<(String, Error)>) -> bool {
    r.len() == s.len() && forall|i: int|
        0 <= i < r.len() ==> (#[trigger] r[i]).0@ == s[i].0@ && same_error(s[i].1, r[i].1)
}

/// A command group's report is its subcommands' reports one after the
/// other, whether or not some of them hold failures.
pub proof fn lemma_one_failing_child(v: Seq<Vec<(String, Error)>>, k: int)
    requires
        0 <= k < v.len(),
        forall|i: int| 0 <= i < v.len() && i != k ==> (#[trigger] v[i])@.len() == 0,
    ensures
        flat_reports(v) == v[k]@,
    decreases v.len(),
{
    if v.len() == k + 1 {
        lemma_empty_reports(v.drop_last());
        assert(flat_reports(v) =~= v[k]@);
    } else {
        let p = v.drop_last();
        assert forall|i: int| 0 <= i < p.len() && i != k implies (#[trigger] p[i])@.len() == 0 by {
            assert(p[i] == v[i]);
        }
        lemma_one_failing_child(p, k);
        assert(v.last()@.len() == 0);
        assert(flat_reports(v) =~= flat_reports(p));
    }
}

proof fn lemma_empty_reports(v: Seq<Vec<(String, Error)>>)
    requires
        forall|i: int| 0 <= i < v.len() ==> (#[trigger] v[i])@.len() == 0,
    ensures
        flat_reports(v).len() == 0,
    decreases v.len(),
{
    if v.len() > 0 {
        let p = v.drop_last();
        assert forall|i: int| 0 <= i < p.len() implies (#[trigger] p[i])@.len() == 0 by {
            assert(p[i] == v[i]);
        }
        lemma_empty_reports(p);
        assert(v.last()@.len() == 0);
    }
}

/// The deferred failures of all the given commands, in their order: one
/// command's failure does not stop the others from being examined.
pub fn validate_all(nodes: &Vec<Command>) -> (r: Vec<(String, Error)>)
    ensures
        errors_agree(r@, tree_errors(nodes@)),
{
    let mut r: Vec<(String, Error)> = Vec::new();
    let mut i: usize = 0;
    while i < nodes.len()
        invariant
            i <= nodes@.len(),
            errors_agree(r@, tree_errors(nodes@.take(i as int))),
        decreases nodes@.len() - i,
    {
        let e = nodes[i].validate();
        let ghost before = r@;
        let mut j: usize = 0;
        while j < e.len()
            invariant
                i < nodes@.len(),
                j <= e@.len(),
                errors_agree(e@, node_errors(nodes@[i as int])),
                r@.len() == before.len() + j,
                forall|k: int| 0 <= k < before.len() ==> r@[k] == before[k],
                forall|k: int|
                    0 <= k < j ==> (#[trigger] r@[before.len() + k]).0@ == e@[k].0@ && same_error(
                        node_errors(nodes@[i as int])[k].1,
                        r@[before.len() + k].1,
                    ),
            decreases e@.len() - j,
        {
            r.push((e[j].0.clone(), e[j].1.duplicate()));
            proof {
                let a = node_errors(nodes@[i as int])[j as int].1;
                let b = e@[j as int].1;
                let c = r@[before.len() + j].1;
                lemma_same_error_transitive(a, b, c);
            }
            j = j + 1;
        }
        proof {
            assert(nodes@.take(i + 1).drop_last() =~= nodes@.take(i as int));
            let want = tree_errors(nodes@.take(i + 1));
            assert(want =~= tree_errors(nodes@.take(i as int)) + node_errors(nodes@[i as int]));
            assert forall|k: int| 0 <= k < r@.len() implies (#[trigger] r@[k]).0@ == want[k].0
                && same_error(want[k].1, r@[k].1) by {
                let prev = tree_errors(nodes@.take(i as int));
                if k >= before.len() {
                    let m = k - before.len();
                    assert(r@[before.len() + m] == r@[k]);
                    assert(want[k] == node_errors(nodes@[i as int])[m]);
                } else {
                    assert(r@[k] == before[k]);
                    assert(want[k] == prev[k]);
                }
            }
        }
        i = i + 1;
    }
    assert(nodes@.take(nodes@.len() as int) =~= nodes@);
    r
}

proof fn lemma_same_error_transitive(a: Error, b: Error, c: Error)
    requires
        same_error(a, b),
        same_error(b, c),
    ensures
        same_error(a, c),
{
}

// ---------------------------------------------------------------------------
// Facts of listing and validation.
proof fn lemma_walk_through(parent: Seq<Seq<char>>, name: Seq<char>, kind: EntryKind, i: int)
    requires
        0 <= i <= parent.len(),
        forall|m: int| 0 <= m < parent.len() ==> !is_hidden(#[trigger] parent[m]),
    ensures
        walk(parent.push(name), Seq::new(parent.len(), |m: int| EntryKind::Directory).push(kind), i)
            == walk(
            parent.push(name),
            Seq::new(parent.len(), |m: int| EntryKind::Directory).push(kind),
            parent.len() as int,
        ),
    decreases parent.len() - i,
{
    let args = parent.push(name);
    let kinds = Seq::new(parent.len(), |m: int| EntryKind::Directory).push(kind);
    if i < parent.len() {
        assert(args[i] == parent[i]);
        assert(kind_of(kinds, i) == EntryKind::Directory);
        lemma_walk_through(parent, name, kind, i + 1);
    }
}

/// A command group lists exactly the entries that resolve: for a group at
/// `parent` (directories, none hidden, the first not a built-in name), the
/// entry `name` of kind `kind` is listed as the command that the path
/// `parent` + `name` resolves to, and it is left out where that path does
/// not resolve.
pub proof fn lemma_listed_iff_resolves(parent: Seq<Seq<char>>, name: Seq<char>, kind: EntryKind)
    requires
        parent.len() > 0,
        !is_internal_name(parent[0]),
        forall|m: int| 0 <= m < parent.len() ==> !is_hidden(#[trigger] parent[m]),
    ensures
        child_target(parent, name, kind, false) == match resolve(
            parent.push(name),
            Seq::new(parent.len(), |m: int| EntryKind::Directory).push(kind),
        ) {
            Ok(t) => Some(t),
            Err(_) => None::<Target>,
        },
{
    let args = parent.push(name);
    let kinds = Seq::new(parent.len(), |m: int| EntryKind::Directory).push(kind);
    lemma_walk_through(parent, name, kind, 0);
    assert(args[0] == parent[0]);
    assert(args[parent.len() as int] == name);
    assert(kind_of(kinds, parent.len() as int) == kind);
    assert(args.take(parent.len() as int + 1) =~= args);
    assert(args.skip(parent.len() as int + 1) =~= Seq::<Seq<char>>::empty());
}

/// The same for the top level: an entry that is not a built-in name is
/// listed as the command that it resolves to, and left out where it does not
/// resolve.
pub proof fn lemma_top_listed_iff_resolves(name: Seq<char>, kind: EntryKind)
    requires
        !is_internal_name(name),
    ensures
        child_target(Seq::empty(), name, kind, true) == match resolve(
            seq![name],
            seq![kind],
        ) {
            Ok(t) => Some(t),
            Err(_) => None::<Target>,
        },
{
    let args = seq![name];
    assert(Seq::<Seq<char>>::empty().push(name) =~= args);
    assert(args.take(1) =~= args);
    assert(args.skip(1) =~= Seq::<Seq<char>>::empty());
    assert(kind_of(seq![kind], 0) == kind);
}

/// Validation reports each failing command once and goes on past it: where
/// exactly one of the commands has a deferred failure, the report is that
/// failure alone.
pub proof fn lemma_single_failure(nodes: Seq<Command>, k: int)
    requires
        0 <= k < nodes.len(),
        node_errors(nodes[k]).len() == 1,
        forall|i: int| 0 <= i < nodes.len() && i != k ==> node_errors(#[trigger] nodes[i]).len() == 0,
    ensures
        tree_errors(nodes) == node_errors(nodes[k]),
    decreases nodes.len(),
{
    lemma_no_failures(nodes.take(k), k);
    lemma_prefix_then_rest(nodes, k);
}

proof fn lemma_no_failures(nodes: Seq<Command>, n: int)
    requires
        nodes.len() == n,
        forall|i: int| 0 <= i < nodes.len() ==> node_errors(#[trigger] nodes[i]).len() == 0,
    ensures
        tree_errors(nodes).len() == 0,
    decreases nodes.len(),
{
    if nodes.len() > 0 {
        let p = nodes.drop_last();
        assert forall|i: int| 0 <= i < p.len() implies node_errors(#[trigger] p[i]).len() == 0 by {
            assert(p[i] == nodes[i]);
        }
        lemma_no_failures(p, n - 1);
        assert(node_errors(nodes.last()).len() == 0);
    }
}

proof fn lemma_prefix_then_rest(nodes: Seq<Command>, k: int)
    requires
        0 <= k < nodes.len(),
        tree_errors(nodes.take(k)).len() == 0,
        node_errors(nodes[k]).len() == 1,
        forall|i: int| 0 <= i < nodes.len() && i != k ==> node_errors(#[trigger] nodes[i]).len() == 0,
    ensures
        tree_errors(nodes) == node_errors(nodes[k]),
    decreases nodes.len(),
{
    if nodes.len() == k + 1 {
        assert(nodes.drop_last() =~= nodes.take(k));
        assert(tree_errors(nodes) =~= tree_errors(nodes.take(k)) + node_errors(nodes[k]));
    } else {
        let p = nodes.drop_last();
        assert(p.take(k) =~= nodes.take(k));
        assert forall|i: int| 0 <= i < p.len() && i != k implies node_errors(#[trigger] p[i]).len()
            == 0 by {
            assert(p[i] == nodes[i]);
        }
        lemma_prefix_then_rest(p, k);
        assert(node_errors(nodes.last()).len() == 0);
        assert(tree_errors(nodes) =~= tree_errors(p) + node_errors(nodes.last()));
    }
}

/// The deferred failure of a script built from its text is the failure of
/// its usage line.
pub proof fn lemma_failure_is_usage(c: Command, config: &Config, text: Seq<Seq<char>>)
    requires
        c.built_from(config, text),
        node_errors(c).len() > 0,
    ensures
        node_errors(c)[0].1 is InvalidUsageString,
{
}

/// Of two different names, one comes before the other.
pub proof fn lemma_name_less_total(a: Seq<char>, b: Seq<char>)
    ensures
        a == b || name_less(a, b) || name_less(b, a),
    decreases a.len(),
{
    if a.len() > 0 && b.len() > 0 && a[0] == b[0] {
        lemma_name_less_total(a.drop_first(), b.drop_first());
        if a.drop_first() == b.drop_first() {
            assert(a =~= seq![a[0]] + a.drop_first());
            assert(b =~= seq![b[0]] + b.drop_first());
        }
    } else if a.len() == 0 && b.len() == 0 {
        assert(a =~= b);
    }
}

/// The name under which a resolved path is listed.
pub open spec fn target_key(t: Target) -> Seq<char> {
    match t {
        Target::TopLevel => Seq::empty(),
        Target::Internal(n, _) => n,
        Target::Directory(n) => n.last(),
        Target::File(n, _) => n.last(),
    }
}

pub open spec fn keys_sorted(s: Seq<Target>) -> bool {
    forall|i: int, j: int|
        0 <= i < j < s.len() ==> !name_less(target_key(#[trigger] s[j]), target_key(#[trigger] s[i]))
}

/// No two different paths of `m` share a name.
pub open spec fn keys_unique(m: Multiset<Target>) -> bool {
    forall|x: Target, y: Target|
        m.count(x) > 0 && m.count(y) > 0 && target_key(x) == target_key(y) ==> x == y
}

proof fn lemma_sorted_unique(a: Seq<Target>, b: Seq<Target>)
    requires
        keys_sorted(a),
        keys_sorted(b),
        a.to_multiset() == b.to_multiset(),
        keys_unique(a.to_multiset()),
    ensures
        a == b,
    decreases a.len(),
{
    broadcast use vstd::multiset::group_multiset_axioms;

    vstd::seq_lib::to_multiset_len(a);
    vstd::seq_lib::to_multiset_len(b);
    if a.len() == 0 {
        assert(a =~= b);
    } else {
        let x = a[0];
        let y = b[0];
        assert(a.contains(x));
        assert(b.contains(y));
        vstd::seq_lib::to_multiset_contains(a, x);
        vstd::seq_lib::to_multiset_contains(b, y);
        vstd::seq_lib::to_multiset_contains(a, y);
        vstd::seq_lib::to_multiset_contains(b, x);
        let i = choose|i: int| 0 <= i < a.len() && a[i] == y;
        let j = choose|j: int| 0 <= j < b.len() && b[j] == x;
        assert(!name_less(target_key(y), target_key(x))) by {
            if i > 0 {
                assert(!name_less(target_key(a[i]), target_key(a[0])));
            } else {
                lemma_name_less_irreflexive(target_key(x));
            }
        }
        assert(!name_less(target_key(x), target_key(y))) by {
            if j > 0 {
                assert(!name_less(target_key(b[j]), target_key(b[0])));
            } else {
                lemma_name_less_irreflexive(target_key(y));
            }
        }
        lemma_name_less_total(target_key(x), target_key(y));
        assert(x == y);
        vstd::seq_lib::to_multiset_remove(a, 0);
        vstd::seq_lib::to_multiset_remove(b, 0);
        assert(a.remove(0) =~= a.drop_first());
        assert(b.remove(0) =~= b.drop_first());
        let a2 = a.drop_first();
        let b2 = b.drop_first();
        assert(a2.to_multiset() == b2.to_multiset());
        assert forall|u: Target, v: Target|
            a2.to_multiset().count(u) > 0 && a2.to_multiset().count(v) > 0 && target_key(u)
                == target_key(v) implies u == v by {
            assert(a2.to_multiset().count(u) <= a.to_multiset().count(u));
            assert(a2.to_multiset().count(v) <= a.to_multiset().count(v));
        }
        assert forall|p: int, q: int| 0 <= p < q < a2.len() implies !name_less(
            target_key(#[trigger] a2[q]),
            target_key(#[trigger] a2[p]),
        ) by {
            assert(a2[q] == a[q + 1] && a2[p] == a[p + 1]);
        }
        assert forall|p: int, q: int| 0 <= p < q < b2.len() implies !name_less(
            target_key(#[trigger] b2[q]),
            target_key(#[trigger] b2[p]),
        ) by {
            assert(b2[q] == b[q + 1] && b2[p] == b[p + 1]);
        }
        lemma_sorted_unique(a2, b2);
        assert(a =~= b) by {
            assert forall|k: int| 0 <= k < a.len() implies a[k] == b[k] by {
                if k > 0 {
                    assert(a[k] == a2[k - 1]);
                    assert(b[k] == b2[k - 1]);
                }
            }
        }
    }
}

proof fn lemma_listed_keys(parent: Seq<Seq<char>>, listing: Seq<(String, Entry)>, top: bool)
    ensures
        forall|i: int|
            0 <= i < listed(parent, listing, top).len() ==> exists|k: int|
                0 <= k < listing.len() && target_key(#[trigger] listed(parent, listing, top)[i])
                    == listing[k].0@,
        forall|i: int|
            0 <= i < listed(parent, listing, top).len() ==> !(#[trigger] listed(
                parent,
                listing,
                top,
            )[i] is TopLevel),
        (forall|p: int, q: int|
            0 <= p < q < listing.len() ==> (#[trigger] listing[p]).0@ != (#[trigger] listing[q]).0@)
            ==> forall|i: int, j: int|
            0 <= i < j < listed(parent, listing, top).len() ==> target_key(
                #[trigger] listed(parent, listing, top)[i],
            ) != target_key(#[trigger] listed(parent, listing, top)[j]),
    decreases listing.len(),
{
    if listing.len() > 0 {
        let init = listing.drop_last();
        lemma_listed_keys(parent, init, top);
        let p = listed(parent, init, top);
        let l = listed(parent, listing, top);
        let last = listing.last();
        match child_target(parent, last.0@, last.1.kind, top) {
            Some(t) => {
                assert(l == p.push(t));
                assert(target_key(t) == last.0@) by {
                    assert(parent.push(last.0@).last() == last.0@);
                }
                assert forall|i: int| 0 <= i < l.len() implies exists|k: int|
                    0 <= k < listing.len() && target_key(#[trigger] l[i]) == listing[k].0@ by {
                    if i == l.len() - 1 {
                        assert(target_key(l[i]) == listing[listing.len() - 1].0@);
                    } else {
                        assert(l[i] == p[i]);
                        let k = choose|k: int| 0 <= k < init.len() && target_key(p[i]) == init[k].0@;
                        assert(init[k] == listing[k]);
                    }
                }
                assert forall|i: int| 0 <= i < l.len() implies !(#[trigger] l[i] is TopLevel) by {
                    if i < l.len() - 1 {
                        assert(l[i] == p[i]);
                    }
                }
                if forall|a: int, b: int|
                    0 <= a < b < listing.len() ==> (#[trigger] listing[a]).0@ != (
                    #[trigger] listing[b]).0@ {
                    assert forall|a: int, b: int|
                        0 <= a < b < init.len() implies (#[trigger] init[a]).0@ != (
                        #[trigger] init[b]).0@ by {
                        assert(init[a] == listing[a] && init[b] == listing[b]);
                    }
                    assert forall|i: int, j: int| 0 <= i < j < l.len() implies target_key(
                        #[trigger] l[i],
                    ) != target_key(#[trigger] l[j]) by {
                        assert(l[i] == p[i]);
                        if j == l.len() - 1 {
                            let k = choose|k: int|
                                0 <= k < init.len() && target_key(p[i]) == init[k].0@;
                            assert(init[k] == listing[k]);
                            assert(listing[k].0@ != listing[listing.len() - 1].0@);
                        } else {
                            assert(l[j] == p[j]);
                        }
                    }
                }
            },
            None => {
                assert(l == p);
                assert forall|i: int| 0 <= i < l.len() implies exists|k: int|
                    0 <= k < listing.len() && target_key(#[trigger] l[i]) == listing[k].0@ by {
                    let k = choose|k: int| 0 <= k < init.len() && target_key(p[i]) == init[k].0@;
                    assert(init[k] == listing[k]);
                }
                if forall|a: int, b: int|
                    0 <= a < b < listing.len() ==> (#[trigger] listing[a]).0@ != (
                    #[trigger] listing[b]).0@ {
                    assert forall|a: int, b: int|
                        0 <= a < b < init.len() implies (#[trigger] init[a]).0@ != (
                        #[trigger] init[b]).0@ by {
                        assert(init[a] == listing[a] && init[b] == listing[b]);
                    }
                }
            },
        }
    }
}

/// Listing a command group twice gives the same commands in the same order:
/// where the entries have different names, two listings that each hold the
/// commands that the entries resolve to, in the order of their names, agree.
pub proof fn lemma_listing_determined(
    r1: Seq<Command>,
    r2: Seq<Command>,
    parent: Seq<Seq<char>>,
    listing: Seq<(String, Entry)>,
    top: bool,
)
    requires
        forall|p: int, q: int|
            0 <= p < q < listing.len() ==> (#[trigger] listing[p]).0@ != (#[trigger] listing[q]).0@,
        targets(r1).to_multiset() == listed(parent, listing, top).to_multiset(),
        targets(r2).to_multiset() == listed(parent, listing, top).to_multiset(),
        names_sorted(r1),
        names_sorted(r2),
        forall|i: int| 0 <= i < r1.len() ==> (#[trigger] r1[i]).wf(),
        forall|i: int| 0 <= i < r2.len() ==> (#[trigger] r2[i]).wf(),
    ensures
        targets(r1) == targets(r2),
{
    broadcast use vstd::seq_lib::to_multiset_contains;

    let l = listed(parent, listing, top);
    lemma_listed_keys(parent, listing, top);
    assert forall|x: Target, y: Target|
        l.to_multiset().count(x) > 0 && l.to_multiset().count(y) > 0 && target_key(x)
            == target_key(y) implies x == y by {
        vstd::seq_lib::to_multiset_contains(l, x);
        vstd::seq_lib::to_multiset_contains(l, y);
        assert(l.contains(x));
        assert(l.contains(y));
        let i = choose|i: int| 0 <= i < l.len() && l[i] == x;
        let j = choose|j: int| 0 <= j < l.len() && l[j] == y;
        if i < j {
            assert(target_key(l[i]) != target_key(l[j]));
        } else if j < i {
            assert(target_key(l[j]) != target_key(l[i]));
        }
    }
    lemma_keys_follow_names(r1, l);
    lemma_keys_follow_names(r2, l);
    lemma_sorted_unique(targets(r1), targets(r2));
}

/// The number of entries whose names are not hidden.
pub open spec fn visible_count(listing: Seq<(String, Entry)>) -> nat
    decreases listing.len(),
{
    if listing.len() == 0 {
        0
    } else {
        visible_count(listing.drop_last()) + if is_hidden(listing.last().0@) {
            0nat
        } else {
            1nat
        }
    }
}

/// A listing holds at most one command per entry whose name is not hidden.
pub proof fn lemma_listing_bounded(parent: Seq<Seq<char>>, listing: Seq<(String, Entry)>, top: bool)
    ensures
        listed(parent, listing, top).len() <= visible_count(listing),
    decreases listing.len(),
{
    if listing.len() > 0 {
        lemma_listing_bounded(parent, listing.drop_last(), top);
    }
}

/// The names of a listing stand in strictly ascending order: where the
/// entries have different names, no two listed commands share a name.
pub proof fn lemma_listing_strictly_sorted(
    r: Seq<Command>,
    parent: Seq<Seq<char>>,
    listing: Seq<(String, Entry)>,
    top: bool,
)
    requires
        forall|p: int, q: int|
            0 <= p < q < listing.len() ==> (#[trigger] listing[p]).0@ != (#[trigger] listing[q]).0@,
        targets(r).to_multiset() == listed(parent, listing, top).to_multiset(),
        names_sorted(r),
        forall|i: int| 0 <= i < r.len() ==> (#[trigger] r[i]).wf(),
    ensures
        forall|i: int, j: int|
            0 <= i < j < r.len() ==> name_less(#[trigger] r[i].name_view(), #[trigger] r[j].name_view()),
{
    let l = listed(parent, listing, top);
    let t = targets(r);
    lemma_listed_keys(parent, listing, top);
    lemma_keys_follow_names(r, l);
    assert(l.no_duplicates()) by {
        assert forall|i: int, j: int| 0 <= i < l.len() && 0 <= j < l.len() && i != j implies l[i]
            != l[j] by {
            if i < j {
                assert(target_key(l[i]) != target_key(l[j]));
            } else {
                assert(target_key(l[j]) != target_key(l[i]));
            }
        }
    }
    l.lemma_multiset_has_no_duplicates();
    assert forall|i: int, j: int| 0 <= i < j < r.len() implies name_less(
        #[trigger] r[i].name_view(),
        #[trigger] r[j].name_view(),
    ) by {
        assert(!name_less(r[j].name_view(), r[i].name_view()));
        lemma_name_less_total(r[i].name_view(), r[j].name_view());
        if r[i].name_view() == r[j].name_view() {
            let x = t[i];
            let y = t[j];
            assert(target_key(x) == target_key(y));
            vstd::seq_lib::to_multiset_contains(t, x);
            vstd::seq_lib::to_multiset_contains(t, y);
            vstd::seq_lib::to_multiset_contains(l, x);
            vstd::seq_lib::to_multiset_contains(l, y);
            assert(t.contains(x) && t.contains(y));
            let a = choose|a: int| 0 <= a < l.len() && l[a] == x;
            let b = choose|b: int| 0 <= b < l.len() && l[b] == y;
            if a != b {
                if a < b {
                    assert(target_key(l[a]) != target_key(l[b]));
                } else {
                    assert(target_key(l[b]) != target_key(l[a]));
                }
            }
            assert(x == y);
            assert(l.to_multiset().count(x) == 1);
            vstd::seq_lib::to_multiset_remove(t, i);
            let t2 = t.remove(i);
            assert(t2[j - 1] == y);
            assert(t2.contains(x));
            vstd::seq_lib::to_multiset_contains(t2, x);
            assert(t2.to_multiset().count(x) == t.to_multiset().count(x) - 1) by {
                broadcast use vstd::multiset::group_multiset_axioms;
            }
            assert(false);
        }
    }
}

proof fn lemma_keys_follow_names(r: Seq<Command>, l: Seq<Target>)
    requires
        targets(r).to_multiset() == l.to_multiset(),
        forall|i: int| 0 <= i < l.len() ==> !(#[trigger] l[i] is TopLevel),
        names_sorted(r),
        forall|i: int| 0 <= i < r.len() ==> (#[trigger] r[i]).wf(),
    ensures
        keys_sorted(targets(r)),
        forall|i: int| 0 <= i < r.len() ==> target_key(#[trigger] targets(r)[i]) == r[i].name_view(),
{
    broadcast use vstd::seq_lib::to_multiset_contains;

    assert forall|i: int| 0 <= i < r.len() implies target_key(#[trigger] targets(r)[i])
        == r[i].name_view() by {
        let t = targets(r)[i];
        assert(targets(r).contains(t));
        vstd::seq_lib::to_multiset_contains(targets(r), t);
        vstd::seq_lib::to_multiset_contains(l, t);
        assert(l.contains(t));
        let k = choose|k: int| 0 <= k < l.len() && l[k] == t;
        assert(!(l[k] is TopLevel));
        match r[i] {
            Command::Directory(d) => {
                assert(strings_view(d.names@).last() == d.names@.last()@);
            },
            Command::File(f) => {
                assert(strings_view(f.names@).last() == f.names@.last()@);
            },
            _ => {},
        }
    }
    assert forall|i: int, j: int| 0 <= i < j < targets(r).len() implies !name_less(
        target_key(#[trigger] targets(r)[j]),
        target_key(#[trigger] targets(r)[i]),
    ) by {
        assert(!name_less(r[j].name_view(), r[i].name_view()));
    }
}

// ---------------------------------------------------------------------------
// Listing, in code.
fn child_node(config: &Config, parent: &Vec<String>, name: &String, entry: &Entry, top: bool) -> (r: Option<Command>)
    ensures
        match child_target(strings_view(parent@), name@, entry.kind, top) {
            Some(t) => r is Some && r->0.target() == t && r->0.wf() && r->0.name_view() == name@
                && r->0.built_from(config, strings_view(entry.text@)),
            None => r is None,
        },
{
    let c = to_chars(name.as_str());
    if c.len() > 0 && c[0] == '.' {
        return None;
    }
    if top && crate::commands::reserved_name(name.as_str()) {
        return None;
    }
    let mut names: Vec<String> = Vec::new();
    let mut i: usize = 0;
    while i < parent.len()
        invariant
            i <= parent@.len(),
            names@ == parent@.take(i as int),
        decreases parent@.len() - i,
    {
        names.push(parent[i].clone());
        assert(names@ =~= parent@.take(i + 1));
        i = i + 1;
    }
    assert(parent@.take(parent@.len() as int) =~= parent@);
    names.push(name.clone());
    assert(strings_view(names@) =~= strings_view(parent@).push(name@));
    match entry.kind {
        EntryKind::Missing => None,
        EntryKind::Directory => {
            let d = DirectoryCommand::new(config, names, &entry.text);
            Some(Command::Directory(d))
        },
        EntryKind::File { executable } => {
            if executable {
                let f = FileCommand::new(config, names, Vec::new(), &entry.text);
                assert(strings_view(f.args@) =~= Seq::<Seq<char>>::empty());
                Some(Command::File(f))
            } else {
                None
            }
        },
    }
}

fn sorted_children(config: &Config, parent: &Vec<String>, listing: &Vec<(String, Entry)>, top: bool) -> (r: Vec<Command>)
    ensures
        targets(r@).to_multiset() == listed(strings_view(parent@), listing@, top).to_multiset(),
        r@.len() == listed(strings_view(parent@), listing@, top).len(),
        names_sorted(r@),
        forall|i: int| 0 <= i < r@.len() ==> (#[trigger] r@[i]).wf(),
        forall|i: int| 0 <= i < r@.len() ==> from_listing(#[trigger] r@[i], config, listing@),
{
    let ghost pv = strings_view(parent@);
    let mut out: Vec<Command> = Vec::new();
    let mut k: usize = 0;
    assert(targets(out@) =~= Seq::<Target>::empty());
    while k < listing.len()
        invariant
            pv == strings_view(parent@),
            k <= listing@.len(),
            targets(out@).to_multiset() == listed(pv, listing@.take(k as int), top).to_multiset(),
            out@.len() == listed(pv, listing@.take(k as int), top).len(),
            names_sorted(out@),
            forall|i: int| 0 <= i < out@.len() ==> (#[trigger] out@[i]).wf(),
            forall|i: int| 0 <= i < out@.len() ==> from_listing(#[trigger] out@[i], config, listing@),
        decreases listing@.len() - k,
    {
        assert(listing@.take(k + 1).drop_last() =~= listing@.take(k as int));
        assert(listing@.take(k + 1).last() == listing@[k as int]);
        let name = &listing[k].0;
        match child_node(config, parent, name, &listing[k].1, top) {
            Some(c) => {
                let mut p: usize = 0;
                while p < out.len() && !name_lt(name.as_str(), out[p].name().as_str())
                    invariant
                        p <= out@.len(),
                        forall|i: int| 0 <= i < out@.len() ==> (#[trigger] out@[i]).wf(),
                        forall|q: int| 0 <= q < p ==> !name_less(name@, (#[trigger] out@[q]).name_view()),
                    decreases out@.len() - p,
                {
                    p = p + 1;
                }
                let ghost before = out@;
                let ghost t = c.target();
                let ghost cv = c;
                assert(from_listing(cv, config, listing@)) by {
                    assert(cv.name_view() == listing@[k as int].0@);
                }
                out.insert(p, c);
                proof {
                    assert forall|i: int| 0 <= i < out@.len() implies from_listing(
                        #[trigger] out@[i],
                        config,
                        listing@,
                    ) by {
                        if i < p {
                            assert(out@[i] == before[i]);
                        } else if i > p {
                            assert(out@[i] == before[i - 1]);
                        }
                    }
                    assert(targets(out@) =~= targets(before).insert(p as int, t));
                    vstd::seq_lib::to_multiset_insert(targets(before), p as int, t);
                    vstd::seq_lib::to_multiset_build(listed(pv, listing@.take(k as int), top), t);
                    assert forall|i: int, j: int| 0 <= i < j < out@.len() implies !name_less(
                        #[trigger] out@[j].name_view(),
                        #[trigger] out@[i].name_view(),
                    ) by {
                        if j == p as int {
                            assert(out@[i] == before[i]);
                        } else if i == p as int {
                            assert(out@[j] == before[j - 1]);
                            assert(name_less(name@, before[p as int].name_view()));
                            if name_less(before[j - 1].name_view(), name@) {
                                lemma_name_less_transitive(
                                    before[j - 1].name_view(),
                                    name@,
                                    before[p as int].name_view(),
                                );
                                if j - 1 == p as int {
                                    lemma_name_less_irreflexive(before[p as int].name_view());
                                }
                            }
                        } else if i < p as int && j > p as int {
                            assert(out@[i] == before[i]);
                            assert(out@[j] == before[j - 1]);
                        } else if j < p as int {
                            assert(out@[i] == before[i]);
                            assert(out@[j] == before[j]);
                        } else {
                            assert(out@[i] == before[i - 1]);
                            assert(out@[j] == before[j - 1]);
                        }
                    }
                }
            },
            None => {},
        }
        k = k + 1;
    }
    assert(listing@.take(listing@.len() as int) =~= listing@);
    out
}

fn append_listing(h: &mut String, children: &Vec<Command>)
    requires
        forall|i: int| 0 <= i < children@.len() ==> (#[trigger] children@[i]).wf(),
        forall|i: int|
            0 <= i < children@.len() ==> (#[trigger] children@[i]).name_view().len() + 4
                <= usize::MAX,
    ensures
        final(h)@ == old(h)@ + listing_text(children@),
{
    if children.len() == 0 {
        assert(final(h)@ =~= old(h)@ + listing_text(children@));
        return ;
    }
    let mut width: usize = 0;
    let mut i: usize = 0;
    while i < children.len()
        invariant
            i <= children@.len(),
            width == max_name_len(children@.take(i as int)),
            width + 4 <= usize::MAX,
            forall|j: int| 0 <= j < children@.len() ==> (#[trigger] children@[j]).wf(),
            forall|j: int|
                0 <= j < children@.len() ==> (#[trigger] children@[j]).name_view().len() + 4
                    <= usize::MAX,
        decreases children@.len() - i,
    {
        assert(children@.take(i + 1).drop_last() =~= children@.take(i as int));
        let len = children[i].name().as_str().unicode_len();
        if len > width {
            width = len;
        }
        i = i + 1;
    }
    assert(children@.take(children@.len() as int) =~= children@);
    let width = width + 4;
    append_str(h, "\n\nAvailable subcommands:\n");
    proof {
        reveal_strlit("\n\nAvailable subcommands:\n");
    }
    let ghost start = h@;
    assert(start =~= old(h)@ + listing_header());
    let mut i: usize = 0;
    while i < children.len()
        invariant
            i <= children@.len(),
            width == max_name_len(children@) + 4,
            h@ == start + rows_text(children@.take(i as int), width as nat),
            forall|j: int| 0 <= j < children@.len() ==> (#[trigger] children@[j]).wf(),
        decreases children@.len() - i,
    {
        let ghost before = h@;
        let name = children[i].name();
        append_str(h, "    ");
        proof {
            reveal_strlit("    ");
        }
        append_str(h, name.as_str());
        let len = name.as_str().unicode_len();
        proof {
            lemma_max_name_len(children@, i as int);
        }
        let mut pad = len;
        while pad < width
            invariant
                len <= pad <= width,
                h@ == before + seq![' ', ' ', ' ', ' '] + name@ + spaces((pad - len) as nat),
            decreases width - pad,
        {
            push_char(h, ' ');
            assert(spaces((pad + 1 - len) as nat) =~= spaces((pad - len) as nat).push(' '));
            pad = pad + 1;
        }
        let s = children[i].summary();
        append_str(h, s.as_str());
        push_char(h, '\n');
        proof {
            assert(children@.take(i + 1).drop_last() =~= children@.take(i as int));
            assert(h@ =~= before + row_text(children@[i as int], width as nat));
        }
        i = i + 1;
    }
    assert(children@.take(children@.len() as int) =~= children@);
}

/// Every name is at most as long as the longest.
proof fn lemma_max_name_len(rows: Seq<Command>, i: int)
    requires
        0 <= i < rows.len(),
    ensures
        rows[i].name_view().len() <= max_name_len(rows),
    decreases rows.len(),
{
    if i < rows.len() - 1 {
        lemma_max_name_len(rows.drop_last(), i);
    }
}

// ---------------------------------------------------------------------------
// Extensions.
/// The index of the last `.` in `s` before index `i`, or -1.
pub open spec fn last_dot_before(s: Seq<char>, i: int) -> int
    decreases i,
{
    if i <= 0 {
        -1
    } else if s[i - 1] == '.' {
        i - 1
    } else {
        last_dot_before(s, i - 1)
    }
}

/// The extension of a file name (a name without `/`): what follows its last
/// `.`; none where it has no `.`, where its only `.` opens it, or where it is
/// `.` or `..`.
pub open spec fn extension_of(name: Seq<char>) -> Option<Seq<char>> {
    let k = last_dot_before(name, name.len() as int);
    if name == seq!['.'] || name == seq!['.', '.'] || k <= 0 {
        None
    } else {
        Some(name.skip(k + 1))
    }
}

/// Whether the file name `name` has the extension `ext`.
pub fn has_extension(name: &str, ext: &str) -> (r: bool)
    requires
        !name@.contains('/'),
    ensures
        r == (extension_of(name@) == Some(ext@)),
{
    let c = to_chars(name);
    let n = c.len();
    if n == 1 && c[0] == '.' {
        assert(c@ =~= seq!['.']);
        return false;
    }
    if n == 2 && c[0] == '.' && c[1] == '.' {
        assert(c@ =~= seq!['.', '.']);
        return false;
    }
    let mut i = n;
    while i > 0 && c[i - 1] != '.'
        invariant
            i <= n == c@.len(),
            last_dot_before(c@, n as int) == last_dot_before(c@, i as int),
        decreases i,
    {
        i = i - 1;
    }
    assert(c@ != seq!['.'] && c@ != seq!['.', '.']) by {
        if n == 1 {
            assert(c@[0] != seq!['.'][0]);
        }
        if n == 2 {
            assert(c@[0] != seq!['.', '.'][0] || c@[1] != seq!['.', '.'][1]);
        }
    }
    if i <= 1 {
        return false;
    }
    let tail = crate::text::string_of(&c, i, n);
    assert(tail@ =~= c@.skip(i as int));
    crate::text::str_eq(tail.as_str(), ext)
}

// ---------------------------------------------------------------------------
// The environment of a script.
fn env_pair(config: &Config, suffix: &str, value: String) -> (r: (String, String))
    ensures
        r.0@ == env_var(config.name@, suffix@),
        r.1@ == value@,
{
    (config.env_name(suffix), value)
}

impl FileCommand {
    /// The environment of the script's run: `_{NAME}_ROOT`, `_{NAME}_CACHE`,
    /// and `_{NAME}_ARGS` with the matched arguments as `name "values"`
    /// pairs. Fails with the deferred failure of the usage line, or with
    /// `InvalidUTF8` where a value is not valid text.
    pub fn invocation_env(&self, config: &Config, matched: &Vec<(String, Vec<Option<String>>)>) -> (r: Result<Vec<(String, String)>, Error>)
        ensures
            self.usage.error is Some ==> r is Err && same_error(r->Err_0, self.usage.error->0),
            self.usage.error is None && !all_text(matched@) ==> r is Err && r->Err_0 is InvalidUTF8,
            self.usage.error is None && all_text(matched@) ==> r is Ok && env_views(r->Ok_0@) == seq![
                (env_var(config.name@, root_word()), config.root@),
                (env_var(config.name@, cache_word()), config.cache_directory@),
                (env_var(config.name@, args_var_word()), kv_text(matched@)),
            ],
    {
        match self.usage.validate() {
            Err(e) => {
                return Err(e);
            },
            Ok(_) => {},
        }
        let kv = match self.usage.parse_into_kv(matched) {
            Err(e) => {
                return Err(e);
            },
            Ok(kv) => kv,
        };
        let mut r: Vec<(String, String)> = Vec::new();
        proof {
            reveal_strlit("ROOT");
            reveal_strlit("CACHE");
            reveal_strlit("ARGS");
        }
        let root = "ROOT";
        let cache = "CACHE";
        let args = "ARGS";
        assert(root@ =~= root_word());
        assert(cache@ =~= cache_word());
        assert(args@ =~= args_var_word());
        r.push(env_pair(config, root, config.root.clone()));
        r.push(env_pair(config, cache, config.cache_directory.clone()));
        r.push(env_pair(config, args, kv));
        assert(env_views(r@) =~= seq![
            (env_var(config.name@, root_word()), config.root@),
            (env_var(config.name@, cache_word()), config.cache_directory@),
            (env_var(config.name@, args_var_word()), kv_text(matched@)),
        ]);
        Ok(r)
    }

    /// The environment of the script's run in completion mode for the
    /// argument `arg`: `_{NAME}_ROOT`, `_{NAME}_COMPLETE` set to `true`, and
    /// `_{NAME}_COMPLETE_ARG`.
    pub fn completion_env(&self, config: &Config, arg: &str) -> (r: Vec<(String, String)>)
        ensures
            env_views(r@) == seq![
                (env_var(config.name@, root_word()), config.root@),
                (env_var(config.name@, complete_word()), true_word()),
                (env_var(config.name@, complete_arg_word()), arg@),
            ],
    {
        proof {
            reveal_strlit("ROOT");
            reveal_strlit("COMPLETE");
            reveal_strlit("COMPLETE_ARG");
            reveal_strlit("true");
        }
        let root = "ROOT";
        let complete = "COMPLETE";
        let complete_arg = "COMPLETE_ARG";
        let yes = String::from_str("true");
        assert(root@ =~= root_word());
        assert(complete@ =~= complete_word());
        assert(complete_arg@ =~= complete_arg_word());
        assert(yes@ =~= true_word());
        let mut r: Vec<(String, String)> = Vec::new();
        r.push(env_pair(config, root, config.root.clone()));
        r.push(env_pair(config, complete, yes));
        r.push(env_pair(config, complete_arg, String::from_str(arg)));
        assert(env_views(r@) =~= seq![
            (env_var(config.name@, root_word()), config.root@),
            (env_var(config.name@, complete_word()), true_word()),
            (env_var(config.name@, complete_arg_word()), arg@),
        ]);
        r
    }
}

} // verus!
