//! What a command's documentation declares: the parsed usage line and option
//! lines, the completion index, the rendered usage and help texts, and the
//! argument declarations handed to the argument validator.
use vstd::prelude::*;
use crate::completion::{CompletionInfo, CompletionType, CompletionView, lookup_hint};
use crate::docs::{docs_of, extract_docs, Docs};
use crate::error::Error;
use crate::option_parser::{parse_option, parse_option_line, OptionSpec, OptionView};
use crate::text::{append_str, join_by, join_strings, push_char, strings_view, to_chars};
use crate::usage_parser::{
    arg_token, decl_text, decl_token, usage_line, rest_text, args_view, errors_at, parse_usage, parse_usage_line, ArgBase, ArgSpec, ArgView, BaseView,
    UsageLang, UsageView,
};

verus! {

// ---------------------------------------------------------------------------
// Texts.
pub open spec fn usage_word() -> Seq<char> {
    seq!['U', 's', 'a', 'g', 'e', ':', ' ']
}

pub open spec fn nested_tail() -> Seq<char> {
    seq![
        ' ', '[', '<', 's', 'u', 'b', 'c', 'o', 'm', 'm', 'a', 'n', 'd', 's', '>', ']', ' ', '[',
        '<', 'a', 'r', 'g', 's', '>', ']',
    ]
}

pub open spec fn args_word() -> Seq<char> {
    seq!['a', 'r', 'g', 's']
}

pub open spec fn other_arguments() -> Seq<char> {
    seq!['o', 't', 'h', 'e', 'r', ' ', 'a', 'r', 'g', 'u', 'm', 'e', 'n', 't', 's']
}

/// The arguments, each after a space, in order of declaration.
pub open spec fn args_text(args: Seq<ArgView>) -> Seq<char>
    decreases args.len(),
{
    if args.len() == 0 {
        Seq::empty()
    } else {
        args_text(args.drop_last()) + seq![' '] + arg_token(args.last())
    }
}

/// The usage text of a parsed usage line for the command `cmd`.
pub open spec fn usage_line_text(cmd: Seq<char>, u: UsageView) -> Seq<char> {
    usage_word() + cmd + args_text(u.arguments) + rest_text(u.rest)
}

// ---------------------------------------------------------------------------
// Options and completion hints.
/// The option lines that parse, in order.
pub open spec fn parsed_options(lines: Seq<Seq<char>>) -> Seq<OptionView>
    decreases lines.len(),
{
    if lines.len() == 0 {
        Seq::empty()
    } else {
        let p = parsed_options(lines.drop_last());
        match parse_option(lines.last()) {
            Ok(o) => p.push(o),
            Err(_) => p,
        }
    }
}

/// The (name, hint) entries of the options that carry a hint, in order.
pub open spec fn hints_of(opts: Seq<OptionView>) -> Seq<(Seq<char>, CompletionView)>
    decreases opts.len(),
{
    if opts.len() == 0 {
        Seq::empty()
    } else {
        let h = hints_of(opts.drop_last());
        match opts.last().completion {
            Some(c) => h.push((opts.last().name, c)),
            None => h,
        }
    }
}

/// The description of the last option named `name`.
pub open spec fn option_help(opts: Seq<OptionView>, name: Seq<char>) -> Option<Seq<char>>
    decreases opts.len(),
{
    if opts.len() == 0 {
        None
    } else if opts.last().name == name {
        opts.last().description
    } else {
        option_help(opts.drop_last(), name)
    }
}

pub open spec fn options_view(o: Seq<OptionSpec>) -> Seq<OptionView> {
    o.map_values(|x: OptionSpec| x@)
}

pub open spec fn entries_view(e: Seq<(String, CompletionType)>) -> Seq<(Seq<char>, CompletionView)> {
    e.map_values(|p: (String, CompletionType)| (p.0@, p.1@))
}

// ---------------------------------------------------------------------------
// Argument declarations.
/// One argument as the argument validator is to know it.
#[derive(Debug, Clone)]
pub struct ArgDecl {
    pub id: String,
    pub short: Option<char>,
    pub long: Option<String>,
    pub value_name: Option<String>,
    pub takes_value: bool,
    pub required: bool,
    pub exclusive: bool,
    /// Takes every remaining value, hyphens included.
    pub trailing: bool,
    pub help: Option<String>,
}

/// The mathematical form of an [`ArgDecl`].
pub struct DeclView {
    pub id: Seq<char>,
    pub short: Option<char>,
    pub long: Option<Seq<char>>,
    pub value_name: Option<Seq<char>>,
    pub takes_value: bool,
    pub required: bool,
    pub exclusive: bool,
    pub trailing: bool,
    pub help: Option<Seq<char>>,
}

impl View for ArgDecl {
    type V = DeclView;

    open spec fn view(&self) -> DeclView {
        DeclView {
            id: self.id@,
            short: self.short,
            long: crate::usage_parser::opt_string_view(self.long),
            value_name: crate::usage_parser::opt_string_view(self.value_name),
            takes_value: self.takes_value,
            required: self.required,
            exclusive: self.exclusive,
            trailing: self.trailing,
            help: crate::usage_parser::opt_string_view(self.help),
        }
    }
}

/// The name under which an argument is declared and looked up.
pub open spec fn base_id(b: BaseView) -> Seq<char> {
    match b {
        BaseView::Positional(n) => n,
        BaseView::Short(c) => seq![c],
        BaseView::Long(n, _) => n,
    }
}

/// The declaration of one argument of a usage line.
pub open spec fn decl_of(a: ArgView, opts: Seq<OptionView>) -> DeclView {
    DeclView {
        id: base_id(a.base),
        short: match a.base {
            BaseView::Short(c) => Some(c),
            _ => None,
        },
        long: match a.base {
            BaseView::Long(n, _) => Some(n),
            _ => None,
        },
        value_name: match a.base {
            BaseView::Long(_, v) => v,
            _ => None,
        },
        takes_value: match a.base {
            BaseView::Positional(_) => true,
            BaseView::Short(_) => false,
            BaseView::Long(_, v) => v is Some,
        },
        required: a.required,
        exclusive: a.exclusive,
        trailing: false,
        help: option_help(opts, base_id(a.base)),
    }
}

/// A declaration that takes every remaining value.
pub open spec fn trailing_decl(id: Seq<char>, help: Option<Seq<char>>) -> DeclView {
    DeclView {
        id,
        short: None,
        long: None,
        value_name: None,
        takes_value: true,
        required: false,
        exclusive: false,
        trailing: true,
        help,
    }
}

/// The declarations of a parsed usage line, in order, the trailing capture last.
pub open spec fn decls_of(u: UsageView, opts: Seq<OptionView>) -> Seq<DeclView> {
    let d = u.arguments.map_values(|a: ArgView| decl_of(a, opts));
    match u.rest {
        Some(r) => d.push(trailing_decl(r, None)),
        None => d,
    }
}

// ---------------------------------------------------------------------------
// Argument values handed to a script.
/// A value in double quotes.
pub open spec fn quoted(v: Seq<char>) -> Seq<char> {
    seq!['"'] + v + seq!['"']
}

pub open spec fn values_view(v: Seq<Option<String>>) -> Seq<Seq<char>> {
    v.map_values(|x: Option<String>| match x {
        Some(s) => s@,
        None => Seq::empty(),
    })
}

/// `name "v1 v2 ..."` for one matched argument.
pub open spec fn pair_text(p: (String, Vec<Option<String>>)) -> Seq<char> {
    p.0@ + seq![' '] + quoted(join_by(values_view(p.1@), ' '))
}

/// The matched arguments as `name "values"` pairs, separated by spaces.
pub open spec fn kv_text(pairs: Seq<(String, Vec<Option<String>>)>) -> Seq<char>
    decreases pairs.len(),
{
    if pairs.len() == 0 {
        Seq::empty()
    } else if pairs.len() == 1 {
        pair_text(pairs[0])
    } else {
        kv_text(pairs.drop_last()) + seq![' '] + pair_text(pairs.last())
    }
}

/// Every value is valid text.
pub open spec fn all_text(pairs: Seq<(String, Vec<Option<String>>)>) -> bool {
    forall|i: int, j: int|
        0 <= i < pairs.len() && 0 <= j < pairs[i].1@.len() ==> (#[trigger] pairs[i].1@[j]) is Some
}

// ---------------------------------------------------------------------------
// Completion targets.
pub open spec fn is_angle(c: char) -> bool {
    c == '<' || c == '>'
}

pub open spec fn angle_run_end(s: Seq<char>, i: int) -> int
    decreases s.len() - i,
{
    if 0 <= i < s.len() && is_angle(s[i]) {
        angle_run_end(s, i + 1)
    } else {
        i
    }
}

pub open spec fn angle_trimmed_end(s: Seq<char>, lo: int, j: int) -> int
    decreases j - lo,
{
    if lo < j && is_angle(s[j - 1]) {
        angle_trimmed_end(s, lo, j - 1)
    } else {
        j
    }
}

/// `s` without the `<` and `>` at either end.
pub open spec fn strip_angles(s: Seq<char>) -> Seq<char> {
    let a = angle_run_end(s, 0);
    s.subrange(a, angle_trimmed_end(s, a, s.len() as int))
}

/// Whether `s` is written `<...>`, as a missing positional argument is.
pub open spec fn is_angled(s: Seq<char>) -> bool {
    s.len() > 0 && s[0] == '<' && s.last() == '>'
}

/// The name inside the first `<...>` entry.
pub open spec fn first_angled(v: Seq<Seq<char>>) -> Option<Seq<char>>
    decreases v.len(),
{
    if v.len() == 0 {
        None
    } else if is_angled(v[0]) {
        Some(strip_angles(v[0]))
    } else {
        first_angled(v.drop_first())
    }
}

// ---------------------------------------------------------------------------
// The usage of one command.
/// What a command's documentation declares.
#[derive(Debug, Clone)]
pub struct Usage {
    /// The command line that invokes it: the tool's name and the path segments.
    pub cmd: String,
    /// A command group, whose usage is fixed.
    pub nested: bool,
    pub docs: Docs,
    /// The parsed usage line, where there is one and it parses.
    pub lang: Option<UsageLang>,
    /// The deferred failure of the usage line.
    pub error: Option<Error>,
    /// The option lines that parse.
    pub options: Vec<OptionSpec>,
    pub completions: CompletionInfo,
}

impl Usage {
    /// `self` is what the text `lines` declares for the command line `cmd`.
    pub open spec fn describes(&self, cmd: Seq<char>, lines: Seq<Seq<char>>, nested: bool) -> bool {
        let d = docs_of(lines);
        &&& self.cmd@ == cmd
        &&& self.nested == nested
        &&& self.docs@ == d
        &&& if nested || d.usage is None {
            self.lang is None && self.error is None
        } else {
            match parse_usage(d.usage->0) {
                Ok(v) => self.lang is Some && self.lang->0@ == v && self.error is None,
                Err(p) => self.lang is None && self.error is Some
                    && self.error->0 is InvalidUsageString && errors_at(
                    self.error->0->InvalidUsageString_0,
                    d.usage->0,
                    p,
                ),
            }
        }
        &&& options_view(self.options@) == (if nested {
            Seq::empty()
        } else {
            parsed_options(d.options)
        })
        &&& entries_view(self.completions.completion_types@) == hints_of(
            options_view(self.options@),
        )
        &&& self.completions.provides_completions == (self.completions.completion_types@.len()
            > 0)
    }

    /// The usage text: the fixed form of a command group, the declared
    /// arguments of a script, or a trailing `[args]...` where it declares none.
    pub open spec fn usage_text(&self) -> Seq<char> {
        if self.nested {
            usage_word() + self.cmd@ + nested_tail()
        } else {
            match self.lang {
                Some(u) => usage_line_text(self.cmd@, u@),
                None => if self.error is None {
                    usage_word() + self.cmd@ + rest_text(Some(args_word()))
                } else {
                    usage_word() + self.cmd@
                },
            }
        }
    }

    pub open spec fn summary_text(&self) -> Seq<char> {
        match self.docs.summary {
            Some(s) => s@,
            None => Seq::empty(),
        }
    }

    /// The usage text, then the summary and the description, each after a
    /// blank line.
    pub open spec fn help_text(&self) -> Seq<char> {
        self.usage_text() + match self.docs.summary {
            Some(s) => seq!['\n', '\n'] + s@,
            None => Seq::empty(),
        } + match self.docs.description {
            Some(d) => seq!['\n', '\n'] + d@,
            None => Seq::empty(),
        }
    }

    /// The argument declarations for the argument validator.
    pub open spec fn decls(&self) -> Seq<DeclView> {
        if self.nested {
            Seq::empty()
        } else {
            match self.lang {
                Some(u) => decls_of(u@, options_view(self.options@)),
                None => if self.error is None {
                    seq![trailing_decl(args_word(), Some(other_arguments()))]
                } else {
                    Seq::empty()
                },
            }
        }
    }

    /// Reads what the text `lines` declares for the command line `cmd`;
    /// `nested` marks a command group, whose `README` gives only a summary and
    /// a description. A usage line that does not parse is kept as a deferred
    /// error; option lines that do not parse are skipped.
    pub fn new(cmd: String, lines: &Vec<String>, nested: bool) -> (r: Usage)
        ensures
            r.describes(cmd@, strings_view(lines@), nested),
    {
        let docs = extract_docs(lines);
        let mut lang: Option<UsageLang> = None;
        let mut error: Option<Error> = None;
        if !nested {
            match &docs.usage {
                Some(line) => match parse_usage_line(line.as_str()) {
                    Ok(u) => {
                        lang = Some(u);
                    },
                    Err(e) => {
                        error = Some(Error::InvalidUsageString(e));
                    },
                },
                None => {},
            }
        }
        let (options, hints) = if !nested {
            parse_options(&docs.options)
        } else {
            let options: Vec<OptionSpec> = Vec::new();
            let hints: Vec<(String, CompletionType)> = Vec::new();
            assert(options_view(options@) =~= Seq::empty());
            assert(entries_view(hints@) =~= Seq::empty());
            (options, hints)
        };
        let completions = CompletionInfo::with_completions(hints);
        Usage { cmd, nested, docs, lang, error, options, completions }
    }

    /// The usage text; see [`Usage::usage_text`].
    pub fn generate(&self) -> (r: String)
        ensures
            r@ == self.usage_text(),
    {
        let mut r = String::new();
        append_str(&mut r, "Usage: ");
        proof {
            reveal_strlit("Usage: ");
            assert(r@ =~= usage_word());
        }
        append_str(&mut r, self.cmd.as_str());
        if self.nested {
            let ghost before = r@;
            append_str(&mut r, " [<subcommands>] [<args>]");
            proof {
                reveal_strlit(" [<subcommands>] [<args>]");
                assert(r@ =~= before + nested_tail());
            }
            return r;
        }
        match &self.lang {
            Some(u) => {
                let mut i: usize = 0;
                while i < u.arguments.len()
                    invariant
                        i <= u.arguments@.len(),
                        r@ == usage_word() + self.cmd@ + args_text(
                            args_view(u.arguments@).take(i as int),
                        ),
                    decreases u.arguments@.len() - i,
                {
                    let ghost before = r@;
                    push_char(&mut r, ' ');
                    push_arg_token(&mut r, &u.arguments[i]);
                    proof {
                        let t = args_view(u.arguments@).take(i + 1);
                        assert(t.drop_last() =~= args_view(u.arguments@).take(i as int));
                        assert(r@ =~= before + seq![' '] + arg_token(t.last()));
                    }
                    i = i + 1;
                }
                assert(args_view(u.arguments@).take(u.arguments@.len() as int) =~= args_view(
                    u.arguments@,
                ));
                match &u.rest {
                    Some(n) => {
                        let ghost before = r@;
                        push_rest(&mut r, n);
                        assert(r@ =~= before + rest_text(Some(n@)));
                    },
                    None => {
                        assert(r@ =~= r@ + rest_text(None));
                    },
                }
            },
            None => {
                if self.error.is_none() {
                    let ghost before = r@;
                    let args = String::from_str("args");
                    proof {
                        reveal_strlit("args");
                        assert(args@ =~= args_word());
                    }
                    push_rest(&mut r, &args);
                    assert(r@ =~= before + rest_text(Some(args_word())));
                }
            },
        }
        r
    }

    /// The deferred failure of the usage line, if any.
    pub fn validate(&self) -> (r: Result<(), Error>)
        ensures
            self.error is None ==> r is Ok,
            self.error is Some ==> r is Err && crate::error::same_error(r->Err_0, self.error->0),
    {
        match &self.error {
            Some(e) => Err(e.duplicate()),
            None => Ok(()),
        }
    }

    /// The summary, or nothing.
    pub fn summary(&self) -> (r: String)
        ensures
            r@ == self.summary_text(),
    {
        match &self.docs.summary {
            Some(s) => s.clone(),
            None => String::new(),
        }
    }

    /// The help text, or the deferred failure of the usage line.
    pub fn help(&self) -> (r: Result<String, Error>)
        ensures
            self.error is None ==> r is Ok && r->Ok_0@ == self.help_text(),
            self.error is Some ==> r is Err && crate::error::same_error(r->Err_0, self.error->0),
    {
        match &self.error {
            Some(e) => {
                return Err(e.duplicate());
            },
            None => {},
        }
        let mut r = self.generate();
        let ghost u = r@;
        match &self.docs.summary {
            Some(s) => {
                push_char(&mut r, '\n');
                push_char(&mut r, '\n');
                append_str(&mut r, s.as_str());
                assert(r@ =~= u + (seq!['\n', '\n'] + s@));
            },
            None => {
                assert(r@ =~= u + Seq::<char>::empty());
            },
        }
        let ghost v = r@;
        match &self.docs.description {
            Some(d) => {
                push_char(&mut r, '\n');
                push_char(&mut r, '\n');
                append_str(&mut r, d.as_str());
                assert(r@ =~= v + (seq!['\n', '\n'] + d@));
            },
            None => {
                assert(r@ =~= v + Seq::<char>::empty());
            },
        }
        Ok(r)
    }

    /// Whether any option line carries a completion hint.
    pub fn provides_completions(&self) -> (r: bool)
        ensures
            r == self.completions.provides_completions,
    {
        self.completions.provides_completions
    }

    /// The completion hint declared for the argument `name`.
    pub fn get_completion_type(&self, name: &str) -> (r: Option<CompletionType>)
        ensures
            match lookup_hint(self.completions.completion_types@, name@) {
                Some(h) => r is Some && r->0@ == h,
                None => r is None,
            },
    {
        self.completions.get_completion_type(name)
    }

    /// The argument being completed: given the entries that the argument
    /// validator names as missing, the name inside the first one written
    /// `<...>`.
    pub fn get_next_option_name_for_completions(&self, missing: &Vec<String>) -> (r: Option<String>)
        ensures
            match first_angled(strings_view(missing@)) {
                Some(n) => r is Some && r->0@ == n,
                None => r is None,
            },
    {
        let ghost all = strings_view(missing@);
        let mut i: usize = 0;
        assert(all.skip(0) =~= all);
        while i < missing.len()
            invariant
                all == strings_view(missing@),
                i <= missing@.len(),
                first_angled(all) == first_angled(all.skip(i as int)),
            decreases missing@.len() - i,
        {
            assert(all.skip(i as int).drop_first() =~= all.skip(i + 1));
            let c = to_chars(missing[i].as_str());
            if c.len() > 0 && c[0] == '<' && c[c.len() - 1] == '>' {
                assert(all.skip(i as int)[0] == c@);
                return Some(strip_angle_chars(&c));
            }
            i = i + 1;
        }
        None
    }

    /// The matched arguments as `name "values"` pairs, for the script's
    /// environment; `InvalidUTF8` where a value is not valid text.
    pub fn parse_into_kv(&self, matched: &Vec<(String, Vec<Option<String>>)>) -> (r: Result<String, Error>)
        ensures
            all_text(matched@) ==> r is Ok && r->Ok_0@ == kv_text(matched@),
            !all_text(matched@) ==> r is Err && r->Err_0 is InvalidUTF8,
    {
        encode_matches(matched)
    }

    /// The argument declarations for the argument validator.
    pub fn declarations(&self) -> (r: Vec<ArgDecl>)
        ensures
            r@.map_values(|d: ArgDecl| d@) == self.decls(),
    {
        let mut r: Vec<ArgDecl> = Vec::new();
        if self.nested {
            assert(r@.map_values(|d: ArgDecl| d@) =~= Seq::empty());
            return r;
        }
        match &self.lang {
            Some(u) => {
                let ghost opts = options_view(self.options@);
                let ghost want = args_view(u.arguments@).map_values(|a: ArgView| decl_of(a, opts));
                let mut i: usize = 0;
                while i < u.arguments.len()
                    invariant
                        opts == options_view(self.options@),
                        want == args_view(u.arguments@).map_values(|a: ArgView| decl_of(a, opts)),
                        i <= u.arguments@.len(),
                        r@.map_values(|d: ArgDecl| d@) == want.take(i as int),
                    decreases u.arguments@.len() - i,
                {
                    let d = decl_for(&u.arguments[i], &self.options);
                    let ghost before = r@;
                    r.push(d);
                    assert(r@.map_values(|d: ArgDecl| d@) =~= before.map_values(|d: ArgDecl| d@).push(d@));
                    assert(args_view(u.arguments@)[i as int] == u.arguments@[i as int]@);
                    assert(want.take(i + 1) =~= want.take(i as int).push(want[i as int]));
                    i = i + 1;
                }
                assert(want.take(u.arguments@.len() as int) =~= want);
                match &u.rest {
                    Some(n) => {
                        let ghost before = r@;
                        r.push(trailing(n.clone(), None));
                        assert(r@.map_values(|d: ArgDecl| d@) =~= want.push(trailing_decl(n@, None)));
                    },
                    None => {},
                }
            },
            None => {
                if self.error.is_none() {
                    let id = String::from_str("args");
                    let help = String::from_str("other arguments");
                    proof {
                        reveal_strlit("args");
                        reveal_strlit("other arguments");
                        assert(id@ =~= args_word());
                        assert(help@ =~= other_arguments());
                    }
                    r.push(trailing(id, Some(help)));
                }
                assert(r@.map_values(|d: ArgDecl| d@) =~= self.decls());
            },
        }
        r
    }
}

/// The option lines that parse, in order, and the completion hints that they
/// carry. Lines that do not parse are skipped.
pub fn parse_options(lines: &Vec<String>) -> (r: (Vec<OptionSpec>, Vec<(String, CompletionType)>))
    ensures
        options_view(r.0@) == parsed_options(strings_view(lines@)),
        entries_view(r.1@) == hints_of(options_view(r.0@)),
{
    let mut options: Vec<OptionSpec> = Vec::new();
    let mut hints: Vec<(String, CompletionType)> = Vec::new();
    let ghost lines_v = strings_view(lines@);
    let mut i: usize = 0;
    while i < lines.len()
        invariant
            lines_v == strings_view(lines@),
            i <= lines@.len(),
            options_view(options@) == parsed_options(lines_v.take(i as int)),
            entries_view(hints@) == hints_of(options_view(options@)),
        decreases lines@.len() - i,
    {
        assert(lines_v.take(i + 1).drop_last() =~= lines_v.take(i as int));
        match parse_option_line(lines[i].as_str()) {
            Ok(o) => {
                let ghost before = options@;
                match &o.completion_type {
                    Some(c) => {
                        hints.push((o.name.clone(), c.duplicate()));
                    },
                    None => {},
                }
                options.push(o);
                proof {
                    assert(options_view(options@).drop_last() =~= options_view(before));
                    assert(entries_view(hints@) =~= hints_of(options_view(options@)));
                }
            },
            Err(_) => {},
        }
        i = i + 1;
    }
    assert(lines_v.take(lines@.len() as int) =~= lines_v);
    (options, hints)
}

fn trailing(id: String, help: Option<String>) -> (r: ArgDecl)
    ensures
        r@ == trailing_decl(id@, crate::usage_parser::opt_string_view(help)),
{
    ArgDecl {
        id,
        short: None,
        long: None,
        value_name: None,
        takes_value: true,
        required: false,
        exclusive: false,
        trailing: true,
        help,
    }
}

fn copy_opt(o: &Option<String>) -> (r: Option<String>)
    ensures
        crate::usage_parser::opt_string_view(r) == crate::usage_parser::opt_string_view(*o),
{
    match o {
        Some(s) => Some(s.clone()),
        None => None,
    }
}

fn help_for(opts: &Vec<OptionSpec>, name: &String) -> (r: Option<String>)
    ensures
        crate::usage_parser::opt_string_view(r) == option_help(options_view(opts@), name@),
{
    let ghost all = options_view(opts@);
    let mut i = opts.len();
    assert(all.take(i as int) =~= all);
    while i > 0
        invariant
            all == options_view(opts@),
            i <= opts@.len(),
            option_help(all, name@) == option_help(all.take(i as int), name@),
        decreases i,
    {
        assert(all.take(i as int).drop_last() =~= all.take(i - 1));
        if crate::text::str_eq(opts[i - 1].name.as_str(), name.as_str()) {
            return copy_opt(&opts[i - 1].description);
        }
        i = i - 1;
    }
    None
}

fn decl_for(a: &ArgSpec, opts: &Vec<OptionSpec>) -> (r: ArgDecl)
    ensures
        r@ == decl_of(a@, options_view(opts@)),
{
    match &a.base {
        ArgBase::Positional(n) => ArgDecl {
            id: n.clone(),
            short: None,
            long: None,
            value_name: None,
            takes_value: true,
            required: a.required,
            exclusive: a.exclusive,
            trailing: false,
            help: help_for(opts, n),
        },
        ArgBase::Short(c) => {
            let mut id = String::new();
            push_char(&mut id, *c);
            assert(id@ =~= seq![*c]);
            ArgDecl {
                short: Some(*c),
                long: None,
                value_name: None,
                takes_value: false,
                required: a.required,
                exclusive: a.exclusive,
                trailing: false,
                help: help_for(opts, &id),
                id,
            }
        },
        ArgBase::Long(n, v) => ArgDecl {
            id: n.clone(),
            short: None,
            long: Some(n.clone()),
            value_name: copy_opt(v),
            takes_value: v.is_some(),
            required: a.required,
            exclusive: a.exclusive,
            trailing: false,
            help: help_for(opts, n),
        },
    }
}

fn push_arg_token(r: &mut String, a: &ArgSpec)
    ensures
        final(r)@ == old(r)@ + arg_token(a@),
{
    if !a.required {
        push_char(r, '[');
    }
    match &a.base {
        ArgBase::Positional(n) => {
            if a.required {
                push_char(r, '<');
            }
            append_str(r, n.as_str());
            if a.required {
                push_char(r, '>');
            }
        },
        ArgBase::Short(c) => {
            push_char(r, '-');
            push_char(r, *c);
        },
        ArgBase::Long(n, v) => {
            push_char(r, '-');
            push_char(r, '-');
            append_str(r, n.as_str());
            match v {
                Some(x) => {
                    push_char(r, '=');
                    append_str(r, x.as_str());
                },
                None => {},
            }
        },
    }
    if !a.required {
        push_char(r, ']');
    }
    assert(final(r)@ =~= old(r)@ + arg_token(a@));
}

proof fn lemma_decl_text_push(a: Seq<ArgView>, x: ArgView)
    ensures
        decl_text(a.push(x)) == decl_text(a) + seq![' '] + decl_token(x),
    decreases a.len(),
{
    if a.len() == 0 {
        assert(a.push(x).drop_first() =~= Seq::<ArgView>::empty());
        assert(a.push(x)[0] == x);
        assert(decl_text(a.push(x).drop_first()) == Seq::<char>::empty());
        assert(decl_text(a) == Seq::<char>::empty());
        assert(decl_text(a.push(x)) == seq![' '] + decl_token(x) + decl_text(
            a.push(x).drop_first(),
        ));
        assert(decl_text(a.push(x)) =~= decl_text(a) + seq![' '] + decl_token(x));
    } else {
        lemma_decl_text_push(a.drop_first(), x);
        assert(a.push(x).drop_first() =~= a.drop_first().push(x));
        assert(a.push(x)[0] == a[0]);
        assert(decl_text(a.push(x)) == seq![' '] + decl_token(a[0]) + decl_text(
            a.drop_first().push(x),
        ));
        assert(decl_text(a) == seq![' '] + decl_token(a[0]) + decl_text(a.drop_first()));
        assert(decl_text(a.push(x)) =~= decl_text(a) + seq![' '] + decl_token(x));
    }
}

impl UsageLang {
    /// The usage line that declares these arguments: `# Usage: {cmd}`, then
    /// each argument as it is declared, then the trailing capture.
    pub fn to_line(&self) -> (r: String)
        ensures
            r@ == usage_line(self@),
    {
        let mut r = String::new();
        append_str(&mut r, "# Usage: {cmd}");
        proof {
            reveal_strlit("# Usage: {cmd}");
            assert(r@ =~= crate::usage_parser::usage_keyword() + seq![' ']
                + crate::usage_parser::cmd_keyword());
        }
        let ghost head = r@;
        let mut i: usize = 0;
        while i < self.arguments.len()
            invariant
                i <= self.arguments@.len(),
                r@ == head + decl_text(args_view(self.arguments@).take(i as int)),
            decreases self.arguments@.len() - i,
        {
            let ghost before = r@;
            push_char(&mut r, ' ');
            push_arg_token(&mut r, &self.arguments[i]);
            if self.arguments[i].exclusive {
                push_char(&mut r, '!');
            }
            proof {
                let all = args_view(self.arguments@);
                let x = all[i as int];
                assert(all.take(i + 1) =~= all.take(i as int).push(x));
                lemma_decl_text_push(all.take(i as int), x);
                assert(r@ =~= before + seq![' '] + decl_token(x));
            }
            i = i + 1;
        }
        assert(args_view(self.arguments@).take(self.arguments@.len() as int) =~= args_view(
            self.arguments@,
        ));
        match &self.rest {
            Some(n) => {
                let ghost before = r@;
                push_rest(&mut r, n);
                assert(r@ =~= before + rest_text(Some(n@)));
            },
            None => {
                assert(r@ =~= r@ + rest_text(None));
            },
        }
        assert(r@ =~= usage_line(self@));
        r
    }
}

fn push_rest(r: &mut String, n: &String)
    ensures
        final(r)@ == old(r)@ + rest_text(Some(n@)),
{
    push_char(r, ' ');
    push_char(r, '[');
    append_str(r, n.as_str());
    push_char(r, ']');
    push_char(r, '.');
    push_char(r, '.');
    push_char(r, '.');
    assert(final(r)@ =~= old(r)@ + rest_text(Some(n@)));
}

fn strip_angle_chars(c: &Vec<char>) -> (r: String)
    ensures
        r@ == strip_angles(c@),
{
    let n = c.len();
    let mut a: usize = 0;
    while a < n && (c[a] == '<' || c[a] == '>')
        invariant
            n == c@.len(),
            a <= n,
            angle_run_end(c@, a as int) == angle_run_end(c@, 0),
        decreases n - a,
    {
        a = a + 1;
    }
    let mut b: usize = n;
    while a < b && (c[b - 1] == '<' || c[b - 1] == '>')
        invariant
            n == c@.len(),
            a <= b <= n,
            a == angle_run_end(c@, 0),
            angle_trimmed_end(c@, a as int, b as int) == angle_trimmed_end(c@, a as int, n as int),
        decreases b - a,
    {
        b = b - 1;
    }
    crate::text::string_of(c, a, b)
}

/// The matched arguments as `name "values"` pairs, separated by spaces;
/// `InvalidUTF8` where a value is not valid text.
pub fn encode_matches(matched: &Vec<(String, Vec<Option<String>>)>) -> (r: Result<String, Error>)
    ensures
        all_text(matched@) ==> r is Ok && r->Ok_0@ == kv_text(matched@),
        !all_text(matched@) ==> r is Err && r->Err_0 is InvalidUTF8,
{
    let mut r = String::new();
    let mut i: usize = 0;
    while i < matched.len()
        invariant
            i <= matched@.len(),
            all_text(matched@.take(i as int)),
            r@ == kv_text(matched@.take(i as int)),
        decreases matched@.len() - i,
    {
        let values = &matched[i].1;
        let mut texts: Vec<String> = Vec::new();
        let mut j: usize = 0;
        while j < values.len()
            invariant
                i < matched@.len(),
                values == &matched@[i as int].1,
                j <= values@.len(),
                strings_view(texts@) == values_view(values@).take(j as int),
                forall|k: int| 0 <= k < j ==> (#[trigger] values@[k]) is Some,
            decreases values@.len() - j,
        {
            match &values[j] {
                Some(v) => {
                    let ghost before = texts@;
                    texts.push(v.clone());
                    assert(strings_view(texts@) =~= strings_view(before).push(v@));
                    assert(values_view(values@).take(j + 1) =~= values_view(values@).take(
                        j as int,
                    ).push(values_view(values@)[j as int]));
                },
                None => {
                    assert(!all_text(matched@)) by {
                        assert(matched@[i as int].1@[j as int] is None);
                    }
                    return Err(Error::InvalidUTF8);
                },
            }
            j = j + 1;
        }
        assert(values_view(values@).take(values@.len() as int) =~= values_view(values@));
        let ghost before = r@;
        if i > 0 {
            push_char(&mut r, ' ');
        }
        append_str(&mut r, matched[i].0.as_str());
        push_char(&mut r, ' ');
        push_char(&mut r, '"');
        let joined = join_strings(&texts, ' ');
        append_str(&mut r, joined.as_str());
        push_char(&mut r, '"');
        proof {
            let t = matched@.take(i + 1);
            assert(t.drop_last() =~= matched@.take(i as int));
            assert(t.last() == matched@[i as int]);
            if i == 0 {
                assert(r@ =~= pair_text(t[0]));
            } else {
                assert(r@ =~= before + seq![' '] + pair_text(t.last()));
            }
            assert forall|a: int, b: int|
                0 <= a < t.len() && 0 <= b < t[a].1@.len() implies (#[trigger] t[a].1@[b]) is Some by {
                if a < i {
                    assert(matched@.take(i as int)[a] == t[a]);
                }
            }
        }
        i = i + 1;
    }
    assert(matched@.take(matched@.len() as int) =~= matched@);
    Ok(r)
}

} // verus!
