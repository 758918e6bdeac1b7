//! The grammar of a `# Usage:` line and its parser.
//!
//! ```text
//! usage      := "# Usage:" "{cmd}" argument* rest?
//! argument   := "[" base "]" "!"? | base        (followed by white space or the end)
//! base       := "-" letter | "--" ident ("=" VALUE)? | "<" ident ">" | ident
//! rest       := "[" ident "]..."
//! ```
//!
//! White space may stand between any two tokens. A bare identifier is a
//! positional argument inside brackets only; outside them a positional argument
//! is written `<name>`.
use vstd::prelude::*;
use crate::text::{is_space, is_space_spec, skip_spaces, string_of, to_chars};

verus! {

/// The letters in the sense of the Unicode `Alphabetic` property.
pub uninterp spec fn alphabetic(c: char) -> bool;

/// Relies on `char::is_alphabetic`: whether `c` has the `Alphabetic` property.
#[verifier::external_body]
fn is_alphabetic(c: char) -> (r: bool)
    ensures
        r == alphabetic(c),
{
    c.is_alphabetic()
}

/// The base form of an argument: a positional name, a short flag or a long
/// option with an optional value placeholder.
#[derive(Debug, Clone, PartialEq, Eq)]
pub enum ArgBase {
    Positional(String),
    Short(char),
    Long(String, Option<String>),
}

/// One declared argument of a usage line.
#[derive(Debug, Clone, PartialEq, Eq)]
pub struct ArgSpec {
    pub base: ArgBase,
    pub required: bool,
    pub exclusive: bool,
}

/// A parsed usage line: its arguments in order of declaration and the name of
/// the trailing capture, if any.
#[derive(Debug, Clone, PartialEq, Eq)]
pub struct UsageLang {
    pub arguments: Vec<ArgSpec>,
    pub rest: Option<String>,
}

/// A place in a usage line where the grammar could not go on.
#[derive(Debug, Clone, Copy, PartialEq, Eq)]
pub struct ParseError {
    /// The index of the offending character, counted in characters.
    pub position: usize,
    /// The character found there, or `None` at the end of the line.
    pub found: Option<char>,
}

/// The mathematical form of an [`ArgBase`].
pub enum BaseView {
    Positional(Seq<char>),
    Short(char),
    Long(Seq<char>, Option<Seq<char>>),
}

/// The mathematical form of an [`ArgSpec`].
pub struct ArgView {
    pub base: BaseView,
    pub required: bool,
    pub exclusive: bool,
}

/// The mathematical form of a [`UsageLang`].
pub struct UsageView {
    pub arguments: Seq<ArgView>,
    pub rest: Option<Seq<char>>,
}

pub open spec fn opt_string_view(o: Option<String>) -> Option<Seq<char>> {
    match o {
        Some(s) => Some(s@),
        None => None,
    }
}

impl View for ArgBase {
    type V = BaseView;

    open spec fn view(&self) -> BaseView {
        match self {
            ArgBase::Positional(n) => BaseView::Positional(n@),
            ArgBase::Short(c) => BaseView::Short(*c),
            ArgBase::Long(n, v) => BaseView::Long(n@, opt_string_view(*v)),
        }
    }
}

impl View for ArgSpec {
    type V = ArgView;

    open spec fn view(&self) -> ArgView {
        ArgView { base: self.base@, required: self.required, exclusive: self.exclusive }
    }
}

pub open spec fn args_view(a: Seq<ArgSpec>) -> Seq<ArgView> {
    a.map_values(|x: ArgSpec| x@)
}

impl View for UsageLang {
    type V = UsageView;

    open spec fn view(&self) -> UsageView {
        UsageView { arguments: args_view(self.arguments@), rest: opt_string_view(self.rest) }
    }
}

// ---------------------------------------------------------------------------
// The grammar, over the characters of a line.
pub open spec fn is_ascii_alpha(c: char) -> bool {
    (97 <= (c as u32) && (c as u32) <= 122) || (65 <= (c as u32) && (c as u32) <= 90)
}

pub open spec fn is_ident_char(c: char) -> bool {
    is_ascii_alpha(c) || (48 <= (c as u32) && (c as u32) <= 57) || c == '_' || c == '-'
}

pub open spec fn is_value_char(c: char) -> bool {
    65 <= (c as u32) && (c as u32) <= 90
}

/// The end of the run of identifier characters that starts at `i`.
pub open spec fn ident_tail(s: Seq<char>, i: int) -> int
    decreases s.len() - i,
{
    if 0 <= i < s.len() && is_ident_char(s[i]) {
        ident_tail(s, i + 1)
    } else {
        i
    }
}

/// The end of the run of value-placeholder characters that starts at `i`.
pub open spec fn value_tail(s: Seq<char>, i: int) -> int
    decreases s.len() - i,
{
    if 0 <= i < s.len() && is_value_char(s[i]) {
        value_tail(s, i + 1)
    } else {
        i
    }
}

/// The end of the identifier that starts at `i`; `i` itself where none does.
pub open spec fn ident_at(s: Seq<char>, i: int) -> int {
    if 0 <= i < s.len() && is_ascii_alpha(s[i]) {
        ident_tail(s, i + 1)
    } else {
        i
    }
}

/// `-c`: the base and the index after it.
pub open spec fn short_at(s: Seq<char>, i: int) -> Option<(BaseView, int)> {
    if 0 <= i && i + 1 < s.len() && s[i] == '-' && s[i + 1] != '-' && alphabetic(s[i + 1]) {
        Some((BaseView::Short(s[i + 1]), i + 2))
    } else {
        None
    }
}

/// `--name` or `--name=VALUE`.
pub open spec fn long_at(s: Seq<char>, i: int) -> Option<(BaseView, int)> {
    let e = ident_at(s, i + 2);
    if 0 <= i && i + 1 < s.len() && s[i] == '-' && s[i + 1] == '-' && e > i + 2 {
        let name = s.subrange(i + 2, e);
        let v = value_tail(s, e + 1);
        if e < s.len() && s[e] == '=' && v > e + 1 {
            Some((BaseView::Long(name, Some(s.subrange(e + 1, v))), v))
        } else {
            Some((BaseView::Long(name, None), e))
        }
    } else {
        None
    }
}

/// A bare identifier, a positional argument inside brackets.
pub open spec fn bare_at(s: Seq<char>, i: int) -> Option<(BaseView, int)> {
    let e = ident_at(s, i);
    if e > i {
        Some((BaseView::Positional(s.subrange(i, e)), e))
    } else {
        None
    }
}

/// `<name>`, a required positional argument.
pub open spec fn angle_at(s: Seq<char>, i: int) -> Option<(BaseView, int)> {
    let e = ident_at(s, i + 1);
    if 0 <= i < s.len() && s[i] == '<' && e > i + 1 && e < s.len() && s[e] == '>' {
        Some((BaseView::Positional(s.subrange(i + 1, e)), e + 1))
    } else {
        None
    }
}

/// A base after optional white space; `bracketed` selects the positional form.
pub open spec fn base_at(s: Seq<char>, i: int, bracketed: bool) -> Option<(BaseView, int)> {
    let j = skip_spaces(s, i);
    if short_at(s, j) is Some {
        short_at(s, j)
    } else if long_at(s, j) is Some {
        long_at(s, j)
    } else if bracketed {
        bare_at(s, j)
    } else {
        angle_at(s, j)
    }
}

/// One argument after optional white space, and the index after its last token.
pub open spec fn argument_at(s: Seq<char>, i: int) -> Option<(ArgView, int)> {
    let j = skip_spaces(s, i);
    if 0 <= j < s.len() && s[j] == '[' {
        match base_at(s, j + 1, true) {
            Some((b, e)) => {
                let k = skip_spaces(s, e);
                if 0 <= k < s.len() && s[k] == ']' {
                    if k + 1 < s.len() && s[k + 1] == '!' {
                        Some((ArgView { base: b, required: false, exclusive: true }, k + 2))
                    } else {
                        Some((ArgView { base: b, required: false, exclusive: false }, k + 1))
                    }
                } else {
                    None
                }
            },
            None => None,
        }
    } else {
        match base_at(s, j, false) {
            Some((b, e)) => Some((ArgView { base: b, required: true, exclusive: false }, e)),
            None => None,
        }
    }
}

/// An argument that white space or the end of the line follows, and the index
/// after that white space.
pub open spec fn next_argument(s: Seq<char>, i: int) -> Option<(ArgView, int)> {
    match argument_at(s, i) {
        Some((a, t)) => {
            if t >= s.len() || is_space_spec(s[t]) {
                Some((a, skip_spaces(s, t)))
            } else {
                None
            }
        },
        None => None,
    }
}

/// The arguments from `i` on, as many as follow one another, and the index
/// where they stop.
pub open spec fn arguments_from(s: Seq<char>, i: int) -> (Seq<ArgView>, int)
    decreases s.len() - i,
{
    if 0 <= i < s.len() {
        match next_argument(s, i) {
            Some((a, e)) => {
                if i < e <= s.len() {
                    let (r, f) = arguments_from(s, e);
                    (seq![a] + r, f)
                } else {
                    (seq![], i)
                }
            },
            None => (seq![], i),
        }
    } else {
        (seq![], i)
    }
}

/// `[name]...` after optional white space: the name and the index after the
/// white space that follows.
pub open spec fn rest_at(s: Seq<char>, i: int) -> Option<(Seq<char>, int)> {
    let j = skip_spaces(s, i);
    let e = ident_at(s, j + 1);
    if 0 <= j < s.len() && s[j] == '[' && e > j + 1 && e + 4 <= s.len() && s[e] == ']' && s[e
        + 1] == '.' && s[e + 2] == '.' && s[e + 3] == '.' {
        Some((s.subrange(j + 1, e), skip_spaces(s, e + 4)))
    } else {
        None
    }
}

pub open spec fn usage_keyword() -> Seq<char> {
    seq!['#', ' ', 'U', 's', 'a', 'g', 'e', ':']
}

pub open spec fn cmd_keyword() -> Seq<char> {
    seq!['{', 'c', 'm', 'd', '}']
}

/// Whether `t` stands in `s` at index `i`.
pub open spec fn stands_at(s: Seq<char>, i: int, t: Seq<char>) -> bool {
    0 <= i && i + t.len() <= s.len() && s.subrange(i, i + t.len()) == t
}

/// What a usage line means: the declared arguments, or the index where the
/// grammar could not go on.
pub open spec fn parse_usage(s: Seq<char>) -> Result<UsageView, int> {
    let a = skip_spaces(s, 0);
    if !stands_at(s, a, usage_keyword()) {
        Err(a)
    } else {
        let b = skip_spaces(s, a + 8);
        if !stands_at(s, b, cmd_keyword()) {
            Err(b)
        } else {
            let c = skip_spaces(s, b + 5);
            let (args, e) = arguments_from(s, c);
            match rest_at(s, e) {
                Some((r, f)) => if f == s.len() {
                    Ok(UsageView { arguments: args, rest: Some(r) })
                } else {
                    Err(f)
                },
                None => if e == s.len() {
                    Ok(UsageView { arguments: args, rest: None })
                } else {
                    Err(e)
                },
            }
        }
    }
}

// ---------------------------------------------------------------------------
// Writing a usage line.
/// How a base is written.
pub open spec fn base_token(b: BaseView) -> Seq<char> {
    match b {
        BaseView::Positional(n) => n,
        BaseView::Short(c) => seq!['-', c],
        BaseView::Long(n, v) => match v {
            Some(x) => seq!['-', '-'] + n + seq!['='] + x,
            None => seq!['-', '-'] + n,
        },
    }
}

/// How an argument is shown in a usage text: `<name>` for a required
/// positional argument, brackets round an optional one.
pub open spec fn arg_token(a: ArgView) -> Seq<char> {
    if a.required {
        match a.base {
            BaseView::Positional(n) => seq!['<'] + n + seq!['>'],
            _ => base_token(a.base),
        }
    } else {
        seq!['['] + base_token(a.base) + seq![']']
    }
}

/// ` [name]...` for a trailing capture.
pub open spec fn rest_text(rest: Option<Seq<char>>) -> Seq<char> {
    match rest {
        Some(r) => seq![' ', '['] + r + seq![']', '.', '.', '.'],
        None => Seq::empty(),
    }
}

/// How an argument is declared in a usage line: as it is shown, with the
/// exclusive marker where it has one.
pub open spec fn decl_token(a: ArgView) -> Seq<char> {
    arg_token(a) + if a.exclusive {
        seq!['!']
    } else {
        Seq::empty()
    }
}

/// The arguments, each after a space, in order of declaration.
pub open spec fn decl_text(args: Seq<ArgView>) -> Seq<char>
    decreases args.len(),
{
    if args.len() == 0 {
        Seq::empty()
    } else {
        seq![' '] + decl_token(args[0]) + decl_text(args.drop_first())
    }
}

/// The usage line that declares `u`.
pub open spec fn usage_line(u: UsageView) -> Seq<char> {
    usage_keyword() + seq![' '] + cmd_keyword() + decl_text(u.arguments) + rest_text(u.rest)
}

pub open spec fn is_ident(n: Seq<char>) -> bool {
    n.len() > 0 && is_ascii_alpha(n[0]) && forall|i: int| 0 <= i < n.len() ==> is_ident_char(#[trigger] n[i])
}

pub open spec fn is_value(v: Seq<char>) -> bool {
    v.len() > 0 && forall|i: int| 0 <= i < v.len() ==> is_value_char(#[trigger] v[i])
}

/// What the grammar can give for a base.
pub open spec fn base_wf(b: BaseView) -> bool {
    match b {
        BaseView::Positional(n) => is_ident(n),
        BaseView::Short(c) => alphabetic(c) && c != '-',
        BaseView::Long(n, v) => is_ident(n) && (v is Some ==> is_value(v->0)),
    }
}

/// What the grammar can give for an argument.
pub open spec fn arg_wf(a: ArgView) -> bool {
    base_wf(a.base) && (a.exclusive ==> !a.required)
}

/// What the grammar can give for a usage line.
pub open spec fn usage_wf(u: UsageView) -> bool {
    (forall|k: int| 0 <= k < u.arguments.len() ==> arg_wf(#[trigger] u.arguments[k])) && (
    u.rest is Some ==> is_ident(u.rest->0))
}

// ---------------------------------------------------------------------------
// Facts of the grammar.
proof fn lemma_arguments_exclusive(s: Seq<char>, i: int)
    ensures
        forall|k: int|
            0 <= k < arguments_from(s, i).0.len() ==> (#[trigger] arguments_from(s, i).0[k]).exclusive
                ==> !arguments_from(s, i).0[k].required,
    decreases s.len() - i,
{
    if 0 <= i < s.len() {
        match next_argument(s, i) {
            Some((a, e)) => {
                if i < e <= s.len() {
                    lemma_arguments_exclusive(s, e);
                    let r = arguments_from(s, i).0;
                    assert(r == seq![a] + arguments_from(s, e).0);
                    assert forall|k: int| 0 <= k < r.len() && (#[trigger] r[k]).exclusive
                        implies !r[k].required by {
                        if k > 0 {
                            assert(r[k] == arguments_from(s, e).0[k - 1]);
                        }
                    }
                }
            },
            None => {},
        }
    }
}

/// An argument is exclusive exactly where its token is a bracketed form
/// followed directly by one `!`, and no second `!` follows an accepted
/// argument.
pub proof fn lemma_marker_exactly(s: Seq<char>, i: int)
    requires
        0 <= i <= s.len(),
        next_argument(s, i) is Some,
    ensures
        ({
            let j = skip_spaces(s, i);
            let (a, t) = argument_at(s, i)->0;
            &&& a.exclusive <==> (0 <= j < s.len() && s[j] == '[' && 2 <= t <= s.len() && s[t
                - 2] == ']' && s[t - 1] == '!')
            &&& t < s.len() ==> s[t] != '!'
        }),
{
    let j = skip_spaces(s, i);
    let (a, t) = argument_at(s, i)->0;
    if 0 <= j < s.len() && s[j] == '[' {
        let (b, e) = base_at(s, j + 1, true)->0;
        let k = skip_spaces(s, e);
        assert(s[k] == ']');
    } else {
        let (b, e) = base_at(s, j, false)->0;
        assert(!a.exclusive);
    }
}

/// An exclusive marker stands only after an optional argument: no argument
/// of a line that parses is both exclusive and required.
pub proof fn lemma_exclusive_only_optional(s: Seq<char>)
    requires
        parse_usage(s) is Ok,
    ensures
        forall|k: int|
            0 <= k < parse_usage(s)->Ok_0.arguments.len() ==> (
            #[trigger] parse_usage(s)->Ok_0.arguments[k]).exclusive
                ==> !parse_usage(s)->Ok_0.arguments[k].required,
{
    let a = skip_spaces(s, 0);
    let b = skip_spaces(s, a + 8);
    let c = skip_spaces(s, b + 5);
    lemma_arguments_exclusive(s, c);
}

/// Only white space follows the index that `skip_spaces` gives back where
/// that index is the end.
proof fn lemma_spaces_to_end(s: Seq<char>, i: int)
    requires
        0 <= i,
        skip_spaces(s, i) == s.len(),
    ensures
        forall|k: int| i <= k < s.len() ==> is_space_spec(#[trigger] s[k]),
    decreases s.len() - i,
{
    if i < s.len() {
        lemma_spaces_to_end(s, i + 1);
    }
}

/// `]...` stands at index `k` of `s`, and only white space after it.
pub open spec fn rest_mark_ends(s: Seq<char>, k: int) -> bool {
    &&& 0 <= k && k + 4 <= s.len()
    &&& s[k] == ']' && s[k + 1] == '.' && s[k + 2] == '.' && s[k + 3] == '.'
    &&& forall|m: int| k + 4 <= m < s.len() ==> is_space_spec(#[trigger] s[m])
}

/// A trailing capture is the last token: where a line that parses has one,
/// its `]...` is followed by white space alone.
pub proof fn lemma_rest_is_last(s: Seq<char>)
    requires
        parse_usage(s) is Ok,
        parse_usage(s)->Ok_0.rest is Some,
    ensures
        exists|k: int| #[trigger] rest_mark_ends(s, k),
{
    let a = skip_spaces(s, 0);
    let b = skip_spaces(s, a + 8);
    let c = skip_spaces(s, b + 5);
    let e = arguments_from(s, c).1;
    let j = skip_spaces(s, e);
    let k = ident_at(s, j + 1);
    lemma_spaces_to_end(s, k + 4);
    assert(rest_mark_ends(s, k));
}

// ---------------------------------------------------------------------------
// Reading back a written usage line.
proof fn lemma_peel(s: Seq<char>, p: int, a: Seq<char>, b: Seq<char>)
    requires
        0 <= p <= s.len(),
        s.skip(p) == a + b,
    ensures
        p + a.len() <= s.len(),
        s.skip(p + a.len()) == b,
        forall|k: int| 0 <= k < a.len() ==> s[p + k] == #[trigger] a[k],
        s.subrange(p, p + a.len()) == a,
{
    assert(s.skip(p).len() == a.len() + b.len());
    assert forall|k: int| 0 <= k < a.len() implies s[p + k] == #[trigger] a[k] by {
        assert(s.skip(p)[k] == s[p + k]);
        assert((a + b)[k] == a[k]);
    }
    assert(s.skip(p + a.len()) =~= b) by {
        assert forall|k: int| 0 <= k < b.len() implies s.skip(p + a.len())[k] == b[k] by {
            assert(s.skip(p)[a.len() + k] == s[p + a.len() + k]);
            assert((a + b)[a.len() + k] == b[k]);
        }
    }
    assert(s.subrange(p, p + a.len()) =~= a);
}

proof fn lemma_ident_run(s: Seq<char>, i: int, e: int)
    requires
        0 <= i <= e <= s.len(),
        forall|k: int| i <= k < e ==> is_ident_char(#[trigger] s[k]),
        e == s.len() || !is_ident_char(s[e]),
    ensures
        ident_tail(s, i) == e,
    decreases e - i,
{
    if i < e {
        lemma_ident_run(s, i + 1, e);
    }
}

proof fn lemma_value_run(s: Seq<char>, i: int, e: int)
    requires
        0 <= i <= e <= s.len(),
        forall|k: int| i <= k < e ==> is_value_char(#[trigger] s[k]),
        e == s.len() || !is_value_char(s[e]),
    ensures
        value_tail(s, i) == e,
    decreases e - i,
{
    if i < e {
        lemma_value_run(s, i + 1, e);
    }
}

/// An identifier written at `p`, and a character after it that cannot
/// continue it.
proof fn lemma_ident_at(s: Seq<char>, p: int, n: Seq<char>, b: Seq<char>)
    requires
        0 <= p <= s.len(),
        s.skip(p) == n + b,
        is_ident(n),
        b.len() == 0 || !is_ident_char(b[0]),
    ensures
        ident_at(s, p) == p + n.len(),
        s.subrange(p, p + n.len()) == n,
        s.skip(p + n.len()) == b,
{
    lemma_peel(s, p, n, b);
    assert(s[p] == n[0]);
    assert forall|k: int| p + 1 <= k < p + n.len() implies is_ident_char(#[trigger] s[k]) by {
        assert(s[p + (k - p)] == n[k - p]);
    }
    if b.len() > 0 {
        assert(s[p + n.len()] == s.skip(p + n.len())[0]);
    }
    lemma_ident_run(s, p + 1, p + n.len());
}

proof fn lemma_value_at(s: Seq<char>, p: int, v: Seq<char>, b: Seq<char>)
    requires
        0 <= p <= s.len(),
        s.skip(p) == v + b,
        is_value(v),
        b.len() == 0 || !is_value_char(b[0]),
    ensures
        value_tail(s, p) == p + v.len(),
        s.subrange(p, p + v.len()) == v,
        s.skip(p + v.len()) == b,
{
    lemma_peel(s, p, v, b);
    assert forall|k: int| p <= k < p + v.len() implies is_value_char(#[trigger] s[k]) by {
        assert(s[p + (k - p)] == v[k - p]);
    }
    if b.len() > 0 {
        assert(s[p + v.len()] == s.skip(p + v.len())[0]);
    }
    lemma_value_run(s, p, p + v.len());
}

/// A character that ends a base: white space, `]`, `!`, or nothing.
pub open spec fn ends_base(b: Seq<char>) -> bool {
    b.len() == 0 || b[0] == ' ' || b[0] == ']' || b[0] == '!'
}

/// A base written at `p` reads back as itself.
proof fn lemma_base_at(s: Seq<char>, p: int, x: BaseView, b: Seq<char>, bracketed: bool)
    requires
        0 <= p <= s.len(),
        s.skip(p) == base_token(x) + b,
        base_wf(x),
        ends_base(b),
        !bracketed ==> !(x is Positional),
    ensures
        base_at(s, p, bracketed) == Some((x, p + base_token(x).len())),
        s.skip(p + base_token(x).len()) == b,
{
    lemma_peel(s, p, base_token(x), b);
    let t = base_token(x);
    assert(t.len() > 0) by {
        match x {
            BaseView::Positional(n) => {},
            BaseView::Short(c) => {},
            BaseView::Long(n, v) => {},
        }
    }
    assert(s[p] == t[0]);
    assert(skip_spaces(s, p) == p);
    match x {
        BaseView::Short(c) => {
            assert(s[p + 1] == t[1]);
            assert(short_at(s, p) == Some((x, p + 2)));
        },
        BaseView::Long(n, v) => {
            let dd = seq!['-', '-'];
            assert(s[p + 1] == t[1]);
            assert(short_at(s, p) is None);
            match v {
                Some(w) => {
                    assert(t + b =~= dd + (n + (seq!['='] + w + b)));
                    lemma_peel(s, p, dd, n + (seq!['='] + w + b));
                    lemma_ident_at(s, p + 2, n, seq!['='] + w + b);
                    let e = p + 2 + n.len();
                    assert(s.skip(e) =~= seq!['='] + (w + b));
                    lemma_peel(s, e, seq!['='], w + b);
                    assert(s[e + 0] == seq!['='][0]);
                    lemma_value_at(s, e + 1, w, b);
                    assert(long_at(s, p) == Some((x, e + 1 + w.len())));
                },
                None => {
                    assert(t + b =~= dd + (n + b));
                    lemma_peel(s, p, dd, n + b);
                    lemma_ident_at(s, p + 2, n, b);
                    let e = p + 2 + n.len();
                    if b.len() > 0 {
                        assert(s[e] == s.skip(e)[0]);
                    }
                    assert(long_at(s, p) == Some((x, e)));
                },
            }
        },
        BaseView::Positional(n) => {
            assert(short_at(s, p) is None);
            assert(long_at(s, p) is None);
            lemma_ident_at(s, p, n, b);
        },
    }
}

proof fn lemma_required_at(s: Seq<char>, q: int, a: ArgView, y: Seq<char>)
    requires
        0 <= q <= s.len(),
        s.skip(q) == decl_token(a) + y,
        arg_wf(a),
        a.required,
        y.len() == 0 || y[0] == ' ' || y[0] == '!',
    ensures
        argument_at(s, q) == Some((a, q + decl_token(a).len())),
        s.skip(q + decl_token(a).len()) == y,
{
    let t = decl_token(a);
    lemma_peel(s, q, t, y);
    assert(!a.exclusive);
    assert(t =~= arg_token(a));
    match a.base {
        BaseView::Positional(n) => {
            assert(t + y =~= seq!['<'] + (n + (seq!['>'] + y)));
            lemma_peel(s, q, seq!['<'], n + (seq!['>'] + y));
            assert(s[q + 0] == seq!['<'][0]);
            lemma_ident_at(s, q + 1, n, seq!['>'] + y);
            let e = q + 1 + n.len();
            assert(s[e] == s.skip(e)[0]);
            assert(skip_spaces(s, q) == q);
            assert(short_at(s, q) is None);
            assert(long_at(s, q) is None);
            assert(angle_at(s, q) == Some((a.base, e + 1)));
            assert(s.skip(e + 1) =~= y);
        },
        _ => {
            assert(s[q] == t[0]);
            lemma_base_at(s, q, a.base, y, false);
        },
    }
}

proof fn lemma_optional_at(s: Seq<char>, q: int, a: ArgView, y: Seq<char>)
    requires
        0 <= q <= s.len(),
        s.skip(q) == decl_token(a) + y,
        arg_wf(a),
        !a.required,
        y.len() == 0 || y[0] == ' ' || (a.exclusive && y[0] == '!'),
    ensures
        argument_at(s, q) == Some((a, q + decl_token(a).len())),
        s.skip(q + decl_token(a).len()) == y,
{
    let t = decl_token(a);
    lemma_peel(s, q, t, y);
    let bt = base_token(a.base);
    let mark = if a.exclusive {
        seq!['!']
    } else {
        Seq::<char>::empty()
    };
    assert(t + y =~= seq!['['] + (bt + (seq![']'] + (mark + y))));
    lemma_peel(s, q, seq!['['], bt + (seq![']'] + (mark + y)));
    assert(s[q + 0] == seq!['['][0]);
    assert(skip_spaces(s, q) == q);
    lemma_base_at(s, q + 1, a.base, seq![']'] + (mark + y), true);
    let e = q + 1 + bt.len();
    lemma_peel(s, e, seq![']'], mark + y);
    assert(s[e + 0] == seq![']'][0]);
    assert(skip_spaces(s, e) == e);
    if a.exclusive {
        lemma_peel(s, e + 1, seq!['!'], y);
        assert(s[e + 1 + 0] == seq!['!'][0]);
    } else {
        assert(mark + y =~= y);
        if y.len() > 0 {
            assert(s[e + 1] == s.skip(e + 1)[0]);
        }
    }
}

/// An argument written at `q`, followed by white space or nothing, reads
/// back as itself.
proof fn lemma_argument_at(s: Seq<char>, q: int, a: ArgView, y: Seq<char>)
    requires
        0 <= q <= s.len(),
        s.skip(q) == decl_token(a) + y,
        arg_wf(a),
        y.len() == 0 || y[0] == ' ' || (y[0] == '!' && (a.required || a.exclusive)),
    ensures
        argument_at(s, q) == Some((a, q + decl_token(a).len())),
        s.skip(q + decl_token(a).len()) == y,
{
    if a.required {
        lemma_required_at(s, q, a, y);
    } else {
        lemma_optional_at(s, q, a, y);
    }
}

proof fn lemma_skip_bounds(s: Seq<char>, i: int)
    requires
        0 <= i <= s.len(),
    ensures
        i <= skip_spaces(s, i) <= s.len(),
    decreases s.len() - i,
{
    if i < s.len() && is_space_spec(s[i]) {
        lemma_skip_bounds(s, i + 1);
    }
}

/// One space, then a character that is not white space.
proof fn lemma_one_space(s: Seq<char>, p: int, y: Seq<char>)
    requires
        0 <= p <= s.len(),
        s.skip(p) == seq![' '] + y,
        y.len() > 0,
        !is_space_spec(y[0]),
    ensures
        skip_spaces(s, p) == p + 1,
        s.skip(p + 1) == y,
{
    lemma_peel(s, p, seq![' '], y);
    assert(s[p + 0] == seq![' '][0]);
    assert(s[p + 1] == s.skip(p + 1)[0]);
    assert(is_space_spec(s[p]));
    assert(skip_spaces(s, p + 1) == p + 1);
    assert(skip_spaces(s, p) == skip_spaces(s, p + 1));
}

proof fn lemma_token_start(a: ArgView)
    ensures
        decl_token(a).len() > 0,
        decl_token(a)[0] == '[' || decl_token(a)[0] == '<' || decl_token(a)[0] == '-',
{
    match a.base {
        BaseView::Positional(n) => {},
        BaseView::Short(c) => {},
        BaseView::Long(n, v) => {},
    }
}

/// The trailing capture written at `q` reads back as itself, and no argument
/// is read there.
proof fn lemma_rest_written(s: Seq<char>, q: int, r: Seq<char>, z: Seq<char>)
    requires
        0 <= q <= s.len(),
        s.skip(q) == seq!['['] + r + seq![']', '.', '.', '.'] + z,
        is_ident(r),
        z.len() == 0 || z[0] == ' ',
    ensures
        next_argument(s, q) is None,
        rest_at(s, q) == Some((r, skip_spaces(s, q + r.len() + 5))),
        s.skip(q + r.len() + 5) == z,
{
    let tail = seq![']', '.', '.', '.'];
    assert(seq!['['] + r + tail + z =~= seq!['['] + (r + (tail + z)));
    lemma_peel(s, q, seq!['['], r + (tail + z));
    assert(s[q + 0] == seq!['['][0]);
    assert(skip_spaces(s, q) == q);
    lemma_ident_at(s, q + 1, r, tail + z);
    let e = q + 1 + r.len();
    lemma_peel(s, e, tail, z);
    assert(s[e + 0] == tail[0]);
    assert(s[e + 1] == tail[1]);
    assert(s[e + 2] == tail[2]);
    assert(s[e + 3] == tail[3]);
    lemma_base_at(s, q + 1, BaseView::Positional(r), tail + z, true);
    assert(skip_spaces(s, e) == e);
}

proof fn lemma_no_arguments_written(s: Seq<char>, p: int, rest: Option<Seq<char>>, z: Seq<char>)
    requires
        0 <= p <= s.len(),
        s.skip(p) == rest_text(rest) + z,
        rest is Some ==> is_ident(rest->0),
        rest is None ==> z.len() == 0,
        z.len() == 0 || z[0] == ' ',
    ensures
        arguments_from(s, skip_spaces(s, p)) == (Seq::<ArgView>::empty(), skip_spaces(s, p)),
{
    match rest {
        Some(r) => {
            let y = seq!['['] + r + seq![']', '.', '.', '.'] + z;
            assert(rest_text(rest) + z =~= seq![' '] + y);
            lemma_one_space(s, p, y);
            lemma_rest_written(s, p + 1, r, z);
        },
        None => {
            assert(s.skip(p).len() == 0);
            assert(skip_spaces(s, p) == p);
        },
    }
}

/// Arguments written from `p` on, then a trailing capture or nothing, read
/// back as themselves; after a trailing capture anything may follow that
/// starts with white space.
#[verifier::spinoff_prover]
#[verifier::rlimit(80)]
proof fn lemma_arguments_written(
    s: Seq<char>,
    p: int,
    args: Seq<ArgView>,
    rest: Option<Seq<char>>,
    z: Seq<char>,
)
    requires
        0 <= p <= s.len(),
        s.skip(p) == decl_text(args) + rest_text(rest) + z,
        forall|k: int| 0 <= k < args.len() ==> arg_wf(#[trigger] args[k]),
        rest is Some ==> is_ident(rest->0),
        rest is None ==> z.len() == 0,
        z.len() == 0 || z[0] == ' ',
    ensures
        arguments_from(s, skip_spaces(s, p)) == (args, skip_spaces(s, p + decl_text(args).len())),
        s.skip(p + decl_text(args).len()) == rest_text(rest) + z,
{
    assert(decl_text(args) + rest_text(rest) + z =~= decl_text(args) + (rest_text(rest) + z));
    lemma_arguments_prefix(s, p, args, rest_text(rest) + z);
    let p2 = p + decl_text(args).len();
    lemma_no_arguments_written(s, p2, rest, z);
    assert(args + Seq::<ArgView>::empty() =~= args);
}

proof fn lemma_header(s: Seq<char>, body: Seq<char>)
    requires
        s == usage_keyword() + seq![' '] + cmd_keyword() + body,
    ensures
        skip_spaces(s, 0) == 0,
        stands_at(s, 0, usage_keyword()),
        skip_spaces(s, 8) == 9,
        stands_at(s, 9, cmd_keyword()),
        s.skip(14) == body,
{
    let head = usage_keyword() + seq![' '] + cmd_keyword();
    assert(s.skip(0) =~= s);
    lemma_peel(s, 0, head, body);
    assert(head.len() == 14);
    assert(s[0int] == head[0]);
    assert(s.subrange(0, 8) =~= usage_keyword()) by {
        assert forall|k: int| 0 <= k < 8 implies s.subrange(0, 8)[k] == usage_keyword()[k] by {
            assert(s[0 + k] == head[k]);
        }
    }
    assert(s[8int] == head[8]);
    assert(s[9int] == head[9]);
    assert(skip_spaces(s, 9) == 9);
    assert(s.subrange(9, 14) =~= cmd_keyword()) by {
        assert forall|k: int| 0 <= k < 5 implies s.subrange(9, 14)[k] == cmd_keyword()[k] by {
            assert(s[0 + (9 + k)] == head[9 + k]);
        }
    }
}

proof fn lemma_rest_tail(s: Seq<char>, p: int, rest: Option<Seq<char>>)
    requires
        0 <= p <= s.len(),
        s.skip(p) == rest_text(rest),
        rest is Some ==> is_ident(rest->0),
    ensures
        rest is Some ==> rest_at(s, skip_spaces(s, p)) == Some((rest->0, s.len() as int)),
        rest is None ==> skip_spaces(s, p) == s.len() && rest_at(s, skip_spaces(s, p)) is None,
{
    match rest {
        Some(r) => {
            let y = seq!['['] + r + seq![']', '.', '.', '.'] + Seq::<char>::empty();
            assert(rest_text(rest) =~= seq![' '] + y);
            lemma_one_space(s, p, y);
            lemma_rest_written(s, p + 1, r, Seq::empty());
            assert(s.skip(p + 1 + r.len() + 5).len() == 0);
            assert(skip_spaces(s, p + 1 + r.len() + 5) == s.len());
        },
        None => {
            assert(s.skip(p).len() == 0);
            assert(skip_spaces(s, p) == p);
        },
    }
}

/// A usage line written from what it declares reads back as that.
#[verifier::spinoff_prover]
#[verifier::rlimit(80)]
pub proof fn lemma_usage_line_reads_back(u: UsageView)
    requires
        usage_wf(u),
    ensures
        parse_usage(usage_line(u)) == Ok::<UsageView, int>(u),
{
    let s = usage_line(u);
    let body = decl_text(u.arguments) + rest_text(u.rest);
    assert(s =~= usage_keyword() + seq![' '] + cmd_keyword() + body);
    lemma_header(s, body);
    assert(s.skip(14) =~= body + Seq::<char>::empty());
    lemma_arguments_written(s, 14, u.arguments, u.rest, Seq::empty());
    let p: int = 14int + decl_text(u.arguments).len();
    assert(rest_text(u.rest) + Seq::<char>::empty() =~= rest_text(u.rest));
    lemma_rest_tail(s, p, u.rest);
}

/// A trailing capture is the last token: a usage line whose trailing capture
/// is followed by one more argument does not parse.
#[verifier::spinoff_prover]
#[verifier::rlimit(80)]
pub proof fn lemma_argument_after_rest_fails(u: UsageView, a: ArgView)
    requires
        usage_wf(u),
        u.rest is Some,
        arg_wf(a),
    ensures
        parse_usage(usage_line(u) + seq![' '] + decl_token(a)) is Err,
{
    let z = seq![' '] + decl_token(a);
    let s = usage_line(u) + z;
    let body = decl_text(u.arguments) + rest_text(u.rest) + z;
    assert(s =~= usage_keyword() + seq![' '] + cmd_keyword() + body);
    assert(usage_line(u) + seq![' '] + decl_token(a) =~= s);
    lemma_header(s, body);
    lemma_arguments_written(s, 14, u.arguments, u.rest, z);
    let p: int = 14int + decl_text(u.arguments).len();
    let r = u.rest->0;
    let y = seq!['['] + r + seq![']', '.', '.', '.'] + z;
    assert(rest_text(u.rest) + z =~= seq![' '] + y);
    lemma_one_space(s, p, y);
    lemma_rest_written(s, p + 1, r, z);
    let f = p + 1 + r.len() + 5;
    lemma_token_start(a);
    lemma_one_space(s, f, decl_token(a));
}

/// Arguments written from `p` on read back as themselves, and the reading
/// goes on after them as it would from there.
#[verifier::spinoff_prover]
#[verifier::rlimit(80)]
proof fn lemma_arguments_prefix(s: Seq<char>, p: int, args: Seq<ArgView>, z: Seq<char>)
    requires
        0 <= p <= s.len(),
        s.skip(p) == decl_text(args) + z,
        forall|k: int| 0 <= k < args.len() ==> arg_wf(#[trigger] args[k]),
        z.len() == 0 || z[0] == ' ',
    ensures
        ({
            let after = arguments_from(s, skip_spaces(s, p + decl_text(args).len()));
            arguments_from(s, skip_spaces(s, p)) == (args + after.0, after.1)
        }),
        s.skip(p + decl_text(args).len()) == z,
    decreases args.len(),
{
    if args.len() == 0 {
        assert(decl_text(args) + z =~= z);
        let after = arguments_from(s, skip_spaces(s, p));
        assert(args + after.0 =~= after.0);
    } else {
        let a = args[0];
        let tail = args.drop_first();
        let t = decl_token(a);
        let y = decl_text(tail) + z;
        assert(decl_text(args) + z =~= seq![' '] + (t + y));
        lemma_token_start(a);
        lemma_one_space(s, p, t + y);
        let q = p + 1;
        assert(y.len() == 0 || y[0] == ' ') by {
            if tail.len() > 0 {
                assert(decl_text(tail)[0] == ' ');
            } else {
                assert(y =~= z);
            }
        }
        lemma_argument_at(s, q, a, y);
        let p2 = q + t.len();
        if y.len() > 0 {
            assert(s[p2] == s.skip(p2)[0]);
        }
        assert forall|k: int| 0 <= k < tail.len() implies arg_wf(#[trigger] tail[k]) by {
            assert(tail[k] == args[k + 1]);
        }
        lemma_arguments_prefix(s, p2, tail, z);
        lemma_skip_bounds(s, p2);
        assert(next_argument(s, q) == Some((a, skip_spaces(s, p2))));
        let r = arguments_from(s, skip_spaces(s, p2));
        assert(arguments_from(s, q) == (seq![a] + r.0, r.1));
        let after = arguments_from(s, skip_spaces(s, p + decl_text(args).len()));
        assert(seq![a] + (tail + after.0) =~= args + after.0);
    }
}

/// A token followed directly by `!`, where the token is required or already
/// carries its marker: no argument and no trailing capture is read there.
proof fn lemma_token_then_marker(s: Seq<char>, q: int, a: ArgView)
    requires
        0 <= q <= s.len(),
        s.skip(q) == decl_token(a) + seq!['!'],
        arg_wf(a),
        a.required || a.exclusive,
    ensures
        next_argument(s, q) is None,
        rest_at(s, q) is None,
{
    lemma_argument_at(s, q, a, seq!['!']);
    let t = decl_token(a);
    lemma_token_start(a);
    lemma_peel(s, q, t, seq!['!']);
    assert(s.skip(q + t.len()).len() == 1);
    assert(s[q + t.len()] == s.skip(q + t.len())[0]);
    assert(s[q + 0] == t[0]);
    assert(skip_spaces(s, q) == q);
    if !a.required {
        let bt = base_token(a.base);
        assert(t + seq!['!'] =~= seq!['['] + (bt + seq![']', '!', '!']));
        lemma_peel(s, q, seq!['['], bt + seq![']', '!', '!']);
        match a.base {
            BaseView::Positional(n) => {
                lemma_ident_at(s, q + 1, n, seq![']', '!', '!']);
                let e = q + 1 + n.len();
                lemma_peel(s, e, seq![']', '!', '!'], Seq::empty());
                assert(s[e + 1] == seq![']', '!', '!'][1]);
            },
            _ => {
                lemma_peel(s, q + 1, bt, seq![']', '!', '!']);
                assert(s[q + 1 + 0] == bt[0]);
            },
        }
    }
}

/// The line `# Usage: {cmd}`, the arguments `args`, then `tail`.
pub open spec fn line_of(args: Seq<ArgView>, tail: Seq<char>) -> Seq<char> {
    usage_keyword() + seq![' '] + cmd_keyword() + decl_text(args) + tail
}

#[verifier::spinoff_prover]
#[verifier::rlimit(80)]
proof fn lemma_marked_token_fails(args: Seq<ArgView>, a: ArgView)
    requires
        forall|k: int| 0 <= k < args.len() ==> arg_wf(#[trigger] args[k]),
        arg_wf(a),
        a.required || a.exclusive,
    ensures
        parse_usage(line_of(args, seq![' '] + decl_token(a) + seq!['!'])) is Err,
{
    let z = seq![' '] + decl_token(a) + seq!['!'];
    let s = line_of(args, z);
    let body = decl_text(args) + z;
    assert(s =~= usage_keyword() + seq![' '] + cmd_keyword() + body);
    lemma_header(s, body);
    lemma_arguments_prefix(s, 14, args, z);
    let p: int = 14int + decl_text(args).len();
    lemma_token_start(a);
    assert(z =~= seq![' '] + (decl_token(a) + seq!['!']));
    lemma_one_space(s, p, decl_token(a) + seq!['!']);
    lemma_token_then_marker(s, p + 1, a);
    assert(p + 1 < s.len());
}

/// One exclusive marker at most: where a second `!` follows the marker of an
/// optional argument, the line does not parse.
pub proof fn lemma_second_marker_fails(args: Seq<ArgView>, a: ArgView)
    requires
        forall|k: int| 0 <= k < args.len() ==> arg_wf(#[trigger] args[k]),
        arg_wf(a),
        !a.required,
        a.exclusive,
    ensures
        parse_usage(line_of(args, seq![' '] + arg_token(a) + seq!['!', '!'])) is Err,
{
    lemma_marked_token_fails(args, a);
    assert(seq![' '] + decl_token(a) + seq!['!'] =~= seq![' '] + arg_token(a) + seq!['!', '!']);
}

/// No exclusive marker after a required argument: where `!` follows one,
/// the line does not parse.
pub proof fn lemma_marker_after_required_fails(args: Seq<ArgView>, a: ArgView)
    requires
        forall|k: int| 0 <= k < args.len() ==> arg_wf(#[trigger] args[k]),
        arg_wf(a),
        a.required,
    ensures
        parse_usage(line_of(args, seq![' '] + arg_token(a) + seq!['!'])) is Err,
{
    lemma_marked_token_fails(args, a);
    assert(decl_token(a) =~= arg_token(a));
}

proof fn lemma_ident_chars(s: Seq<char>, i: int)
    ensures
        forall|k: int| i <= k < ident_tail(s, i) ==> is_ident_char(#[trigger] s[k]),
    decreases s.len() - i,
{
    if 0 <= i < s.len() && is_ident_char(s[i]) {
        lemma_ident_chars(s, i + 1);
    }
}

proof fn lemma_value_chars(s: Seq<char>, i: int)
    ensures
        forall|k: int| i <= k < value_tail(s, i) ==> is_value_char(#[trigger] s[k]),
    decreases s.len() - i,
{
    if 0 <= i < s.len() && is_value_char(s[i]) {
        lemma_value_chars(s, i + 1);
    }
}

proof fn lemma_ident_read(s: Seq<char>, i: int)
    requires
        0 <= i,
        ident_at(s, i) > i,
    ensures
        is_ident(s.subrange(i, ident_at(s, i))),
        ident_at(s, i) <= s.len(),
{
    lemma_ident_chars(s, i + 1);
    lemma_ident_bound(s, i + 1);
    let n = s.subrange(i, ident_at(s, i));
    assert forall|k: int| 0 <= k < n.len() implies is_ident_char(#[trigger] n[k]) by {
        assert(n[k] == s[i + k]);
    }
}

proof fn lemma_ident_bound(s: Seq<char>, i: int)
    requires
        0 <= i <= s.len(),
    ensures
        i <= ident_tail(s, i) <= s.len(),
    decreases s.len() - i,
{
    if i < s.len() && is_ident_char(s[i]) {
        lemma_ident_bound(s, i + 1);
    }
}

proof fn lemma_value_bound(s: Seq<char>, i: int)
    requires
        0 <= i <= s.len(),
    ensures
        i <= value_tail(s, i) <= s.len(),
    decreases s.len() - i,
{
    if i < s.len() && is_value_char(s[i]) {
        lemma_value_bound(s, i + 1);
    }
}

proof fn lemma_base_read(s: Seq<char>, i: int, bracketed: bool)
    requires
        0 <= i <= s.len(),
        base_at(s, i, bracketed) is Some,
    ensures
        base_wf((base_at(s, i, bracketed)->0).0),
{
    let j = skip_spaces(s, i);
    lemma_skip_bounds(s, i);
    if short_at(s, j) is Some {
    } else if long_at(s, j) is Some {
        lemma_ident_read(s, j + 2);
        let e = ident_at(s, j + 2);
        if e < s.len() && s[e] == '=' && value_tail(s, e + 1) > e + 1 {
            lemma_value_chars(s, e + 1);
            lemma_value_bound(s, e + 1);
            let v = s.subrange(e + 1, value_tail(s, e + 1));
            assert forall|k: int| 0 <= k < v.len() implies is_value_char(#[trigger] v[k]) by {
                assert(v[k] == s[e + 1 + k]);
            }
        }
    } else if bracketed {
        lemma_ident_read(s, j);
    } else {
        lemma_ident_read(s, j + 1);
    }
}

proof fn lemma_arguments_read(s: Seq<char>, i: int)
    requires
        0 <= i,
    ensures
        forall|k: int|
            0 <= k < arguments_from(s, i).0.len() ==> arg_wf(#[trigger] arguments_from(s, i).0[k]),
    decreases s.len() - i,
{
    if 0 <= i < s.len() {
        match next_argument(s, i) {
            Some((a, e)) => {
                if i < e <= s.len() {
                    lemma_arguments_read(s, e);
                    lemma_arguments_exclusive(s, i);
                    let j = skip_spaces(s, i);
                    lemma_skip_bounds(s, i);
                    if 0 <= j < s.len() && s[j] == '[' {
                        lemma_base_read(s, j + 1, true);
                    } else {
                        lemma_base_read(s, j, false);
                    }
                    let r = arguments_from(s, i).0;
                    assert(r == seq![a] + arguments_from(s, e).0);
                    assert forall|k: int| 0 <= k < r.len() implies arg_wf(#[trigger] r[k]) by {
                        if k > 0 {
                            assert(r[k] == arguments_from(s, e).0[k - 1]);
                        } else {
                            assert(r[0] == a);
                        }
                    }
                }
            },
            None => {},
        }
    }
}

/// What a line that parses declares is what the grammar can give.
pub proof fn lemma_parsed_wf(s: Seq<char>)
    requires
        parse_usage(s) is Ok,
    ensures
        usage_wf(parse_usage(s)->Ok_0),
{
    let a = skip_spaces(s, 0);
    let b = skip_spaces(s, a + 8);
    let c = skip_spaces(s, b + 5);
    lemma_arguments_read(s, c);
    let e = arguments_from(s, c).1;
    let j = skip_spaces(s, e);
    if rest_at(s, e) is Some {
        lemma_ident_read(s, j + 1);
    }
}

/// Writing back what a usage line declares gives a line that declares the
/// same arguments in the same order, and the same trailing capture.
pub proof fn lemma_round_trip(line: Seq<char>)
    requires
        parse_usage(line) is Ok,
    ensures
        parse_usage(usage_line(parse_usage(line)->Ok_0)) == parse_usage(line),
{
    lemma_parsed_wf(line);
    lemma_usage_line_reads_back(parse_usage(line)->Ok_0);
}

// ---------------------------------------------------------------------------
// The parser.
pub open spec fn base_agrees(r: Option<(ArgBase, usize)>, m: Option<(BaseView, int)>) -> bool {
    match m {
        Some((b, e)) => r is Some && (r->0).0@ == b && (r->0).1 == e && 0 <= e,
        None => r is None,
    }
}

fn is_ascii_alpha_exec(c: char) -> (r: bool)
    ensures
        r == is_ascii_alpha(c),
{
    (97 <= (c as u32) && (c as u32) <= 122) || (65 <= (c as u32) && (c as u32) <= 90)
}

fn is_ident_char_exec(c: char) -> (r: bool)
    ensures
        r == is_ident_char(c),
{
    is_ascii_alpha_exec(c) || (48 <= (c as u32) && (c as u32) <= 57) || c == '_' || c == '-'
}

pub(crate) fn skip_spaces_exec(s: &Vec<char>, i: usize) -> (r: usize)
    requires
        i <= s@.len(),
    ensures
        r == skip_spaces(s@, i as int),
        i <= r <= s@.len(),
{
    let mut j = i;
    while j < s.len() && is_space(s[j])
        invariant
            i <= j <= s@.len(),
            skip_spaces(s@, j as int) == skip_spaces(s@, i as int),
        decreases s@.len() - j,
    {
        j = j + 1;
    }
    j
}

fn ident_tail_exec(s: &Vec<char>, i: usize) -> (r: usize)
    requires
        i <= s@.len(),
    ensures
        r == ident_tail(s@, i as int),
        i <= r <= s@.len(),
{
    let mut j = i;
    while j < s.len() && is_ident_char_exec(s[j])
        invariant
            i <= j <= s@.len(),
            ident_tail(s@, j as int) == ident_tail(s@, i as int),
        decreases s@.len() - j,
    {
        j = j + 1;
    }
    j
}

fn value_tail_exec(s: &Vec<char>, i: usize) -> (r: usize)
    requires
        i <= s@.len(),
    ensures
        r == value_tail(s@, i as int),
        i <= r <= s@.len(),
{
    let mut j = i;
    while j < s.len() && 65 <= (s[j] as u32) && (s[j] as u32) <= 90
        invariant
            i <= j <= s@.len(),
            value_tail(s@, j as int) == value_tail(s@, i as int),
        decreases s@.len() - j,
    {
        j = j + 1;
    }
    j
}

pub(crate) fn ident_at_exec(s: &Vec<char>, i: usize) -> (r: usize)
    requires
        i <= s@.len(),
    ensures
        r == ident_at(s@, i as int),
        i <= r <= s@.len(),
{
    if i < s.len() && is_ascii_alpha_exec(s[i]) {
        ident_tail_exec(s, i + 1)
    } else {
        i
    }
}

fn short_at_exec(s: &Vec<char>, i: usize) -> (r: Option<(ArgBase, usize)>)
    requires
        i <= s@.len(),
    ensures
        r is Some ==> (r->0).1 <= s@.len(),
        base_agrees(r, short_at(s@, i as int)),
{
    if i < s.len() && i + 1 < s.len() && s[i] == '-' && s[i + 1] != '-' && is_alphabetic(s[i + 1]) {
        Some((ArgBase::Short(s[i + 1]), i + 2))
    } else {
        None
    }
}

fn long_at_exec(s: &Vec<char>, i: usize) -> (r: Option<(ArgBase, usize)>)
    requires
        i <= s@.len(),
    ensures
        r is Some ==> (r->0).1 <= s@.len(),
        base_agrees(r, long_at(s@, i as int)),
{
    if i < s.len() && i + 1 < s.len() && s[i] == '-' && s[i + 1] == '-' {
        let e = ident_at_exec(s, i + 2);
        if e > i + 2 {
            let name = string_of(s, i + 2, e);
            if e < s.len() && s[e] == '=' {
                let v = value_tail_exec(s, e + 1);
                if v > e + 1 {
                    return Some((ArgBase::Long(name, Some(string_of(s, e + 1, v))), v));
                }
            }
            return Some((ArgBase::Long(name, None), e));
        }
    }
    None
}

fn base_at_exec(s: &Vec<char>, i: usize, bracketed: bool) -> (r: Option<(ArgBase, usize)>)
    requires
        i <= s@.len(),
    ensures
        r is Some ==> (r->0).1 <= s@.len(),
        base_agrees(r, base_at(s@, i as int, bracketed)),
{
    let j = skip_spaces_exec(s, i);
    let short = short_at_exec(s, j);
    if short.is_some() {
        return short;
    }
    let long = long_at_exec(s, j);
    if long.is_some() {
        return long;
    }
    if bracketed {
        let e = ident_at_exec(s, j);
        if e > j {
            Some((ArgBase::Positional(string_of(s, j, e)), e))
        } else {
            None
        }
    } else {
        if j < s.len() && s[j] == '<' {
            let e = ident_at_exec(s, j + 1);
            if e > j + 1 && e < s.len() && s[e] == '>' {
                return Some((ArgBase::Positional(string_of(s, j + 1, e)), e + 1));
            }
        }
        None
    }
}

pub open spec fn arg_agrees(r: Option<(ArgSpec, usize)>, m: Option<(ArgView, int)>) -> bool {
    match m {
        Some((a, e)) => r is Some && (r->0).0@ == a && (r->0).1 == e && 0 <= e,
        None => r is None,
    }
}

fn argument_at_exec(s: &Vec<char>, i: usize) -> (r: Option<(ArgSpec, usize)>)
    requires
        i <= s@.len(),
    ensures
        r is Some ==> (r->0).1 <= s@.len(),
        arg_agrees(r, argument_at(s@, i as int)),
{
    let j = skip_spaces_exec(s, i);
    if j < s.len() && s[j] == '[' {
        match base_at_exec(s, j + 1, true) {
            Some((b, e)) => {
                let k = skip_spaces_exec(s, e);
                if k < s.len() && s[k] == ']' {
                    if k + 1 < s.len() && s[k + 1] == '!' {
                        Some((ArgSpec { base: b, required: false, exclusive: true }, k + 2))
                    } else {
                        Some((ArgSpec { base: b, required: false, exclusive: false }, k + 1))
                    }
                } else {
                    None
                }
            },
            None => None,
        }
    } else {
        match base_at_exec(s, j, false) {
            Some((b, e)) => Some((ArgSpec { base: b, required: true, exclusive: false }, e)),
            None => None,
        }
    }
}

fn next_argument_exec(s: &Vec<char>, i: usize) -> (r: Option<(ArgSpec, usize)>)
    requires
        i <= s@.len(),
    ensures
        r is Some ==> (r->0).1 <= s@.len(),
        arg_agrees(r, next_argument(s@, i as int)),
{
    match argument_at_exec(s, i) {
        Some((a, t)) => {
            if t >= s.len() || is_space(s[t]) {
                Some((a, skip_spaces_exec(s, t)))
            } else {
                None
            }
        },
        None => None,
    }
}

fn rest_at_exec(s: &Vec<char>, i: usize) -> (r: Option<(String, usize)>)
    requires
        i <= s@.len(),
    ensures
        r is Some ==> (r->0).1 <= s@.len(),
        match rest_at(s@, i as int) {
            Some((n, f)) => r is Some && (r->0).0@ == n && (r->0).1 == f,
            None => r is None,
        },
{
    let j = skip_spaces_exec(s, i);
    if j < s.len() && s[j] == '[' {
        let e = ident_at_exec(s, j + 1);
        if e > j + 1 && e < s.len() && s.len() - e >= 4 && s[e] == ']' && s[e + 1] == '.' && s[e + 2] == '.'
            && s[e + 3] == '.' {
            return Some((string_of(s, j + 1, e), skip_spaces_exec(s, e + 4)));
        }
    }
    None
}

fn keyword_at(s: &Vec<char>, i: usize, k: &Vec<char>) -> (r: bool)
    requires
        i <= s@.len(),
    ensures
        r == stands_at(s@, i as int, k@),
{
    if k.len() > s.len() - i {
        return false;
    }
    let n = s.len();
    let mut m: usize = 0;
    while m < k.len()
        invariant
            n == s@.len(),
            i + k@.len() <= s@.len(),
            m <= k@.len(),
            forall|x: int| 0 <= x < m ==> s@[i + x] == k@[x],
        decreases k@.len() - m,
    {
        if s[i + m] != k[m] {
            assert(s@.subrange(i as int, i + k@.len())[m as int] != k@[m as int]);
            return false;
        }
        m = m + 1;
    }
    assert(s@.subrange(i as int, i + k@.len()) =~= k@);
    true
}

pub(crate) fn error_at(s: &Vec<char>, p: usize) -> (r: Vec<ParseError>)
    requires
        p <= s@.len(),
    ensures
        errors_at(r, s@, p as int),
{
    let found = if p < s.len() {
        Some(s[p])
    } else {
        None
    };
    vec![ParseError { position: p, found }]
}

/// `r` reports the one index `p` of `s`.
pub open spec fn errors_at(r: Vec<ParseError>, s: Seq<char>, p: int) -> bool {
    &&& r@.len() == 1
    &&& r@[0].position == p
    &&& r@[0].found == (if p < s.len() {
        Some(s[p])
    } else {
        None
    })
}

/// Parses a `# Usage:` line into its declared arguments, or reports the index
/// where the grammar could not go on.
pub fn parse_usage_line(line: &str) -> (r: Result<UsageLang, Vec<ParseError>>)
    ensures
        match parse_usage(line@) {
            Ok(u) => r is Ok && r->Ok_0@ == u,
            Err(p) => r is Err && errors_at(r->Err_0, line@, p),
        },
{
    let s = to_chars(line);
    let usage_kw = vec!['#', ' ', 'U', 's', 'a', 'g', 'e', ':'];
    let cmd_kw = vec!['{', 'c', 'm', 'd', '}'];
    assert(usage_kw@ =~= usage_keyword());
    assert(cmd_kw@ =~= cmd_keyword());
    let a = skip_spaces_exec(&s, 0);
    if !keyword_at(&s, a, &usage_kw) {
        return Err(error_at(&s, a));
    }
    let b = skip_spaces_exec(&s, a + 8);
    if !keyword_at(&s, b, &cmd_kw) {
        return Err(error_at(&s, b));
    }
    let c = skip_spaces_exec(&s, b + 5);
    let mut arguments: Vec<ArgSpec> = Vec::new();
    let mut i = c;
    loop
        invariant
            c <= i <= s@.len(),
            arguments_from(s@, c as int) == (args_view(arguments@) + arguments_from(
                s@,
                i as int,
            ).0, arguments_from(s@, i as int).1),
        ensures
            c <= i <= s@.len(),
            arguments_from(s@, i as int) == (Seq::<ArgView>::empty(), i as int),
        decreases s@.len() - i,
    {
        if i >= s.len() {
            break;
        }
        match next_argument_exec(&s, i) {
            Some((a, e)) => {
                if i < e && e <= s.len() {
                    proof {
                        let ghost tail = arguments_from(s@, e as int);
                        assert(arguments_from(s@, i as int) == (seq![a@] + tail.0, tail.1));
                        assert(args_view(arguments@.push(a)) =~= args_view(arguments@).push(a@));
                        assert(args_view(arguments@) + (seq![a@] + tail.0) =~= args_view(
                            arguments@,
                        ).push(a@) + tail.0);
                    }
                    arguments.push(a);
                    i = e;
                } else {
                    break;
                }
            },
            None => {
                break;
            },
        }
    }
    assert(args_view(arguments@) =~= args_view(arguments@) + Seq::<ArgView>::empty());
    assert(arguments_from(s@, c as int) == (args_view(arguments@), i as int));
    match rest_at_exec(&s, i) {
        Some((r, f)) => {
            if f == s.len() {
                Ok(UsageLang { arguments, rest: Some(r) })
            } else {
                Err(error_at(&s, f))
            }
        },
        None => {
            if i == s.len() {
                Ok(UsageLang { arguments, rest: None })
            } else {
                Err(error_at(&s, i))
            }
        },
    }
}

} // verus!
