//! The documentation that a script or a `README` carries in its leading
//! comment block: a summary, a usage line, option lines and a description.
use vstd::prelude::*;
use crate::text::{
    chars_eq, join_lines, join_with_newlines, starts_with_chars, strings_view,
    to_chars, trim, trim_string,
};
use crate::usage_parser::is_ascii_alpha;

verus! {

// ---------------------------------------------------------------------------
// Line patterns.
/// The pattern text `^P(Q.*)$`: `P` at the start of the line, then a group
/// that holds `Q` and the rest of the line.
pub open spec fn anchored_pattern(p: Seq<char>, q: Seq<char>) -> Seq<char> {
    seq!['^'] + p + seq!['('] + q + seq!['.', '*', ')', '$']
}

/// The characters that stand for themselves in a pattern.
pub open spec fn is_literal_char(c: char) -> bool {
    is_ascii_alpha(c) || (48 <= (c as u32) && (c as u32) <= 57) || c == ' ' || c == '#' || c
        == ':'
}

pub open spec fn is_literal(p: Seq<char>) -> bool {
    forall|i: int| 0 <= i < p.len() ==> is_literal_char(#[trigger] p[i])
}

/// What the group of `^P(Q.*)$` holds on `line`: the line after `P`, where the
/// line starts with `P` and `Q` and has no line feed.
pub open spec fn captured_after(p: Seq<char>, q: Seq<char>, line: Seq<char>) -> Option<Seq<char>> {
    if (p + q).is_prefix_of(line) && !line.contains('\n') {
        Some(line.skip(p.len() as int))
    } else {
        None
    }
}

/// Relies on `regex::Regex::new` and `regex::Regex::captures`: a short
/// pattern `^P(Q.*)$` of literal characters compiles (far below the size
/// limit of `Regex::new`), and its first group holds the line after `P` where
/// the whole line matches (`.` takes any character but a line feed, `$` is
/// the end of the text).
#[verifier::external_body]
fn capture_after(pattern: &str, line: &str) -> (r: Option<String>)
    requires
        pattern@.len() <= 32,
        exists|p: Seq<char>, q: Seq<char>|
            pattern@ == anchored_pattern(p, q) && is_literal(p) && is_literal(q),
    ensures
        forall|p: Seq<char>, q: Seq<char>|
            pattern@ == #[trigger] anchored_pattern(p, q) && is_literal(p) && is_literal(q)
                ==> match captured_after(p, q, line@) {
                Some(c) => r is Some && r->0@ == c,
                None => r is None,
            },
{
    regex::Regex::new(pattern).unwrap().captures(line).and_then(|c| c.get(1)).map(
        |m| m.as_str().to_owned(),
    )
}

pub open spec fn summary_prefix() -> Seq<char> {
    seq!['#', ' ', 'S', 'u', 'm', 'm', 'a', 'r', 'y', ':', ' ']
}

pub open spec fn comment_prefix() -> Seq<char> {
    seq!['#', ' ']
}

pub open spec fn options_header() -> Seq<char> {
    seq!['#', ' ', 'O', 'p', 't', 'i', 'o', 'n', 's', ':']
}

pub open spec fn completions_marker() -> Seq<char> {
    seq!['#', ' ', 'P', 'r', 'o', 'v', 'i', 'd', 'e', ' ', 'c', 'o', 'm', 'p', 'l', 'e', 't', 'i', 'o', 'n', 's']
}

/// The text after `# Summary: `.
fn summary_capture(line: &str) -> (r: Option<String>)
    ensures
        match captured_after(summary_prefix(), Seq::empty(), line@) {
            Some(c) => r is Some && r->0@ == c,
            None => r is None,
        },
{
    let pattern = "^# Summary: (.*)$";
    proof {
        reveal_strlit("^# Summary: (.*)$");
        assert(pattern@ =~= anchored_pattern(summary_prefix(), Seq::empty()));
        assert(is_literal(summary_prefix()));
        assert(is_literal(Seq::<char>::empty()));
    }
    capture_after(pattern, line)
}

/// The text after `# `.
fn comment_capture(line: &str) -> (r: Option<String>)
    ensures
        match captured_after(comment_prefix(), Seq::empty(), line@) {
            Some(c) => r is Some && r->0@ == c,
            None => r is None,
        },
{
    let pattern = "^# (.*)$";
    proof {
        reveal_strlit("^# (.*)$");
        assert(pattern@ =~= anchored_pattern(comment_prefix(), Seq::empty()));
        assert(is_literal(comment_prefix()));
        assert(is_literal(Seq::<char>::empty()));
    }
    capture_after(pattern, line)
}

/// The text after `# ` where a further space follows.
fn indented_capture(line: &str) -> (r: Option<String>)
    ensures
        match captured_after(comment_prefix(), seq![' '], line@) {
            Some(c) => r is Some && r->0@ == c,
            None => r is None,
        },
{
    let pattern = "^# ( .*)$";
    proof {
        reveal_strlit("^# ( .*)$");
        assert(pattern@ =~= anchored_pattern(comment_prefix(), seq![' ']));
        assert(is_literal(comment_prefix()));
        assert(is_literal(seq![' ']));
    }
    capture_after(pattern, line)
}

// ---------------------------------------------------------------------------
// The comment block.
pub open spec fn is_comment_line(line: Seq<char>) -> bool {
    line.len() > 0 && line[0] == '#'
}

/// The number of comment lines that open the text.
pub open spec fn block_len(lines: Seq<Seq<char>>, i: int) -> int
    decreases lines.len() - i,
{
    if 0 <= i < lines.len() && is_comment_line(lines[i]) {
        block_len(lines, i + 1)
    } else {
        i
    }
}

/// The leading comment block: the lines before the first that does not start
/// with `#`.
pub open spec fn comment_block(lines: Seq<Seq<char>>) -> Seq<Seq<char>> {
    lines.take(block_len(lines, 0))
}

/// The lines of the leading comment block of a text given line by line.
pub fn extract_initial_comment_block(lines: &Vec<String>) -> (r: Vec<String>)
    ensures
        strings_view(r@) == comment_block(strings_view(lines@)),
{
    let ghost all = strings_view(lines@);
    let mut r: Vec<String> = Vec::new();
    let mut i: usize = 0;
    while i < lines.len()
        invariant
            all == strings_view(lines@),
            i <= lines@.len(),
            block_len(all, i as int) == block_len(all, 0),
            forall|k: int| 0 <= k < i ==> is_comment_line(#[trigger] all[k]),
            strings_view(r@) == all.take(i as int),
        ensures
            i <= lines@.len(),
            block_len(all, 0) == i,
            strings_view(r@) == all.take(i as int),
        decreases lines@.len() - i,
    {
        let c = to_chars(lines[i].as_str());
        if c.len() == 0 || c[0] != '#' {
            assert(!is_comment_line(all[i as int]));
            break;
        }
        let ghost before = r@;
        r.push(lines[i].clone());
        assert(r@ == before.push(lines@[i as int]));
        assert(strings_view(r@) =~= strings_view(before).push(lines@[i as int]@));
        assert(all.take(i + 1) =~= all.take(i as int).push(all[i as int]));
        i = i + 1;
    }
    r
}

/// Whether the text holds the line `# Provide completions`, the mark of a
/// script that answers `--complete` itself.
pub fn provides_completions(lines: &Vec<String>) -> (r: bool)
    ensures
        r == strings_view(lines@).contains(completions_marker()),
{
    let marker = vec![
        '#', ' ', 'P', 'r', 'o', 'v', 'i', 'd', 'e', ' ', 'c', 'o', 'm', 'p', 'l', 'e', 't', 'i',
        'o', 'n', 's',
    ];
    assert(marker@ =~= completions_marker());
    let ghost all = strings_view(lines@);
    let mut i: usize = 0;
    while i < lines.len()
        invariant
            all == strings_view(lines@),
            marker@ == completions_marker(),
            i <= lines@.len(),
            forall|k: int| 0 <= k < i ==> all[k] != completions_marker(),
        decreases lines@.len() - i,
    {
        let c = to_chars(lines[i].as_str());
        if chars_eq(&c, &marker) {
            assert(all[i as int] == completions_marker());
            return true;
        }
        i = i + 1;
    }
    false
}

// ---------------------------------------------------------------------------
// The state machine over the comment block.
#[derive(PartialEq, Eq, Structural, Clone, Copy)]
pub enum Mode {
    Out,
    Options,
    Description,
}

/// What has been read of a comment block so far.
pub struct DocState {
    pub mode: Mode,
    pub summary: Option<Seq<char>>,
    pub usage: Option<Seq<char>>,
    pub options: Seq<Seq<char>>,
    pub description: Seq<Seq<char>>,
}

pub open spec fn initial_doc_state() -> DocState {
    DocState {
        mode: Mode::Out,
        summary: None,
        usage: None,
        options: Seq::empty(),
        description: Seq::empty(),
    }
}

pub open spec fn hash_line() -> Seq<char> {
    seq!['#']
}

/// The state after one more line of the comment block.
pub open spec fn doc_step(st: DocState, line: Seq<char>) -> DocState {
    let summary = captured_after(summary_prefix(), Seq::empty(), line);
    let comment = captured_after(comment_prefix(), Seq::empty(), line);
    let indented = captured_after(comment_prefix(), seq![' '], line);
    match st.mode {
        Mode::Out => if line == hash_line() {
            st
        } else if summary is Some {
            DocState { summary: Some(trim(summary->0)), ..st }
        } else if crate::usage_parser::usage_keyword().is_prefix_of(line) {
            DocState { usage: Some(line), ..st }
        } else if line == options_header() {
            DocState { mode: Mode::Options, ..st }
        } else if comment is Some {
            DocState {
                mode: Mode::Description,
                description: st.description.push(trim(comment->0)),
                ..st
            }
        } else {
            st
        },
        Mode::Options => if line == hash_line() {
            DocState { mode: Mode::Out, ..st }
        } else if indented is Some {
            DocState { options: st.options.push(trim(indented->0)), ..st }
        } else {
            st
        },
        Mode::Description => if line == hash_line() {
            DocState { description: st.description.push(Seq::empty()), ..st }
        } else if comment is Some {
            DocState { description: st.description.push(trim(comment->0)), ..st }
        } else {
            st
        },
    }
}

/// The state after the given lines.
pub open spec fn doc_scan(lines: Seq<Seq<char>>) -> DocState
    decreases lines.len(),
{
    if lines.len() == 0 {
        initial_doc_state()
    } else {
        doc_step(doc_scan(lines.drop_last()), lines.last())
    }
}

/// The documentation of a text given line by line.
#[derive(Debug, Clone)]
pub struct Docs {
    pub summary: Option<String>,
    pub usage: Option<String>,
    pub options: Vec<String>,
    pub description: Option<String>,
}

/// The mathematical form of [`Docs`].
pub struct DocsView {
    pub summary: Option<Seq<char>>,
    pub usage: Option<Seq<char>>,
    pub options: Seq<Seq<char>>,
    pub description: Option<Seq<char>>,
}

impl View for Docs {
    type V = DocsView;

    open spec fn view(&self) -> DocsView {
        DocsView {
            summary: crate::usage_parser::opt_string_view(self.summary),
            usage: crate::usage_parser::opt_string_view(self.usage),
            options: strings_view(self.options@),
            description: crate::usage_parser::opt_string_view(self.description),
        }
    }
}

/// The documentation that a text's leading comment block gives.
pub open spec fn docs_of(lines: Seq<Seq<char>>) -> DocsView {
    let st = doc_scan(comment_block(lines));
    DocsView {
        summary: st.summary,
        usage: st.usage,
        options: st.options,
        description: if st.description.len() == 0 {
            None
        } else {
            Some(join_lines(st.description))
        },
    }
}

impl Docs {
    /// Documentation with nothing in it.
    pub fn new() -> (r: Self)
        ensures
            r@ == (DocsView {
                summary: None,
                usage: None,
                options: Seq::empty(),
                description: None,
            }),
    {
        let r = Docs { summary: None, usage: None, options: Vec::new(), description: None };
        assert(strings_view(r.options@) =~= Seq::empty());
        r
    }
}

/// What a script's documentation says of it as a whole.
#[derive(Debug, Clone)]
pub struct Metadata {
    pub summary: Option<String>,
    pub description: Option<String>,
    pub provides_completions: bool,
}

impl Metadata {
    /// Metadata with nothing in it.
    pub fn new() -> (r: Self)
        ensures
            r.summary is None,
            r.description is None,
            !r.provides_completions,
    {
        Metadata { summary: None, description: None, provides_completions: false }
    }

    /// The summary and description of `docs`, with the given completion mark.
    pub fn from_docs(docs: &Docs, provides_completions: bool) -> (r: Self)
        ensures
            crate::usage_parser::opt_string_view(r.summary) == docs@.summary,
            crate::usage_parser::opt_string_view(r.description) == docs@.description,
            r.provides_completions == provides_completions,
    {
        Metadata {
            summary: copy_opt_string(&docs.summary),
            description: copy_opt_string(&docs.description),
            provides_completions,
        }
    }
}

fn copy_opt_string(o: &Option<String>) -> (r: Option<String>)
    ensures
        crate::usage_parser::opt_string_view(r) == crate::usage_parser::opt_string_view(*o),
{
    match o {
        Some(s) => Some(s.clone()),
        None => None,
    }
}

/// The metadata of a script given line by line: the summary and description
/// of its leading comment block, and whether it carries the completion mark.
pub fn extract_help(lines: &Vec<String>) -> (r: Metadata)
    ensures
        crate::usage_parser::opt_string_view(r.summary) == docs_of(strings_view(lines@)).summary,
        crate::usage_parser::opt_string_view(r.description) == docs_of(
            strings_view(lines@),
        ).description,
        r.provides_completions == strings_view(lines@).contains(completions_marker()),
{
    let docs = extract_docs(lines);
    let marked = provides_completions(lines);
    Metadata::from_docs(&docs, marked)
}

struct Scan {
    mode: Mode,
    summary: Option<String>,
    usage: Option<String>,
    options: Vec<String>,
    description: Vec<String>,
}

impl View for Scan {
    type V = DocState;

    closed spec fn view(&self) -> DocState {
        DocState {
            mode: self.mode,
            summary: crate::usage_parser::opt_string_view(self.summary),
            usage: crate::usage_parser::opt_string_view(self.usage),
            options: strings_view(self.options@),
            description: strings_view(self.description@),
        }
    }
}

fn push_view(v: &mut Vec<String>, s: String)
    ensures
        strings_view(final(v)@) == strings_view(old(v)@).push(s@),
{
    v.push(s);
    assert(strings_view(v@) =~= strings_view(old(v)@).push(s@));
}

fn scan_line(st: &mut Scan, line: &String)
    ensures
        final(st)@ == doc_step(old(st)@, line@),
{
    let c = to_chars(line.as_str());
    let hash = vec!['#'];
    assert(hash@ =~= hash_line());
    let is_hash = chars_eq(&c, &hash);
    match st.mode {
        Mode::Out => {
            if is_hash {
                return ;
            }
            if let Some(s) = summary_capture(line.as_str()) {
                st.summary = Some(trim_string(s.as_str()));
                return ;
            }
            let usage_kw = vec!['#', ' ', 'U', 's', 'a', 'g', 'e', ':'];
            assert(usage_kw@ =~= crate::usage_parser::usage_keyword());
            if starts_with_chars(&c, &usage_kw) {
                st.usage = Some(line.clone());
                return ;
            }
            let header = vec!['#', ' ', 'O', 'p', 't', 'i', 'o', 'n', 's', ':'];
            assert(header@ =~= options_header());
            if chars_eq(&c, &header) {
                st.mode = Mode::Options;
                return ;
            }
            if let Some(s) = comment_capture(line.as_str()) {
                push_view(&mut st.description, trim_string(s.as_str()));
                st.mode = Mode::Description;
            }
        },
        Mode::Options => {
            if is_hash {
                st.mode = Mode::Out;
                return ;
            }
            if let Some(s) = indented_capture(line.as_str()) {
                push_view(&mut st.options, trim_string(s.as_str()));
            }
        },
        Mode::Description => {
            if is_hash {
                push_view(&mut st.description, String::new());
                return ;
            }
            if let Some(s) = comment_capture(line.as_str()) {
                push_view(&mut st.description, trim_string(s.as_str()));
            }
        },
    }
}

/// Reads the documentation from the leading comment block of a text given
/// line by line.
pub fn extract_docs(lines: &Vec<String>) -> (r: Docs)
    ensures
        r@ == docs_of(strings_view(lines@)),
{
    let block = extract_initial_comment_block(lines);
    let ghost bv = strings_view(block@);
    let mut st = Scan {
        mode: Mode::Out,
        summary: None,
        usage: None,
        options: Vec::new(),
        description: Vec::new(),
    };
    assert(strings_view(st.options@) =~= Seq::empty());
    assert(strings_view(st.description@) =~= Seq::empty());
    assert(st@ =~= initial_doc_state());
    let mut i: usize = 0;
    while i < block.len()
        invariant
            bv == strings_view(block@),
            i <= block@.len(),
            st@ == doc_scan(bv.take(i as int)),
        decreases block@.len() - i,
    {
        assert(bv.take(i + 1).drop_last() =~= bv.take(i as int));
        scan_line(&mut st, &block[i]);
        i = i + 1;
    }
    assert(bv.take(block@.len() as int) =~= bv);
    let description = if st.description.len() == 0 {
        None
    } else {
        Some(join_with_newlines(&st.description))
    };
    Docs { summary: st.summary, usage: st.usage, options: st.options, description }
}

} // verus!
