//! The grammar of one line of an `# Options:` block and its parser.
//!
//! ```text
//! option     := ident ("(" completion ")")? ":" description
//! completion := "script" | "`" shell-command "`"
//! ```
use vstd::prelude::*;
use crate::completion::{CompletionType, CompletionView};
use crate::text::string_of;
use crate::text::to_chars;
use crate::text::skip_spaces;
use crate::usage_parser::{ident_at, stands_at, ParseError, errors_at};

verus! {

/// The metadata that an option line gives for one argument.
#[derive(Debug, Clone, PartialEq, Eq)]
pub struct OptionSpec {
    pub name: String,
    pub completion_type: Option<CompletionType>,
    pub description: Option<String>,
}

/// The mathematical form of an [`OptionSpec`].
pub struct OptionView {
    pub name: Seq<char>,
    pub completion: Option<CompletionView>,
    pub description: Option<Seq<char>>,
}

impl View for OptionSpec {
    type V = OptionView;

    open spec fn view(&self) -> OptionView {
        OptionView {
            name: self.name@,
            completion: match self.completion_type {
                Some(c) => Some(c@),
                None => None,
            },
            description: crate::usage_parser::opt_string_view(self.description),
        }
    }
}

pub open spec fn script_keyword() -> Seq<char> {
    seq!['s', 'c', 'r', 'i', 'p', 't']
}

/// The first back-tick at or after `i`; the length of `s` where there is none.
pub open spec fn tick_from(s: Seq<char>, i: int) -> int
    decreases s.len() - i,
{
    if 0 <= i < s.len() && s[i] != '`' {
        tick_from(s, i + 1)
    } else {
        i
    }
}

/// The completion hint that starts at `i`, and the index after it.
pub open spec fn completion_at(s: Seq<char>, i: int) -> Option<(CompletionView, int)> {
    if stands_at(s, i, script_keyword()) {
        Some((CompletionView::Script, i + 6))
    } else if 0 <= i < s.len() && s[i] == '`' {
        let j = skip_spaces(s, i + 1);
        let m = tick_from(s, j);
        if m < s.len() {
            Some((CompletionView::LiteralCommand(s.subrange(j, m)), skip_spaces(s, m + 1)))
        } else {
            None
        }
    } else {
        None
    }
}

/// The rest of an option line from its `:` on, with the name and hint that
/// came before.
pub open spec fn option_tail(s: Seq<char>, p: int, name: Seq<char>, c: Option<CompletionView>) -> Result<OptionView, int> {
    if 0 <= p < s.len() && s[p] == ':' {
        Ok(OptionView { name, completion: c, description: Some(s.subrange(skip_spaces(s, p + 1), s.len() as int)) })
    } else {
        Err(p)
    }
}

/// What an option line means, or the index where the grammar could not go on.
pub open spec fn parse_option(s: Seq<char>) -> Result<OptionView, int> {
    let a = skip_spaces(s, 0);
    let e = ident_at(s, a);
    if e == a {
        Err(a)
    } else {
        let name = s.subrange(a, e);
        let b = skip_spaces(s, e);
        if 0 <= b < s.len() && s[b] == '(' {
            match completion_at(s, b + 1) {
                Some((c, k)) => if 0 <= k < s.len() && s[k] == ')' {
                    option_tail(s, k + 1, name, Some(c))
                } else {
                    Err(k)
                },
                None => Err(b + 1),
            }
        } else {
            option_tail(s, b, name, None)
        }
    }
}

fn tick_from_exec(s: &Vec<char>, i: usize) -> (r: usize)
    requires
        i <= s@.len(),
    ensures
        r == tick_from(s@, i as int),
        i <= r <= s@.len(),
{
    let mut j = i;
    while j < s.len() && s[j] != '`'
        invariant
            i <= j <= s@.len(),
            tick_from(s@, j as int) == tick_from(s@, i as int),
        decreases s@.len() - j,
    {
        j = j + 1;
    }
    j
}

fn completion_at_exec(s: &Vec<char>, i: usize) -> (r: Option<(CompletionType, usize)>)
    requires
        i <= s@.len(),
    ensures
        r is Some ==> (r->0).1 <= s@.len(),
        match completion_at(s@, i as int) {
            Some((c, k)) => r is Some && (r->0).0@ == c && (r->0).1 == k,
            None => r is None,
        },
{
    let n = s.len();
    if n - i >= 6 && s[i] == 's' && s[i + 1] == 'c' && s[i + 2] == 'r' && s[i + 3] == 'i' && s[i
        + 4] == 'p' && s[i + 5] == 't' {
        assert(s@.subrange(i as int, i + 6) =~= script_keyword());
        return Some((CompletionType::Script, i + 6));
    }
    assert(n - i >= 6 ==> s@.subrange(i as int, i + 6)[0] == s@[i as int]);
    assert(n - i >= 6 ==> s@.subrange(i as int, i + 6)[1] == s@[i + 1]);
    assert(n - i >= 6 ==> s@.subrange(i as int, i + 6)[2] == s@[i + 2]);
    assert(n - i >= 6 ==> s@.subrange(i as int, i + 6)[3] == s@[i + 3]);
    assert(n - i >= 6 ==> s@.subrange(i as int, i + 6)[4] == s@[i + 4]);
    assert(n - i >= 6 ==> s@.subrange(i as int, i + 6)[5] == s@[i + 5]);
    if i < n && s[i] == '`' {
        let j = crate::usage_parser::skip_spaces_exec(s, i + 1);
        let m = tick_from_exec(s, j);
        if m < n {
            let cmd = string_of(s, j, m);
            return Some(
                (CompletionType::LiteralCommand(cmd), crate::usage_parser::skip_spaces_exec(s, m + 1)),
            );
        }
    }
    None
}

fn option_tail_exec(s: &Vec<char>, p: usize, name: String, c: Option<CompletionType>) -> (r: Result<OptionSpec, Vec<ParseError>>)
    requires
        p <= s@.len(),
    ensures
        match option_tail(s@, p as int, name@, match c { Some(x) => Some(x@), None => None }) {
            Ok(o) => r is Ok && r->Ok_0@ == o,
            Err(q) => r is Err && errors_at(r->Err_0, s@, q),
        },
{
    if p < s.len() && s[p] == ':' {
        let d = crate::usage_parser::skip_spaces_exec(s, p + 1);
        let description = string_of(s, d, s.len());
        Ok(OptionSpec { name, completion_type: c, description: Some(description) })
    } else {
        Err(crate::usage_parser::error_at(s, p))
    }
}

/// Parses one line of an `# Options:` block, or reports the index where the
/// grammar could not go on.
pub fn parse_option_line(line: &str) -> (r: Result<OptionSpec, Vec<ParseError>>)
    ensures
        match parse_option(line@) {
            Ok(o) => r is Ok && r->Ok_0@ == o,
            Err(p) => r is Err && errors_at(r->Err_0, line@, p),
        },
{
    let s = to_chars(line);
    let a = crate::usage_parser::skip_spaces_exec(&s, 0);
    let e = crate::usage_parser::ident_at_exec(&s, a);
    if e == a {
        return Err(crate::usage_parser::error_at(&s, a));
    }
    let name = string_of(&s, a, e);
    let b = crate::usage_parser::skip_spaces_exec(&s, e);
    if b < s.len() && s[b] == '(' {
        match completion_at_exec(&s, b + 1) {
            Some((c, k)) => {
                if k < s.len() && s[k] == ')' {
                    option_tail_exec(&s, k + 1, name, Some(c))
                } else {
                    Err(crate::usage_parser::error_at(&s, k))
                }
            },
            None => Err(crate::usage_parser::error_at(&s, b + 1)),
        }
    } else {
        option_tail_exec(&s, b, name, None)
    }
}

} // verus!
