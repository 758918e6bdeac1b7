//! What the user is told of an error: the lines to print, one per message.
use vstd::prelude::*;
use crate::error::Error;
use crate::text::{append_str, push_char, strings_view};
use crate::usage_parser::ParseError;

verus! {

/// The character of the decimal digit `d`.
pub open spec fn digit_char(d: int) -> char {
    if d == 0 {
        '0'
    } else if d == 1 {
        '1'
    } else if d == 2 {
        '2'
    } else if d == 3 {
        '3'
    } else if d == 4 {
        '4'
    } else if d == 5 {
        '5'
    } else if d == 6 {
        '6'
    } else if d == 7 {
        '7'
    } else if d == 8 {
        '8'
    } else {
        '9'
    }
}

/// `n` in decimal, without leading zeros.
pub open spec fn decimal(n: nat) -> Seq<char>
    decreases n,
{
    if n < 10 {
        seq![digit_char(n as int)]
    } else {
        decimal(n / 10).push(digit_char((n % 10) as int))
    }
}

fn digit(d: usize) -> (r: char)
    requires
        d < 10,
    ensures
        r == digit_char(d as int),
{
    if d == 0 {
        '0'
    } else if d == 1 {
        '1'
    } else if d == 2 {
        '2'
    } else if d == 3 {
        '3'
    } else if d == 4 {
        '4'
    } else if d == 5 {
        '5'
    } else if d == 6 {
        '6'
    } else if d == 7 {
        '7'
    } else if d == 8 {
        '8'
    } else {
        '9'
    }
}

/// Appends `n` in decimal.
pub fn push_decimal(s: &mut String, n: usize)
    ensures
        final(s)@ == old(s)@ + decimal(n as nat),
    decreases n,
{
    if n >= 10 {
        push_decimal(s, n / 10);
    }
    push_char(s, digit(n % 10));
    assert(final(s)@ =~= old(s)@ + decimal(n as nat));
}

/// One line for a place where a grammar could not go on.
pub open spec fn parse_error_text(e: ParseError) -> Seq<char> {
    "  at "@ + decimal(e.position as nat) + match e.found {
        Some(c) => ": unexpected '"@ + seq![c] + "'"@,
        None => ": unexpected end of input"@,
    }
}

pub open spec fn parse_error_lines(v: Seq<ParseError>) -> Seq<Seq<char>> {
    v.map_values(|e: ParseError| parse_error_text(e))
}

/// What the user is told of `e`, where `name` is the tool's name and `path`
/// the file the error comes from: nothing for a non-executable file, an
/// interrupted sub command or missing completions, which the exit status
/// alone reports.
pub open spec fn error_text(name: Seq<char>, path: Seq<char>, e: Error) -> Seq<Seq<char>> {
    match e {
        Error::UnknownSubCommand(n) => seq![name + ": no such sub command '"@ + n@ + "'"@],
        Error::InvalidUsageString(v) => seq![path + ": invalid usage string"@]
            + parse_error_lines(v@),
        Error::InvalidOptionString(v) => seq![path + ": invalid option string"@]
            + parse_error_lines(v@),
        Error::InvalidUTF8 => seq!["invalid UTF-8"@],
        Error::NoLibexecDir => seq![name + ": libexec directory not found in root"@],
        Error::SubCommandIoError(c) => seq![name + ": "@ + c@],
        Error::NonExecutable(_) => Seq::empty(),
        Error::SubCommandInterrupted => Seq::empty(),
        Error::NoCompletions => Seq::empty(),
    }
}

fn push_line(r: &mut Vec<String>, line: String)
    ensures
        strings_view(final(r)@) == strings_view(old(r)@).push(line@),
{
    r.push(line);
    assert(strings_view(final(r)@) =~= strings_view(old(r)@).push(line@));
}

fn push_parse_errors(r: &mut Vec<String>, v: &Vec<ParseError>)
    ensures
        strings_view(final(r)@) == strings_view(old(r)@) + parse_error_lines(v@),
{
    let ghost start = strings_view(r@);
    let mut i: usize = 0;
    while i < v.len()
        invariant
            i <= v@.len(),
            strings_view(r@) == start + parse_error_lines(v@.take(i as int)),
        decreases v@.len() - i,
    {
        let e = v[i];
        let mut line = String::new();
        append_str(&mut line, "  at ");
        push_decimal(&mut line, e.position);
        match e.found {
            Some(c) => {
                append_str(&mut line, ": unexpected '");
                push_char(&mut line, c);
                append_str(&mut line, "'");
            },
            None => {
                append_str(&mut line, ": unexpected end of input");
            },
        }
        assert(line@ =~= parse_error_text(e));
        push_line(r, line);
        assert(v@.take(i + 1) =~= v@.take(i as int).push(e));
        assert(parse_error_lines(v@.take(i + 1)) =~= parse_error_lines(v@.take(i as int)).push(
            parse_error_text(e),
        ));
        i = i + 1;
    }
    assert(v@.take(v@.len() as int) =~= v@);
}

fn joined(a: &str, b: &str, c: &str) -> (r: String)
    ensures
        r@ == a@ + b@ + c@,
{
    let mut r = String::from_str(a);
    append_str(&mut r, b);
    append_str(&mut r, c);
    r
}

/// The lines that tell the user of `error`; none in silent mode, as during
/// shell completion.
pub fn error_lines(name: &str, path: &str, error: &Error, silent: bool) -> (r: Vec<String>)
    ensures
        strings_view(r@) == if silent {
            Seq::empty()
        } else {
            error_text(name@, path@, *error)
        },
{
    let mut r: Vec<String> = Vec::new();
    assert(strings_view(r@) =~= Seq::<Seq<char>>::empty());
    proof {
        reveal_strlit("");
    }
    assert(""@ =~= Seq::<char>::empty());
    if silent {
        return r;
    }
    match error {
        Error::UnknownSubCommand(n) => {
            let line = joined(name, ": no such sub command '", n.as_str());
            let mut line = line;
            append_str(&mut line, "'");
            push_line(&mut r, line);
            assert(strings_view(r@) =~= error_text(name@, path@, *error));
        },
        Error::InvalidUsageString(v) => {
            push_line(&mut r, joined(path, ": invalid usage string", ""));
            push_parse_errors(&mut r, v);
            assert(strings_view(r@) =~= error_text(name@, path@, *error));
        },
        Error::InvalidOptionString(v) => {
            push_line(&mut r, joined(path, ": invalid option string", ""));
            push_parse_errors(&mut r, v);
            assert(strings_view(r@) =~= error_text(name@, path@, *error));
        },
        Error::InvalidUTF8 => {
            push_line(&mut r, String::from_str("invalid UTF-8"));
            assert(strings_view(r@) =~= error_text(name@, path@, *error));
        },
        Error::NoLibexecDir => {
            push_line(&mut r, joined(name, ": libexec directory not found in root", ""));
            assert(strings_view(r@) =~= error_text(name@, path@, *error));
        },
        Error::SubCommandIoError(c) => {
            push_line(&mut r, joined(name, ": ", c.as_str()));
            assert(strings_view(r@) =~= error_text(name@, path@, *error));
        },
        _ => {},
    }
    r
}

/// What the user is told of a validation report: each failure with the
/// path of the file it comes from, in order.
pub open spec fn report_text(name: Seq<char>, report: Seq<(String, Error)>) -> Seq<Seq<char>>
    decreases report.len(),
{
    if report.len() == 0 {
        Seq::empty()
    } else {
        report_text(name, report.drop_last()) + error_text(
            name,
            report.last().0@,
            report.last().1,
        )
    }
}

/// The lines that tell the user of a validation report.
pub fn report_lines(name: &str, report: &Vec<(String, Error)>) -> (r: Vec<String>)
    ensures
        strings_view(r@) == report_text(name@, report@),
{
    let mut r: Vec<String> = Vec::new();
    let mut i: usize = 0;
    assert(strings_view(r@) =~= Seq::<Seq<char>>::empty());
    while i < report.len()
        invariant
            i <= report@.len(),
            strings_view(r@) == report_text(name@, report@.take(i as int)),
        decreases report@.len() - i,
    {
        let lines = error_lines(name, report[i].0.as_str(), &report[i].1, false);
        let ghost before = r@;
        let mut j: usize = 0;
        while j < lines.len()
            invariant
                j <= lines@.len(),
                strings_view(r@) == strings_view(before) + strings_view(lines@).take(j as int),
            decreases lines@.len() - j,
        {
            push_line(&mut r, lines[j].clone());
            assert(strings_view(lines@).take(j + 1) =~= strings_view(lines@).take(j as int).push(
                lines@[j as int]@,
            ));
            j = j + 1;
        }
        assert(strings_view(lines@).take(lines@.len() as int) =~= strings_view(lines@));
        assert(report@.take(i + 1).drop_last() =~= report@.take(i as int));
        assert(report@.take(i + 1).last() == report@[i as int]);
        i = i + 1;
    }
    assert(report@.take(report@.len() as int) =~= report@);
    r
}

} // verus!
