//! A script's documentation read as a whole: its metadata, its declared
//! arguments and option lines, and its completion index.
use vstd::prelude::*;
use crate::completion::CompletionInfo;
use crate::docs::{completions_marker, docs_of, extract_docs, provides_completions, Metadata};
use crate::error::Error;
use crate::option_parser::OptionSpec;
use crate::text::strings_view;
use crate::usage::{entries_view, hints_of, options_view, parse_options, parsed_options};
use crate::usage_parser::{errors_at, opt_string_view, parse_usage, parse_usage_line, UsageLang};

verus! {

/// What a script's leading comment block declares.
#[derive(Debug, Clone)]
pub struct Script {
    pub path: String,
    pub metadata: Metadata,
    pub usage: Option<UsageLang>,
    pub options: Vec<OptionSpec>,
    pub completion_info: CompletionInfo,
}

/// The usage line of a text, parsed: nothing where there is none, the
/// failure where it does not parse.
pub open spec fn usage_agrees(r: Result<Option<UsageLang>, Error>, lines: Seq<Seq<char>>) -> bool {
    match docs_of(lines).usage {
        None => r is Ok && r->Ok_0 is None,
        Some(u) => match parse_usage(u) {
            Ok(v) => r is Ok && r->Ok_0 is Some && r->Ok_0->0@ == v,
            Err(p) => r is Err && r->Err_0 is InvalidUsageString && errors_at(
                r->Err_0->InvalidUsageString_0,
                u,
                p,
            ),
        },
    }
}

/// `r` is what reading the script at `path` with the text `lines` gives.
pub open spec fn script_agrees(r: Result<Script, Error>, path: Seq<char>, lines: Seq<Seq<char>>) -> bool {
    let d = docs_of(lines);
    let u = match r {
        Ok(s) => Ok(s.usage),
        Err(e) => Err(e),
    };
    &&& usage_agrees(u, lines)
    &&& r is Ok ==> {
        let s = r->Ok_0;
        &&& s.path@ == path
        &&& opt_string_view(s.metadata.summary) == d.summary
        &&& opt_string_view(s.metadata.description) == d.description
        &&& s.metadata.provides_completions == lines.contains(completions_marker())
        &&& options_view(s.options@) == parsed_options(d.options)
        &&& entries_view(s.completion_info.completion_types@) == hints_of(
            options_view(s.options@),
        )
        &&& s.completion_info.provides_completions == (s.completion_info.completion_types@.len()
            > 0)
    }
}

/// The usage line of a text given line by line, parsed.
pub fn extract_usage(lines: &Vec<String>) -> (r: Result<Option<UsageLang>, Error>)
    ensures
        usage_agrees(r, strings_view(lines@)),
{
    let docs = extract_docs(lines);
    match &docs.usage {
        Some(line) => match parse_usage_line(line.as_str()) {
            Ok(u) => Ok(Some(u)),
            Err(e) => Err(Error::InvalidUsageString(e)),
        },
        None => Ok(None),
    }
}

/// The option lines of a text given line by line that parse, in order.
pub fn extract_options(lines: &Vec<String>) -> (r: Vec<OptionSpec>)
    ensures
        options_view(r@) == parsed_options(docs_of(strings_view(lines@)).options),
{
    let docs = extract_docs(lines);
    let (options, _) = parse_options(&docs.options);
    options
}

impl Script {
    /// Reads a script given line by line. Fails where its usage line does not
    /// parse; option lines that do not parse are skipped.
    pub fn parse(path: &String, lines: &Vec<String>) -> (r: Result<Script, Error>)
        ensures
            script_agrees(r, path@, strings_view(lines@)),
    {
        let docs = extract_docs(lines);
        let marked = provides_completions(lines);
        let metadata = Metadata::from_docs(&docs, marked);
        let usage = match &docs.usage {
            Some(line) => match parse_usage_line(line.as_str()) {
                Ok(u) => Some(u),
                Err(e) => {
                    return Err(Error::InvalidUsageString(e));
                },
            },
            None => None,
        };
        let (options, hints) = parse_options(&docs.options);
        let completion_info = CompletionInfo::with_completions(hints);
        Ok(Script { path: path.clone(), metadata, usage, options, completion_info })
    }

    pub fn has_usage(&self) -> (r: bool)
        ensures
            r == self.usage is Some,
    {
        self.usage.is_some()
    }

    pub fn provides_completions(&self) -> (r: bool)
        ensures
            r == self.completion_info.provides_completions,
    {
        self.completion_info.provides_completions
    }
}

/// Reads a script given line by line; see [`Script::parse`].
pub fn parse_script(path: &String, lines: &Vec<String>) -> (r: Result<Script, Error>)
    ensures
        script_agrees(r, path@, strings_view(lines@)),
{
    Script::parse(path, lines)
}

} // verus!
