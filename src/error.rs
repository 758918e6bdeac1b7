//! The errors of resolution, validation and invocation.
use vstd::prelude::*;
use crate::usage_parser::ParseError;

verus! {

#[derive(Debug, Clone, PartialEq, Eq)]
pub enum Error {
    NoCompletions,
    NonExecutable(String),
    NoLibexecDir,
    /// A sub command could not be started; the cause in words.
    SubCommandIoError(String),
    SubCommandInterrupted,
    UnknownSubCommand(String),
    InvalidUsageString(Vec<ParseError>),
    InvalidOptionString(Vec<ParseError>),
    InvalidUTF8,
}

/// Two errors of the same kind with the same contents.
pub open spec fn same_error(a: Error, b: Error) -> bool {
    match a {
        Error::NoCompletions => b is NoCompletions,
        Error::NonExecutable(x) => b is NonExecutable && b->NonExecutable_0@ == x@,
        Error::NoLibexecDir => b is NoLibexecDir,
        Error::SubCommandIoError(x) => b is SubCommandIoError && b->SubCommandIoError_0@ == x@,
        Error::SubCommandInterrupted => b is SubCommandInterrupted,
        Error::UnknownSubCommand(x) => b is UnknownSubCommand && b->UnknownSubCommand_0@ == x@,
        Error::InvalidUsageString(x) => b is InvalidUsageString && b->InvalidUsageString_0@
            == x@,
        Error::InvalidOptionString(x) => b is InvalidOptionString && b->InvalidOptionString_0@
            == x@,
        Error::InvalidUTF8 => b is InvalidUTF8,
    }
}

fn copy_errors(v: &Vec<ParseError>) -> (r: Vec<ParseError>)
    ensures
        r@ == v@,
{
    let mut r: Vec<ParseError> = Vec::new();
    let mut i: usize = 0;
    while i < v.len()
        invariant
            i <= v@.len(),
            r@ == v@.take(i as int),
        decreases v@.len() - i,
    {
        r.push(v[i]);
        assert(r@ =~= v@.take(i + 1));
        i = i + 1;
    }
    assert(v@.take(v@.len() as int) =~= v@);
    r
}

impl Error {
    /// A copy of this error.
    pub fn duplicate(&self) -> (r: Error)
        ensures
            same_error(*self, r),
    {
        match self {
            Error::NoCompletions => Error::NoCompletions,
            Error::NonExecutable(x) => Error::NonExecutable(x.clone()),
            Error::NoLibexecDir => Error::NoLibexecDir,
            Error::SubCommandIoError(x) => Error::SubCommandIoError(x.clone()),
            Error::SubCommandInterrupted => Error::SubCommandInterrupted,
            Error::UnknownSubCommand(x) => Error::UnknownSubCommand(x.clone()),
            Error::InvalidUsageString(x) => Error::InvalidUsageString(copy_errors(x)),
            Error::InvalidOptionString(x) => Error::InvalidOptionString(copy_errors(x)),
            Error::InvalidUTF8 => Error::InvalidUTF8,
        }
    }
}

/// The ways in which a command path fails to resolve.
pub enum Failure {
    Unknown(Seq<char>),
    NonExecutable(Seq<char>),
}

/// Whether the error `e` is the resolution failure `f`.
pub open spec fn error_is(e: Error, f: Failure) -> bool {
    match f {
        Failure::Unknown(n) => e is UnknownSubCommand && e->UnknownSubCommand_0@ == n,
        Failure::NonExecutable(n) => e is NonExecutable && e->NonExecutable_0@ == n,
    }
}

/// What a finished sub command process gives: its exit code, or
/// `SubCommandInterrupted` where a signal ended it and there is none.
pub fn exit_status(code: Option<i32>) -> (r: Result<i32, Error>)
    ensures
        match code {
            Some(c) => r == Ok::<i32, Error>(c),
            None => r is Err && r->Err_0 is SubCommandInterrupted,
        },
{
    match code {
        Some(c) => Ok(c),
        None => Err(Error::SubCommandInterrupted),
    }
}

} // verus!
