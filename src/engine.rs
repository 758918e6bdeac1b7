//! The engine of one run: the settings and the resolution of command paths.
use vstd::prelude::*;
use crate::commands::{
    external_subcommand as walk_subcommand, kinds_of, resolve, subcommand as resolve_subcommand,
    text_for, walk, Command, Entry,
};
use crate::config::Config;
use crate::error::{error_is, Error};
use crate::text::strings_view;

verus! {

/// The settings of one run and the operations that need them.
#[derive(Debug, Clone)]
pub struct Engine {
    pub config: Config,
}

impl Engine {
    pub fn new(config: Config) -> (r: Engine)
        ensures
            r.config == config,
    {
        Engine { config }
    }

    /// The tool's name.
    pub fn name(&self) -> (r: &String)
        ensures
            r == &self.config.name,
    {
        &self.config.name
    }

    /// The tool's root directory.
    pub fn root(&self) -> (r: &String)
        ensures
            r == &self.config.root,
    {
        &self.config.root
    }

    /// The tool's cache directory.
    pub fn cache_directory(&self) -> (r: &String)
        ensures
            r == &self.config.cache_directory,
    {
        &self.config.cache_directory
    }

    /// The directory whose entries are the top-level commands.
    pub fn libexec_path(&self) -> (r: String)
        ensures
            r@ == self.config.libexec(),
    {
        self.config.libexec_path()
    }

    /// Resolves a command path; see [`crate::commands::subcommand`].
    pub fn subcommand(&self, names: Vec<String>, libexec: &Entry, entries: &Vec<Entry>) -> (r: Result<
        Command,
        Error,
    >)
        ensures
            match resolve(strings_view(names@), kinds_of(entries@)) {
                Ok(t) => r is Ok && r->Ok_0.target() == t && r->Ok_0.built_from(
                    &self.config,
                    text_for(t, *libexec, entries@),
                ),
                Err(f) => r is Err && error_is(r->Err_0, f),
            },
    {
        resolve_subcommand(&self.config, names, libexec, entries)
    }

    /// Walks the command tree along `args`, without looking at the built-in
    /// names; see [`crate::commands::external_subcommand`].
    pub fn external_subcommand(&self, args: Vec<String>, entries: &Vec<Entry>) -> (r: Result<
        Command,
        Error,
    >)
        requires
            args@.len() > 0,
        ensures
            match walk(strings_view(args@), kinds_of(entries@), 0) {
                Ok(t) => r is Ok && r->Ok_0.target() == t && r->Ok_0.built_from(
                    &self.config,
                    text_for(t, entries@[0], entries@),
                ),
                Err(f) => r is Err && error_is(r->Err_0, f),
            },
    {
        walk_subcommand(&self.config, &args, entries)
    }
}

} // verus!
