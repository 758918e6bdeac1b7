//! The settings of one run of the tool.
use vstd::prelude::*;
use crate::text::{append_str, push_char};

verus! {

/// When help texts are coloured.
#[derive(Debug, Clone, Copy, PartialEq, Eq, Structural, PartialOrd, Ord)]
pub enum Color {
    /// Only where the output is a terminal.
    Auto,
    /// Always.
    Always,
    /// Never.
    Never,
}

/// The settings of one run: the tool's name, its root directory (where
/// `libexec` lives), its cache directory, and how help is rendered.
#[derive(Debug, Clone)]
pub struct Config {
    pub name: String,
    pub color: Color,
    pub root: String,
    pub infer_long_arguments: bool,
    pub cache_directory: String,
}

/// `seg` appended to the path `base` as one more component.
pub open spec fn join_path(base: Seq<char>, seg: Seq<char>) -> Seq<char> {
    if base.len() == 0 || base.last() == '/' {
        base + seg
    } else {
        base + seq!['/'] + seg
    }
}

/// The path of `names` below `base`.
pub open spec fn path_of(base: Seq<char>, names: Seq<Seq<char>>) -> Seq<char>
    decreases names.len(),
{
    if names.len() == 0 {
        base
    } else {
        join_path(path_of(base, names.drop_last()), names.last())
    }
}

pub open spec fn libexec_word() -> Seq<char> {
    seq!['l', 'i', 'b', 'e', 'x', 'e', 'c']
}

/// The upper-case form of a string.
pub uninterp spec fn upper_of(s: Seq<char>) -> Seq<char>;

/// Relies on `str::to_uppercase`: the upper-case equivalent of the string,
/// which depends on its characters alone.
#[verifier::external_body]
fn to_upper(s: &str) -> (r: String)
    ensures
        r@ == upper_of(s@),
{
    s.to_uppercase()
}

/// The name of an environment variable of the tool: `_{NAME}_{suffix}`.
pub open spec fn env_var(name: Seq<char>, suffix: Seq<char>) -> Seq<char> {
    seq!['_'] + upper_of(name) + seq!['_'] + suffix
}

/// `seg` appended to the path `base` as one more component.
pub fn join_path_exec(base: &str, seg: &str) -> (r: String)
    ensures
        r@ == join_path(base@, seg@),
{
    let mut r = String::from_str(base);
    let n = base.unicode_len();
    if n > 0 && base.get_char(n - 1) != '/' {
        push_char(&mut r, '/');
    }
    append_str(&mut r, seg);
    r
}

impl Config {
    pub fn new(
        name: String,
        root: String,
        color: Color,
        infer_long_arguments: bool,
        cache_directory: String,
    ) -> (r: Config)
        ensures
            r.name == name,
            r.root == root,
            r.color == color,
            r.infer_long_arguments == infer_long_arguments,
            r.cache_directory == cache_directory,
    {
        Config { name, color, root, infer_long_arguments, cache_directory }
    }

    /// The directory whose entries are the top-level commands.
    pub open spec fn libexec(&self) -> Seq<char> {
        join_path(self.root@, libexec_word())
    }

    /// The directory whose entries are the top-level commands: `libexec`
    /// below the root.
    pub fn libexec_path(&self) -> (r: String)
        ensures
            r@ == self.libexec(),
    {
        let word = "libexec";
        proof {
            reveal_strlit("libexec");
            assert(word@ =~= libexec_word());
        }
        join_path_exec(self.root.as_str(), word)
    }

    /// The environment variable `_{NAME}_{suffix}` of this tool.
    pub fn env_name(&self, suffix: &str) -> (r: String)
        ensures
            r@ == env_var(self.name@, suffix@),
    {
        let mut r = String::new();
        push_char(&mut r, '_');
        let up = to_upper(self.name.as_str());
        append_str(&mut r, up.as_str());
        push_char(&mut r, '_');
        append_str(&mut r, suffix);
        assert(r@ =~= env_var(self.name@, suffix@));
        r
    }
}

} // verus!
