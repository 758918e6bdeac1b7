//! Completion hints and the index that maps argument names to them.
use vstd::prelude::*;

verus! {

/// How candidate values for an argument are produced: by the script itself,
/// or by a shell command given literally.
#[derive(Debug, Clone, PartialEq, Eq)]
pub enum CompletionType {
    Script,
    LiteralCommand(String),
}

/// The mathematical form of a [`CompletionType`].
pub enum CompletionView {
    Script,
    LiteralCommand(Seq<char>),
}

impl CompletionType {
    /// A copy of this hint.
    pub fn duplicate(&self) -> (r: Self)
        ensures
            r@ == self@,
    {
        match self {
            CompletionType::Script => CompletionType::Script,
            CompletionType::LiteralCommand(c) => CompletionType::LiteralCommand(c.clone()),
        }
    }
}

impl View for CompletionType {
    type V = CompletionView;

    open spec fn view(&self) -> CompletionView {
        match self {
            CompletionType::Script => CompletionView::Script,
            CompletionType::LiteralCommand(c) => CompletionView::LiteralCommand(c@),
        }
    }
}

/// The hint that the last entry named `name` carries, if any: a later entry
/// replaces an earlier one of the same name.
pub open spec fn lookup_hint(entries: Seq<(String, CompletionType)>, name: Seq<char>) -> Option<
    CompletionView,
>
    decreases entries.len(),
{
    if entries.len() == 0 {
        None
    } else if entries.last().0@ == name {
        Some(entries.last().1@)
    } else {
        lookup_hint(entries.drop_last(), name)
    }
}

/// The completion index of one command.
#[derive(Debug, Clone)]
pub struct CompletionInfo {
    pub provides_completions: bool,
    pub completion_types: Vec<(String, CompletionType)>,
}

impl CompletionInfo {
    /// An index without hints.
    pub fn new() -> (r: Self)
        ensures
            !r.provides_completions,
            r.completion_types@.len() == 0,
    {
        CompletionInfo { provides_completions: false, completion_types: Vec::new() }
    }

    /// An index over the given (name, hint) entries.
    pub fn with_completions(completion_types: Vec<(String, CompletionType)>) -> (r: Self)
        ensures
            r.provides_completions == (completion_types@.len() > 0),
            r.completion_types@ == completion_types@,
    {
        let provides_completions = completion_types.len() > 0;
        CompletionInfo { provides_completions, completion_types }
    }

    /// The hint recorded for the argument `name`.
    pub fn get_completion_type(&self, name: &str) -> (r: Option<CompletionType>)
        ensures
            match lookup_hint(self.completion_types@, name@) {
                Some(h) => r is Some && r->0@ == h,
                None => r is None,
            },
    {
        let n = self.completion_types.len();
        let mut i = n;
        assert(self.completion_types@.subrange(0, n as int) =~= self.completion_types@);
        while i > 0
            invariant
                i <= n == self.completion_types@.len(),
                lookup_hint(self.completion_types@, name@) == lookup_hint(
                    self.completion_types@.subrange(0, i as int),
                    name@,
                ),
            decreases i,
        {
            let ghost prefix = self.completion_types@.subrange(0, i as int);
            assert(prefix.drop_last() =~= self.completion_types@.subrange(0, i - 1));
            if crate::text::str_eq(self.completion_types[i - 1].0.as_str(), name) {
                return Some(self.completion_types[i - 1].1.duplicate());
            }
            i = i - 1;
        }
        None
    }
}

} // verus!
