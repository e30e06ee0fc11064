//! The process-wide selector for how `KEYS <pattern>` is answered.

use vstd::prelude::*;

verus! {

/// How a `KEYS` query is evaluated: shell-style glob matching, regular
/// expression matching, or next-character continuations from the prefix trie.
#[derive(Clone, Copy, Debug, PartialEq, Eq, Structural)]
pub enum SmirkSearchMode {
    Glob,
    Regex,
    Trie,
}

impl SmirkSearchMode {
    /// Returns a mode equal to the one given.
    pub fn from_ref(mode: SmirkSearchMode) -> (r: SmirkSearchMode)
        ensures
            r == mode,
    {
        match mode {
            SmirkSearchMode::Glob => SmirkSearchMode::Glob,
            SmirkSearchMode::Regex => SmirkSearchMode::Regex,
            SmirkSearchMode::Trie => SmirkSearchMode::Trie,
        }
    }
}

} // verus!
