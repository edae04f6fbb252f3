use crate::common::Change;
use vstd::prelude::*;

verus! {

/// Whether a pattern string compiles as a shell glob. Names the outcome of
/// `glob::Pattern::new`, which depends on the pattern string alone.
pub uninterp spec fn is_valid_glob(pattern: Seq<char>) -> bool;

/// Whether a path matches a shell-glob pattern. Names the outcome of
/// `glob::Pattern::matches` on a compiled pattern, which depends on the
/// pattern and path strings alone.
pub uninterp spec fn glob_matches(pattern: Seq<char>, path: Seq<char>) -> bool;

/// Relies on `glob::Pattern::new`: an invalid glob pattern, and only an
/// invalid one, yields a `PatternError`.
#[verifier::external_body]
fn glob_is_valid(pattern: &str) -> (r: bool)
    ensures
        r == is_valid_glob(pattern@),
{
    glob::Pattern::new(pattern).is_ok()
}

/// Relies on `glob::Pattern::new` and `glob::Pattern::matches`: whether a
/// path matches a compiled shell glob, under the default match options.
#[verifier::external_body]
fn glob_match(pattern: &str, path: &str) -> (r: bool)
    requires
        is_valid_glob(pattern@),
    ensures
        r == glob_matches(pattern@, path@),
{
    match glob::Pattern::new(pattern) {
        Ok(p) => p.matches(path),
        Err(_) => false,
    }
}

/// Whether every configured pattern is a valid shell glob.
pub open spec fn all_valid_globs(patterns: Seq<String>) -> bool {
    forall|i: int| 0 <= i < patterns.len() ==> is_valid_glob(#[trigger] patterns[i]@)
}

/// Checks each configured pattern, and reports the first invalid one, if
/// any, by its position. A bad pattern is a configuration error surfaced
/// before any further work.
pub fn first_invalid_pattern(patterns: &Vec<String>) -> (r: Option<usize>)
    ensures
        match r {
            Option::None => all_valid_globs(patterns@),
            Option::Some(i) => i < patterns@.len() && !is_valid_glob(patterns@[i as int]@),
        },
{
    let mut i: usize = 0;
    while i < patterns.len()
        invariant
            0 <= i <= patterns.len(),
            forall|j: int| 0 <= j < i ==> is_valid_glob(#[trigger] patterns@[j]@),
        decreases patterns.len() - i,
    {
        if !glob_is_valid(patterns[i].as_str()) {
            return Option::Some(i);
        }
        i = i + 1;
    }
    Option::None
}

/// Whether the path matches at least one of the patterns: a pattern list is
/// OR-combined.
pub open spec fn matches_any(patterns: Seq<String>, path: Seq<char>) -> bool {
    exists|i: int| 0 <= i < patterns.len() && glob_matches(#[trigger] patterns[i]@, path)
}

/// Whether at least one changed path matches at least one pattern.
pub open spec fn any_change_matches(changes: Seq<Change>, patterns: Seq<String>) -> bool {
    exists|i: int| 0 <= i < changes.len() && matches_any(patterns, #[trigger] changes[i].new_path@)
}

fn path_matches_any(patterns: &Vec<String>, path: &str) -> (r: bool)
    requires
        all_valid_globs(patterns@),
    ensures
        r == matches_any(patterns@, path@),
{
    let mut i: usize = 0;
    while i < patterns.len()
        invariant
            0 <= i <= patterns.len(),
            all_valid_globs(patterns@),
            forall|j: int| 0 <= j < i ==> !glob_matches(#[trigger] patterns@[j]@, path@),
        decreases patterns.len() - i,
    {
        if glob_match(patterns[i].as_str(), path) {
            return true;
        }
        i = i + 1;
    }
    false
}

/// Whether a change request is retained by path filtering: it is kept
/// exactly when one of its changed paths matches one of the configured
/// patterns.
pub fn changes_match_patterns(changes: &Vec<Change>, patterns: &Vec<String>) -> (r: bool)
    requires
        all_valid_globs(patterns@),
    ensures
        r == any_change_matches(changes@, patterns@),
{
    let mut i: usize = 0;
    while i < changes.len()
        invariant
            0 <= i <= changes.len(),
            all_valid_globs(patterns@),
            forall|j: int|
                0 <= j < i ==> !matches_any(patterns@, #[trigger] changes@[j].new_path@),
        decreases changes.len() - i,
    {
        if path_matches_any(patterns, changes[i].new_path.as_str()) {
            return true;
        }
        i = i + 1;
    }
    false
}

} // verus!
