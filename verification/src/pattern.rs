//! Glob patterns, compiled and matched by the `glob` crate.

use vstd::prelude::*;

verus! {

/// Whether `glob::Pattern::new` accepts `pattern`.
pub uninterp spec fn glob_pattern_compiles(pattern: Seq<char>) -> bool;

/// Whether the pattern that `glob::Pattern::new` builds from `pattern`
/// matches `path` under `glob::Pattern::matches_path`.
pub uninterp spec fn glob_pattern_matches(pattern: Seq<char>, path: Seq<char>) -> bool;

/// Calls `glob::Pattern::new` and reports whether it returned a pattern.
/// Trusted: the result is the crate's verdict on the text, and the same
/// text always gets the same verdict.
#[verifier::external_body]
fn pattern_compiles(text: &str) -> (ok: bool)
    ensures
        ok == glob_pattern_compiles(text@),
{
    glob::Pattern::new(text).is_ok()
}

/// Compiles `text` with `glob::Pattern::new` and matches `path` against it
/// with `glob::Pattern::matches_path`. Trusted: `None` exactly where the
/// text does not compile, and otherwise the crate's answer, which depends
/// on the two texts alone.
#[verifier::external_body]
fn pattern_matches(text: &str, path: &str) -> (found: Option<bool>)
    ensures
        found == if glob_pattern_compiles(text@) {
            Some(glob_pattern_matches(text@, path@))
        } else {
            None
        },
{
    match glob::Pattern::new(text) {
        Ok(pattern) => Some(pattern.matches_path(std::path::Path::new(path))),
        Err(_) => None,
    }
}

/// A glob pattern that is known to compile.
#[derive(Debug)]
pub struct GlobPattern {
    text: String,
}

impl View for GlobPattern {
    type V = Seq<char>;

    closed spec fn view(&self) -> Seq<char> {
        self.text@
    }
}

impl GlobPattern {
    #[verifier::type_invariant]
    spec fn compiles(self) -> bool {
        glob_pattern_compiles(self.text@)
    }

    /// Accepts `text` where it compiles as a glob pattern.
    pub fn new(text: &str) -> (pattern: Option<GlobPattern>)
        ensures
            pattern is Some <==> glob_pattern_compiles(text@),
            pattern matches Some(p) ==> p@ == text@,
    {
        if pattern_compiles(text) {
            Some(GlobPattern { text: text.to_owned() })
        } else {
            None
        }
    }

    /// The text the pattern was made from.
    pub fn as_str(&self) -> (text: &str)
        ensures
            text@ == self@,
    {
        self.text.as_str()
    }

    /// Whether the pattern matches `path`.
    pub fn matches(&self, path: &str) -> (found: bool)
        ensures
            found == glob_pattern_matches(self@, path@),
    {
        proof {
            use_type_invariant(self);
        }
        match pattern_matches(self.text.as_str(), path) {
            Some(found) => found,
            None => false,
        }
    }
}

/// Every pattern view in `patterns`, in order.
pub open spec fn pattern_views(patterns: Seq<GlobPattern>) -> Seq<Seq<char>> {
    patterns.map_values(|p: GlobPattern| p@)
}

/// Whether some pattern of `patterns` matches `path`.
pub open spec fn any_pattern_matches(patterns: Seq<Seq<char>>, path: Seq<char>) -> bool {
    exists|i: int| 0 <= i < patterns.len() && #[trigger] glob_pattern_matches(patterns[i], path)
}

/// Whether the include list lets `path` through: an empty list lets
/// everything through, any other list only what one of its patterns matches.
pub open spec fn includes_path(patterns: Seq<Seq<char>>, path: Seq<char>) -> bool {
    patterns.len() == 0 || any_pattern_matches(patterns, path)
}

/// Whether the exclude list lets `path` through: no pattern of it matches.
pub open spec fn excludes_keep_path(patterns: Seq<Seq<char>>, path: Seq<char>) -> bool {
    !any_pattern_matches(patterns, path)
}

/// Whether an entry at `path` belongs in a snapshot: the include list lets
/// it through and no exclude pattern matches it.
pub open spec fn survives_filters(
    includes: Seq<Seq<char>>,
    excludes: Seq<Seq<char>>,
    path: Seq<char>,
) -> bool {
    includes_path(includes, path) && excludes_keep_path(excludes, path)
}

/// Where both lists are empty, every path is let through.
pub proof fn lemma_empty_filters_let_everything_through(path: Seq<char>)
    ensures
        survives_filters(Seq::<Seq<char>>::empty(), Seq::<Seq<char>>::empty(), path),
{
}

/// Exclusion takes precedence: a path that an exclude pattern matches is
/// not let through, whatever the include patterns say of it.
pub proof fn lemma_exclude_takes_precedence(
    includes: Seq<Seq<char>>,
    excludes: Seq<Seq<char>>,
    path: Seq<char>,
    index: int,
)
    requires
        0 <= index < excludes.len(),
        glob_pattern_matches(excludes[index], path),
    ensures
        !survives_filters(includes, excludes, path),
{
}

/// Whether some pattern of `patterns` matches `path`.
pub fn matches_any(path: &str, patterns: &Vec<GlobPattern>) -> (found: bool)
    ensures
        found == any_pattern_matches(pattern_views(patterns@), path@),
{
    let mut i: usize = 0;
    while i < patterns.len()
        invariant
            i <= patterns.len(),
            forall|j: int|
                0 <= j < i ==> !#[trigger] glob_pattern_matches(
                    pattern_views(patterns@)[j],
                    path@,
                ),
        decreases patterns.len() - i,
    {
        if patterns[i].matches(path) {
            assert(pattern_views(patterns@)[i as int] == patterns[i as int]@);
            return true;
        }
        assert(pattern_views(patterns@)[i as int] == patterns[i as int]@);
        i += 1;
    }
    false
}

/// Whether the include patterns let `path` through.
pub fn glob_includes(path: &str, patterns: &Vec<GlobPattern>) -> (kept: bool)
    ensures
        kept == includes_path(pattern_views(patterns@), path@),
{
    patterns.len() == 0 || matches_any(path, patterns)
}

/// Whether the exclude patterns let `path` through.
pub fn glob_excludes(path: &str, patterns: &Vec<GlobPattern>) -> (kept: bool)
    ensures
        kept == excludes_keep_path(pattern_views(patterns@), path@),
{
    !matches_any(path, patterns)
}

} // verus!
