//! Paths as text: how the tiers and snapshots are laid out on disk.
//!
//! A path is a string whose components are parted by `/`. A path that
//! starts with `/` is absolute.

use vstd::prelude::*;
use vstd::std_specs::iter::IteratorSpec;
use vstd::string::StrSliceExecFns;
use vstd::string::StringExecFns;

verus! {

/// The character that parts the components of a path.
pub const SEPARATOR: char = '/';

/// What stands at a path on disk.
#[derive(Debug, Clone, Copy, PartialEq, Eq, Structural)]
pub enum PathState {
    /// Nothing.
    Missing,
    /// A directory.
    Directory,
    /// A regular file.
    File,
    /// Something that is neither.
    Other,
}

impl PathState {
    /// What stands at a path of which it is known whether it is a
    /// directory, whether it is a regular file, and whether it is there at
    /// all.
    pub fn of(is_directory: bool, is_file: bool, is_there: bool) -> (state: PathState)
        ensures
            state == if is_directory {
                PathState::Directory
            } else if is_file {
                PathState::File
            } else if is_there {
                PathState::Other
            } else {
                PathState::Missing
            },
    {
        if is_directory {
            PathState::Directory
        } else if is_file {
            PathState::File
        } else if is_there {
            PathState::Other
        } else {
            PathState::Missing
        }
    }
}

/// Whether `path` is absolute.
pub open spec fn is_absolute_spec(path: Seq<char>) -> bool {
    path.len() > 0 && path[0] == SEPARATOR
}

/// `child` adjoined to `base`: an absolute `child` replaces `base`; any
/// other is appended, after a separator where `base` does not end in one.
pub open spec fn join_spec(base: Seq<char>, child: Seq<char>) -> Seq<char> {
    if is_absolute_spec(child) {
        child
    } else if base.len() == 0 || base.last() == SEPARATOR {
        base + child
    } else {
        base + seq![SEPARATOR] + child
    }
}

/// Whether `name` is one component of a path: it is not empty and holds
/// no separator.
pub open spec fn is_component_spec(name: Seq<char>) -> bool {
    name.len() > 0 && forall|i: int| 0 <= i < name.len() ==> name[i] != SEPARATOR
}

/// `s` without the separators it starts with.
pub open spec fn trim_leading_separators(s: Seq<char>) -> Seq<char>
    decreases s.len(),
{
    if s.len() > 0 && s[0] == SEPARATOR {
        trim_leading_separators(s.skip(1))
    } else {
        s
    }
}

/// `path` as seen from `root`: what follows `root` in it, without leading
/// separators. `None` where `path` does not lie at or under `root`, that is
/// where it does not start with `root` or goes on in the middle of a
/// component.
pub open spec fn relative_to_spec(path: Seq<char>, root: Seq<char>) -> Option<Seq<char>> {
    let rest = path.skip(root.len() as int);
    if root.is_prefix_of(path) && (rest.len() == 0 || root.len() == 0 || root.last() == SEPARATOR
        || rest[0] == SEPARATOR) {
        Some(trim_leading_separators(rest))
    } else {
        None
    }
}

/// What is left after trimming starts with no separator.
proof fn lemma_trimmed_is_relative(s: Seq<char>)
    ensures
        !is_absolute_spec(trim_leading_separators(s)),
    decreases s.len(),
{
    if s.len() > 0 && s[0] == SEPARATOR {
        lemma_trimmed_is_relative(s.skip(1));
    }
}

/// A path as seen from a root is never absolute: it can be adjoined to
/// another root and stays under it.
pub proof fn lemma_relative_is_not_absolute(path: Seq<char>, root: Seq<char>)
    ensures
        relative_to_spec(path, root) matches Some(inner) ==> !is_absolute_spec(inner),
{
    lemma_trimmed_is_relative(path.skip(root.len() as int));
}

/// Adjoining a relative path to a root and then looking at the result from
/// that root gives the relative path back.
pub proof fn lemma_relative_of_join(root: Seq<char>, inner: Seq<char>)
    requires
        !is_absolute_spec(inner),
    ensures
        relative_to_spec(join_spec(root, inner), root) == Some(inner),
{
    let joined = join_spec(root, inner);
    let rest = joined.skip(root.len() as int);
    assert(trim_leading_separators(inner) == inner);
    if root.len() == 0 || root.last() == SEPARATOR {
        assert(rest == inner);
        assert(joined.subrange(0, root.len() as int) == root);
    } else {
        assert(rest == seq![SEPARATOR] + inner);
        assert(joined.subrange(0, root.len() as int) == root);
        assert(rest.skip(1) == inner);
        assert(trim_leading_separators(rest) == trim_leading_separators(rest.skip(1)));
    }
}

/// What is adjoined to a directory as one component lies in that
/// directory, under that name.
pub proof fn lemma_component_lies_in_directory(directory: Seq<char>, name: Seq<char>)
    requires
        is_component_spec(name),
    ensures
        relative_to_spec(join_spec(directory, name), directory) == Some(name),
{
    lemma_relative_of_join(directory, name);
}

/// Whether `path` is absolute.
pub fn is_absolute(path: &str) -> (absolute: bool)
    ensures
        absolute == is_absolute_spec(path@),
{
    let mut chars = path.chars();
    match chars.next() {
        Some(first) => first == SEPARATOR,
        None => false,
    }
}

/// Whether `name` is one component of a path.
pub fn is_component(name: &str) -> (component: bool)
    ensures
        component == is_component_spec(name@),
{
    let mut chars = name.chars();
    let ghost mut done: int = 0;
    loop
        invariant
            0 <= done <= name@.len(),
            chars.remaining() == name@.skip(done),
            forall|i: int| 0 <= i < done ==> name@[i] != SEPARATOR,
        decreases name@.len() - done,
    {
        match chars.next() {
            None => {
                return !name.is_empty();
            },
            Some(c) => {
                if c == SEPARATOR {
                    assert(name@[done] == SEPARATOR);
                    return false;
                }
                proof {
                    assert(name@.skip(done).drop_first() == name@.skip(done + 1));
                    done = done + 1;
                }
            },
        }
    }
}

/// Whether `path` ends in a separator.
pub fn ends_with_separator(path: &str) -> (ends: bool)
    ensures
        ends == (path@.len() > 0 && path@.last() == SEPARATOR),
{
    let mut chars = path.chars();
    let mut ends = false;
    let ghost mut done: int = 0;
    loop
        invariant
            0 <= done <= path@.len(),
            chars.remaining() == path@.skip(done),
            ends == (done > 0 && path@[done - 1] == SEPARATOR),
        decreases path@.len() - done,
    {
        match chars.next() {
            None => {
                return ends;
            },
            Some(c) => {
                ends = c == SEPARATOR;
                proof {
                    assert(path@.skip(done).drop_first() == path@.skip(done + 1));
                    done = done + 1;
                }
            },
        }
    }
}

/// `child` adjoined to `base`.
pub fn join(base: &str, child: &str) -> (joined: String)
    ensures
        joined@ == join_spec(base@, child@),
{
    if is_absolute(child) {
        return child.to_owned();
    }
    let mut joined = base.to_owned();
    if base.unicode_len() > 0 && !ends_with_separator(base) {
        proof {
            reveal_strlit("/");
            assert("/"@ == seq![SEPARATOR]);
        }
        joined.append("/");
    }
    joined.append(child);
    joined
}

/// `path` as seen from `root`.
pub fn relative_to(path: &str, root: &str) -> (relative: Option<String>)
    ensures
        match relative {
            Some(inner) => relative_to_spec(path@, root@) == Some(inner@),
            None => relative_to_spec(path@, root@) is None,
        },
{
    let total = path.unicode_len();
    let mut rest = path.chars();
    let mut wanted = root.chars();
    let mut done: usize = 0;
    let mut root_ends_in_separator = false;
    loop
        invariant
            total == path@.len(),
            0 <= done <= root@.len(),
            done <= path@.len(),
            rest.remaining() == path@.skip(done as int),
            wanted.remaining() == root@.skip(done as int),
            path@.take(done as int) == root@.take(done as int),
            root_ends_in_separator == (done > 0 && root@[done - 1] == SEPARATOR),
        ensures
            done == root@.len(),
            root@.is_prefix_of(path@),
        decreases root@.len() - done,
    {
        match wanted.next() {
            None => {
                assert(root@.take(done as int) == root@);
                break ;
            },
            Some(c) => {
                match rest.next() {
                    None => {
                        return None;
                    },
                    Some(d) => {
                        if c != d {
                            assert(root@[done as int] != path@[done as int]);
                            return None;
                        }
                        proof {
                            assert(path@.take(done + 1) == path@.take(done as int).push(
                                path@[done as int],
                            ));
                            assert(root@.take(done + 1) == root@.take(done as int).push(
                                root@[done as int],
                            ));
                            assert(path@.skip(done as int).drop_first() == path@.skip(done + 1));
                            assert(root@.skip(done as int).drop_first() == root@.skip(done + 1));
                        }
                        root_ends_in_separator = c == SEPARATOR;
                        done = done + 1;
                    },
                }
            },
        }
    }
    let boundary = done == 0 || root_ends_in_separator;
    let mut start: usize = done;
    loop
        invariant_except_break
            rest.remaining() == path@.skip(start as int),
        invariant
            total == path@.len(),
            done == root@.len(),
            done <= start <= total,
            trim_leading_separators(path@.skip(done as int)) == trim_leading_separators(
                path@.skip(start as int),
            ),
            start > done ==> path@[done as int] == SEPARATOR,
        ensures
            start == total || path@[start as int] != SEPARATOR,
        decreases total - start,
    {
        match rest.next() {
            None => {
                break ;
            },
            Some(c) => {
                if c != SEPARATOR {
                    break ;
                }
                proof {
                    assert(path@.skip(start as int).drop_first() == path@.skip(start + 1));
                    assert(path@.skip(start as int).skip(1) == path@.skip(start + 1));
                }
                start = start + 1;
            },
        }
    }
    assert(path@.skip(start as int) == path@.subrange(start as int, total as int));
    if done == total || boundary || start > done {
        Some(path.substring_char(start, total).to_owned())
    } else {
        None
    }
}

} // verus!
