//! Paths as text: joining, the home shorthand, and moving a path from one
//! root to another.

use vstd::prelude::*;
use crate::text::{append, char_after_prefix, first_char, last_char, same_text, strip_prefix};

verus! {

/// Whether a path starts at the root of the file system.
pub open spec fn is_absolute(p: Seq<char>) -> bool {
    p.len() > 0 && p[0] == '/'
}

/// `rel` below `base`: an absolute `rel` stands for itself; otherwise it
/// follows `base`, with one separator between them unless `base` is empty
/// or already ends in one.
pub open spec fn join_spec(base: Seq<char>, rel: Seq<char>) -> Seq<char> {
    if is_absolute(rel) {
        rel
    } else if base.len() == 0 || base.last() == '/' {
        base + rel
    } else {
        base + seq!['/'] + rel
    }
}

/// The name that stands for a directory itself.
pub open spec fn self_name() -> Seq<char> {
    seq!['.']
}

/// The place that `rel` names below `root`, where `.` names `root` itself.
pub open spec fn sub_path_spec(root: Seq<char>, rel: Seq<char>) -> Seq<char> {
    if rel == self_name() {
        root
    } else {
        join_spec(root, rel)
    }
}

/// A path with a leading `~` replaced by the home directory, where one is
/// known.
pub open spec fn expand_tilde_spec(path: Seq<char>, home: Option<Seq<char>>) -> Seq<char> {
    match home {
        Some(h) => if path.len() > 0 && path[0] == '~' {
            h + path.skip(1)
        } else {
            path
        },
        None => path,
    }
}

/// Whether `path` is `root` or lies below it: `path` begins with `root`,
/// and ends there, or goes on behind a separator. So `/repo/x` lies
/// within `/repo`, and `/repo-wt/x` does not.
pub open spec fn is_within(root: Seq<char>, path: Seq<char>) -> bool {
    root.is_prefix_of(path) && (path.len() == root.len() || (root.len() > 0 && root.last() == '/')
        || path[root.len() as int] == '/')
}

/// `path` with its leading `from` replaced by `to`; a path that does not
/// lie within `from` stays as it is.
pub open spec fn transform_spec(path: Seq<char>, from: Seq<char>, to: Seq<char>) -> Seq<char> {
    if is_within(from, path) {
        to + path.skip(from.len() as int)
    } else {
        path
    }
}

/// Joins `rel` to `base`.
pub fn join_path(base: &str, rel: &str) -> (r: String)
    ensures
        r@ == join_spec(base@, rel@),
{
    if first_char(rel) == Some('/') {
        return rel.to_owned();
    }
    match last_char(base) {
        None => rel.to_owned(),
        Some(c) => {
            if c == '/' {
                append(base, rel)
            } else {
                proof {
                    reveal_strlit("/");
                    assert("/"@ =~= seq!['/']);
                }
                let mut r = append(base, "/");
                r.append(rel);
                r
            }
        },
    }
}

/// Whether `rel` is the name that stands for the directory itself.
pub fn is_self_name(rel: &str) -> (r: bool)
    ensures
        r == (rel@ == self_name()),
{
    proof {
        reveal_strlit(".");
        assert("."@ =~= seq!['.']);
    }
    same_text(rel, ".")
}

/// The place that `rel` names below `root`.
pub fn sub_path(root: &str, rel: &str) -> (r: String)
    ensures
        r@ == sub_path_spec(root@, rel@),
{
    if is_self_name(rel) {
        root.to_owned()
    } else {
        join_path(root, rel)
    }
}

/// Replaces a leading `~` by `home`, if there is one to replace it with.
pub fn expand_tilde_with(path: &str, home: Option<&str>) -> (r: String)
    ensures
        r@ == expand_tilde_spec(path@, home.deep_view()),
{
    match home {
        Some(h) => {
            proof {
                reveal_strlit("~");
                assert("~"@ =~= seq!['~']);
            }
            match strip_prefix(path, "~") {
                Some(rest) => {
                    assert(path@.subrange(0, 1)[0] == path@[0]);
                    append(h, rest.as_str())
                },
                None => {
                    assert(path@.len() > 0 && path@[0] == '~' ==> path@.subrange(0, 1) =~= seq![
                        '~',
                    ]);
                    path.to_owned()
                },
            }
        },
        None => path.to_owned(),
    }
}

/// Whether `path` is `root` or lies below it.
pub fn lies_within(root: &str, path: &str) -> (r: bool)
    ensures
        r == is_within(root@, path@),
{
    match char_after_prefix(path, root) {
        None => false,
        Some(None) => true,
        Some(Some(c)) => c == '/' || last_char(root) == Some('/'),
    }
}

/// Moves `path` from below `from` to below `to`. A path that does not lie
/// within `from` stays as it is, and so does every path where the two
/// roots are the same.
pub fn transform_path(path: &str, from: &str, to: &str) -> (r: String)
    ensures
        r@ == transform_spec(path@, from@, to@),
        from@ == to@ ==> r@ == path@,
{
    proof {
        lemma_transform_same_root(path@, from@);
    }
    if !lies_within(from, path) {
        return path.to_owned();
    }
    match strip_prefix(path, from) {
        Some(rest) => append(to, rest.as_str()),
        None => path.to_owned(),
    }
}

/// Rewriting a path from a root to that same root leaves it as it is.
pub proof fn lemma_transform_same_root(path: Seq<char>, root: Seq<char>)
    ensures
        transform_spec(path, root, root) == path,
{
    if is_within(root, path) {
        assert(root + path.skip(root.len() as int) =~= path);
    }
}

} // verus!
