//! The worktrees of a project, read from what `git worktree list
//! --porcelain` prints.

use vstd::prelude::*;
use crate::text::strip_prefix;

verus! {

/// The word that begins the line of a worktree's path.
pub open spec fn worktree_tag() -> Seq<char> {
    seq!['w', 'o', 'r', 'k', 't', 'r', 'e', 'e', ' ']
}

/// The paths found so far, with one more where `line` names a worktree.
pub open spec fn with_line(found: Seq<Seq<char>>, line: Seq<char>) -> Seq<Seq<char>> {
    if worktree_tag().is_prefix_of(line) {
        found.push(line.skip(worktree_tag().len() as int))
    } else {
        found
    }
}

/// The paths of the finished lines of a text, and the line that is not
/// finished yet.
pub open spec fn scan_text(text: Seq<char>) -> (Seq<Seq<char>>, Seq<char>)
    decreases text.len(),
{
    if text.len() == 0 {
        (Seq::empty(), Seq::empty())
    } else {
        let (found, line) = scan_text(text.drop_last());
        if text.last() == '\n' {
            (with_line(found, line), Seq::empty())
        } else {
            (found, line.push(text.last()))
        }
    }
}

/// The worktrees that a text names: for each line that begins with
/// `worktree `, in order, what follows on that line.
pub open spec fn worktrees_of(text: Seq<char>) -> Seq<Seq<char>> {
    let (found, line) = scan_text(text);
    with_line(found, line)
}

fn add_line(found: &mut Vec<String>, line: &str)
    ensures
        final(found).deep_view() == with_line(old(found).deep_view(), line@),
{
    proof {
        reveal_strlit("worktree ");
        assert("worktree "@ =~= worktree_tag());
    }
    let ghost before = found.deep_view();
    match strip_prefix(line, "worktree ") {
        Some(path) => {
            let ghost held = found@;
            found.push(path);
            assert(found.deep_view() =~= before.push(path@)) by {
                assert forall|j: int| 0 <= j < held.len() implies found.deep_view()[j]
                    == before[j] by {
                    assert(found@[j] == held[j]);
                }
            }
        },
        None => {},
    }
}

/// The worktrees that the output of `git worktree list --porcelain`
/// names.
pub fn worktrees_from_porcelain(text: &str) -> (found: Vec<String>)
    ensures
        found.deep_view() == worktrees_of(text@),
{
    let mut found: Vec<String> = Vec::new();
    let mut line = String::new();
    assert(found.deep_view() =~= Seq::<Seq<char>>::empty());
    for c in it: text.chars()
        invariant
            it.seq() == text@,
            (found.deep_view(), line@) == scan_text(text@.take(it.index())),
    {
        proof {
            let upto = text@.take(it.index() + 1);
            assert(upto.drop_last() =~= text@.take(it.index()));
            assert(upto.last() == c);
        }
        if c == '\n' {
            add_line(&mut found, line.as_str());
            line = String::new();
        } else {
            line.push(c);
        }
    }
    assert(text@.take(text@.len() as int) =~= text@);
    add_line(&mut found, line.as_str());
    found
}

} // verus!
