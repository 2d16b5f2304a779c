//! The path scanner: from the entries of one directory to the candidate
//! keys and the directories they stand for.

use vstd::prelude::*;
use crate::paths::{join_path, join_spec};
use crate::table::{sorted_keys, strictly_sorted, PathTable};
use crate::text::{same_text, strip_prefix};

verus! {

/// One entry of a directory: its name, and whether it is a directory.
#[derive(Debug)]
pub struct DirEntry {
    pub name: String,
    pub is_dir: bool,
}

/// A `DirEntry` with its name as a text.
pub struct DirEntryView {
    pub name: Seq<char>,
    pub is_dir: bool,
}

impl View for DirEntry {
    type V = DirEntryView;

    open spec fn view(&self) -> DirEntryView {
        DirEntryView { name: self.name@, is_dir: self.is_dir }
    }
}

impl DeepView for DirEntry {
    type V = DirEntryView;

    open spec fn deep_view(&self) -> DirEntryView {
        self@
    }
}

impl Clone for DirEntry {
    fn clone(&self) -> (r: DirEntry)
        ensures
            r@ == self@,
    {
        DirEntry { name: self.name.clone(), is_dir: self.is_dir }
    }
}

/// Whether the listing has a directory named `k`.
pub open spec fn is_dir_name(listing: Seq<DirEntryView>, k: Seq<char>) -> bool {
    exists|i: int| 0 <= i < listing.len() && (#[trigger] listing[i]).is_dir && listing[i].name == k
}

/// Whether the listing has an entry of any kind named `k`.
pub open spec fn is_entry_name(listing: Seq<DirEntryView>, k: Seq<char>) -> bool {
    exists|i: int| 0 <= i < listing.len() && (#[trigger] listing[i]).name == k
}

/// Whether `k` names something that exists in the scanned directory: an
/// entry of the listing, or the directory itself or its parent, which the
/// empty name, `.` and `..` stand for.
pub open spec fn name_taken(listing: Seq<DirEntryView>, k: Seq<char>) -> bool {
    k.len() == 0 || k == seq!['.'] || k == seq!['.', '.'] || is_entry_name(listing, k)
}

/// Whether `k` is what is left of a directory's name when the prefix is
/// taken off, and names nothing that exists.
pub open spec fn is_stripped_alias(
    listing: Seq<DirEntryView>,
    dir_prefix: Option<Seq<char>>,
    k: Seq<char>,
) -> bool {
    dir_prefix matches Some(p) && is_dir_name(listing, p + k) && !name_taken(listing, k)
}

/// Whether `k` is a candidate: the name of a directory, or a stripped alias.
pub open spec fn is_candidate(
    listing: Seq<DirEntryView>,
    dir_prefix: Option<Seq<char>>,
    k: Seq<char>,
) -> bool {
    is_dir_name(listing, k) || is_stripped_alias(listing, dir_prefix, k)
}

/// The name of the directory that the candidate `k` stands for.
pub open spec fn directory_of(
    listing: Seq<DirEntryView>,
    dir_prefix: Option<Seq<char>>,
    k: Seq<char>,
) -> Seq<char> {
    if is_dir_name(listing, k) {
        k
    } else {
        dir_prefix.unwrap() + k
    }
}

/// The result of a scan of `target`: every candidate, with the path of the
/// directory it stands for.
pub open spec fn scan_paths(
    target: Seq<char>,
    listing: Seq<DirEntryView>,
    dir_prefix: Option<Seq<char>>,
) -> Map<Seq<char>, Seq<char>> {
    Map::new(
        |k: Seq<char>| is_candidate(listing, dir_prefix, k),
        |k: Seq<char>| join_spec(target, directory_of(listing, dir_prefix, k)),
    )
}

/// The candidates that come from the first `n` entries of the listing.
spec fn scan_paths_upto(
    target: Seq<char>,
    listing: Seq<DirEntryView>,
    n: int,
    dir_prefix: Option<Seq<char>>,
) -> Map<Seq<char>, Seq<char>> {
    Map::new(
        |k: Seq<char>|
            is_dir_name(listing.take(n), k) || (dir_prefix matches Some(p) && is_dir_name(
                listing.take(n),
                p + k,
            ) && !name_taken(listing, k)),
        |k: Seq<char>| join_spec(target, directory_of(listing, dir_prefix, k)),
    )
}

/// What one more entry of the listing adds to the directory names.
proof fn lemma_dir_name_step(listing: Seq<DirEntryView>, n: int, k: Seq<char>)
    requires
        0 <= n < listing.len(),
    ensures
        is_dir_name(listing.take(n + 1), k) <==> (is_dir_name(listing.take(n), k) || (
        listing[n].is_dir && listing[n].name == k)),
{
    let before = listing.take(n);
    let after = listing.take(n + 1);
    if is_dir_name(after, k) {
        let i = choose|i: int| 0 <= i < after.len() && (#[trigger] after[i]).is_dir && after[i].name == k;
        if i < n {
            assert(before[i] == after[i]);
        }
    }
    if is_dir_name(before, k) {
        let i = choose|i: int|
            0 <= i < before.len() && (#[trigger] before[i]).is_dir && before[i].name == k;
        assert(after[i] == before[i]);
    }
    if listing[n].is_dir && listing[n].name == k {
        assert(after[n] == listing[n]);
    }
}

/// An entry that is no directory adds no candidate.
proof fn lemma_scan_step_other(
    target: Seq<char>,
    listing: Seq<DirEntryView>,
    n: int,
    dir_prefix: Option<Seq<char>>,
)
    requires
        0 <= n < listing.len(),
        !listing[n].is_dir,
    ensures
        scan_paths_upto(target, listing, n + 1, dir_prefix) == scan_paths_upto(
            target,
            listing,
            n,
            dir_prefix,
        ),
{
    let a = scan_paths_upto(target, listing, n + 1, dir_prefix);
    let b = scan_paths_upto(target, listing, n, dir_prefix);
    assert forall|k: Seq<char>| a.dom().contains(k) <==> b.dom().contains(k) by {
        lemma_dir_name_step(listing, n, k);
        if dir_prefix is Some {
            lemma_dir_name_step(listing, n, dir_prefix.unwrap() + k);
        }
    }
    assert(a =~= b);
}

/// A directory adds its name as a candidate, and with it what is left of
/// the name without the prefix, where that names nothing that exists.
proof fn lemma_scan_step_dir(
    target: Seq<char>,
    listing: Seq<DirEntryView>,
    n: int,
    dir_prefix: Option<Seq<char>>,
)
    requires
        0 <= n < listing.len(),
        listing[n].is_dir,
    ensures
        ({
            let name = listing[n].name;
            let path = join_spec(target, name);
            let with_name = scan_paths_upto(target, listing, n, dir_prefix).insert(name, path);
            let rest = name.skip(dir_prefix.unwrap().len() as int);
            scan_paths_upto(target, listing, n + 1, dir_prefix) == if dir_prefix is Some
                && dir_prefix.unwrap().is_prefix_of(name) && !name_taken(listing, rest) {
                with_name.insert(rest, path)
            } else {
                with_name
            }
        }),
{
    let name = listing[n].name;
    let path = join_spec(target, name);
    let before = scan_paths_upto(target, listing, n, dir_prefix);
    let after = scan_paths_upto(target, listing, n + 1, dir_prefix);
    let with_name = before.insert(name, path);
    assert(is_dir_name(listing, name));
    if dir_prefix is Some {
        let p = dir_prefix.unwrap();
        let rest = name.skip(p.len() as int);
        let aliased = p.is_prefix_of(name) && !name_taken(listing, rest);
        let want = if aliased { with_name.insert(rest, path) } else { with_name };
        if p.is_prefix_of(name) {
            assert(p + rest =~= name);
        }
        assert forall|k: Seq<char>| after.dom().contains(k) <==> want.dom().contains(k) by {
            lemma_dir_name_step(listing, n, k);
            lemma_dir_name_step(listing, n, p + k);
            if p + k == name {
                assert(p.is_prefix_of(name)) by {
                    assert(name.subrange(0, p.len() as int) =~= p);
                }
                assert(k =~= rest);
            }
        }
        assert forall|k: Seq<char>| after.dom().contains(k) implies after[k] == want[k] by {
            if aliased && k == rest {
                assert(!is_dir_name(listing, rest)) by {
                    if is_dir_name(listing, rest) {
                        let i = choose|i: int|
                            0 <= i < listing.len() && (#[trigger] listing[i]).is_dir
                                && listing[i].name == rest;
                        assert(is_entry_name(listing, rest));
                    }
                }
            }
        }
        assert(after =~= want);
    } else {
        assert forall|k: Seq<char>| after.dom().contains(k) <==> with_name.dom().contains(k) by {
            lemma_dir_name_step(listing, n, k);
        }
        assert(after =~= with_name);
    }
}

/// Whether something named `name` exists in the scanned directory.
pub fn is_name_taken(listing: &Vec<DirEntry>, name: &str) -> (r: bool)
    ensures
        r == name_taken(listing.deep_view(), name@),
{
    proof {
        reveal_strlit("");
        reveal_strlit(".");
        reveal_strlit("..");
        assert(""@ =~= Seq::<char>::empty());
        assert("."@ =~= seq!['.']);
        assert(".."@ =~= seq!['.', '.']);
    }
    if same_text(name, "") || same_text(name, ".") || same_text(name, "..") {
        return true;
    }
    assert(name@.len() == 0 ==> name@ =~= Seq::<char>::empty());
    let mut i: usize = 0;
    while i < listing.len()
        invariant
            i <= listing.len(),
            name@.len() != 0 && name@ != seq!['.'] && name@ != seq!['.', '.'],
            forall|j: int| 0 <= j < i ==> (#[trigger] listing.deep_view()[j]).name != name@,
        decreases listing.len() - i,
    {
        if same_text(listing[i].name.as_str(), name) {
            assert(listing.deep_view()[i as int].name == name@);
            return true;
        }
        i += 1;
    }
    false
}

/// Scans the entries of the directory `target_dir`. Each directory becomes
/// a candidate under its own name. Where `dir_prefix` is given and a
/// directory's name begins with it, what is left of the name becomes a
/// second candidate for the same directory, unless something of that name
/// exists. The keys of the table are the candidates, in dictionary order.
pub fn collect_candidates(
    target_dir: &str,
    listing: &Vec<DirEntry>,
    dir_prefix: Option<&str>,
) -> (t: PathTable)
    ensures
        t@ == scan_paths(target_dir@, listing.deep_view(), dir_prefix.deep_view()),
        t.key_seq() == sorted_keys(t@),
        strictly_sorted(t.key_seq()),
        forall|k: Seq<char>| #[trigger]
            t.key_seq().contains(k) <==> is_candidate(
                listing.deep_view(),
                dir_prefix.deep_view(),
                k,
            ),
        // Without a prefix the candidates are the directory names, each
        // standing for its own directory.
        dir_prefix is None ==> forall|k: Seq<char>| #[trigger]
            t@.dom().contains(k) <==> is_dir_name(listing.deep_view(), k),
        dir_prefix is None ==> forall|k: Seq<char>| #[trigger]
            t.key_seq().contains(k) <==> is_dir_name(listing.deep_view(), k),
        // A directory whose name begins with the prefix is found under
        // what is left of its name too, where that names nothing that
        // exists.
        forall|s: Seq<char>|
            dir_prefix is Some && #[trigger] is_dir_name(
                listing.deep_view(),
                dir_prefix.deep_view().unwrap() + s,
            ) && !name_taken(listing.deep_view(), s) ==> {
                &&& t@.dom().contains(dir_prefix.deep_view().unwrap() + s)
                &&& t@.dom().contains(s)
                &&& t@[s] == t@[dir_prefix.deep_view().unwrap() + s]
                &&& t.key_seq().contains(s)
            },
        // The name of a directory stands for that directory, with or
        // without a prefix, whatever other name would leave it when
        // stripped.
        forall|k: Seq<char>| #[trigger]
            is_dir_name(listing.deep_view(), k) ==> t@.dom().contains(k) && t@[k] == join_spec(
                target_dir@,
                k,
            ),
{
    let ghost all = listing.deep_view();
    let ghost target = target_dir@;
    let ghost dp = dir_prefix.deep_view();
    let mut t = PathTable::new();
    assert(t@ =~= scan_paths_upto(target, all, 0, dp));
    let mut i: usize = 0;
    while i < listing.len()
        invariant
            i <= listing.len(),
            all == listing.deep_view(),
            target == target_dir@,
            dp == dir_prefix.deep_view(),
            t@ == scan_paths_upto(target, all, i as int, dp),
        decreases listing.len() - i,
    {
        let entry = &listing[i];
        assert(all[i as int] == entry@);
        if entry.is_dir {
            proof {
                lemma_scan_step_dir(target, all, i as int, dp);
            }
            let path = join_path(target_dir, entry.name.as_str());
            t.insert(entry.name.clone(), path.clone());
            if let Some(p) = dir_prefix {
                if let Some(rest) = strip_prefix(entry.name.as_str(), p) {
                    if !is_name_taken(listing, rest.as_str()) {
                        t.insert(rest, path);
                    }
                }
            }
            assert(t@ =~= scan_paths_upto(target, all, i + 1, dp));
        } else {
            proof {
                lemma_scan_step_other(target, all, i as int, dp);
            }
        }
        i += 1;
    }
    proof {
        assert(all.take(i as int) =~= all);
        assert(t@ =~= scan_paths(target, all, dp));
        use_type_invariant(&t);
        t.lemma_wf();
        assert forall|s: Seq<char>|
            dp is Some && #[trigger] is_dir_name(all, dp.unwrap() + s) && !name_taken(
                all,
                s,
            ) implies t@[s] == t@[dp.unwrap() + s] by {
            assert(!is_dir_name(all, s));
        }
    }
    t
}

} // verus!
