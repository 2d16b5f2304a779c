//! The cache record of one base directory, the name of the file that
//! holds it, and the roots that a working directory can be matched to.

use vstd::prelude::*;
use crate::paths::{is_within, lies_within, sub_path, sub_path_spec, transform_path,
    transform_spec};
use crate::scan::{collect_candidates, scan_paths, DirEntry, DirEntryView};
use crate::config::{Config, ConfigView};
use crate::table::{distinct_keys, entries_map, has_key, lemma_push_entry, lemma_sorted_distinct,
    lemma_sorted_unique, sorted_keys, strictly_sorted, PathEntry, PathEntryView, PathTable};
use crate::text::{as_text, clone_texts, same_text};

verus! {

/// What was found below one base directory: the base, the other roots of
/// the same project, and the candidates with their directories.
#[derive(Debug)]
pub struct CacheRecord {
    pub base: String,
    pub worktrees: Vec<String>,
    pub paths: PathTable,
}

/// A `CacheRecord` as plain data. `candidates` are the keys of `paths` in
/// dictionary order.
pub struct CacheRecordView {
    pub base: Seq<char>,
    pub worktrees: Seq<Seq<char>>,
    pub paths: Map<Seq<char>, Seq<char>>,
    pub candidates: Seq<Seq<char>>,
}

impl View for CacheRecord {
    type V = CacheRecordView;

    open spec fn view(&self) -> CacheRecordView {
        CacheRecordView {
            base: self.base@,
            worktrees: self.worktrees.deep_view(),
            paths: self.paths@,
            candidates: self.paths.key_seq(),
        }
    }
}

impl DeepView for CacheRecord {
    type V = CacheRecordView;

    open spec fn deep_view(&self) -> CacheRecordView {
        self@
    }
}

impl Clone for CacheRecord {
    fn clone(&self) -> (r: CacheRecord)
        ensures
            r@ == self@,
    {
        CacheRecord {
            base: self.base.clone(),
            worktrees: clone_texts(&self.worktrees),
            paths: self.paths.clone(),
        }
    }
}

/// The first of `roots` that `cwd` lies within.
pub open spec fn first_root(roots: Seq<Seq<char>>, cwd: Seq<char>) -> Option<Seq<char>>
    decreases roots.len(),
{
    if roots.len() == 0 {
        None
    } else if is_within(roots[0], cwd) {
        Some(roots[0])
    } else {
        first_root(roots.skip(1), cwd)
    }
}

/// The root that a record matches `cwd` by: its base, if `cwd` lies
/// within it, else the first of its worktrees that `cwd` lies within. A
/// root matches at a path boundary only: `/repo` matches `/repo/x` and
/// not `/repo-wt/x`.
pub open spec fn matched_root_spec(record: CacheRecordView, cwd: Seq<char>) -> Option<Seq<char>> {
    if is_within(record.base, cwd) {
        Some(record.base)
    } else {
        first_root(record.worktrees, cwd)
    }
}

/// The effective base: the first worktree that `cwd` lies within, else
/// the configured base.
pub open spec fn resolve_base_spec(
    base: Seq<char>,
    worktrees: Seq<Seq<char>>,
    cwd: Seq<char>,
) -> Seq<char> {
    match first_root(worktrees, cwd) {
        Some(w) => w,
        None => base,
    }
}

/// The directory that `key` stands for in `paths`, moved from below `from`
/// to below `to`.
pub open spec fn rewritten_spec(
    paths: Map<Seq<char>, Seq<char>>,
    key: Seq<char>,
    from: Seq<char>,
    to: Seq<char>,
) -> Option<Seq<char>> {
    if paths.dom().contains(key) {
        Some(transform_spec(paths[key], from, to))
    } else {
        None
    }
}

/// The place that is scanned: `prefix` below `base`, or `base` itself
/// where `prefix` is `.`.
pub open spec fn scan_root_spec(base: Seq<char>, prefix: Seq<char>) -> Seq<char> {
    sub_path_spec(base, prefix)
}

/// The record that a scan of the listing gives for `base`.
pub open spec fn rebuilt_spec(
    config: ConfigView,
    base: Seq<char>,
    worktrees: Seq<Seq<char>>,
    listing: Seq<DirEntryView>,
) -> CacheRecordView {
    let paths = scan_paths(scan_root_spec(base, config.prefix), listing, config.dir_prefix);
    CacheRecordView { base, worktrees, paths, candidates: sorted_keys(paths) }
}

/// Whether entries and candidates can be those of one record: no key
/// twice, and the candidates are the keys in dictionary order.
pub open spec fn parts_consistent(
    entries: Seq<PathEntryView>,
    candidates: Seq<Seq<char>>,
) -> bool {
    &&& distinct_keys(entries)
    &&& strictly_sorted(candidates)
    &&& forall|k: Seq<char>| candidates.contains(k) <==> has_key(entries, k)
}

/// The first of `roots` that `cwd` lies within.
pub fn find_root(roots: &Vec<String>, cwd: &str) -> (r: Option<String>)
    ensures
        r.deep_view() == first_root(roots.deep_view(), cwd@),
{
    let ghost all = roots.deep_view();
    assert(all.skip(0) =~= all);
    let mut i: usize = 0;
    while i < roots.len()
        invariant
            i <= roots.len(),
            all == roots.deep_view(),
            first_root(all, cwd@) == first_root(all.skip(i as int), cwd@),
        decreases roots.len() - i,
    {
        assert(all.skip(i as int)[0] == roots[i as int]@);
        if lies_within(roots[i].as_str(), cwd) {
            return Some(roots[i].clone());
        }
        assert(all.skip(i as int).skip(1) =~= all.skip(i + 1));
        i += 1;
    }
    None
}

/// The effective base for `cwd`: the worktree that holds it, if one does,
/// else `base`. Only the worktrees decide; the name of the repository's
/// root directory plays no part.
pub fn resolve_base(base: &str, worktrees: &Vec<String>, cwd: &str) -> (r: String)
    ensures
        r@ == resolve_base_spec(base@, worktrees.deep_view(), cwd@),
{
    match find_root(worktrees, cwd) {
        Some(w) => w,
        None => base.to_owned(),
    }
}

/// Builds the record of `base` from the entries of the scanned directory,
/// which is `config.prefix` below `base`.
pub fn refresh_cache(
    config: &Config,
    base: &str,
    worktrees: Vec<String>,
    listing: &Vec<DirEntry>,
) -> (record: CacheRecord)
    ensures
        record@ == rebuilt_spec(config@, base@, worktrees.deep_view(), listing.deep_view()),
{
    let target = sub_path(base, config.prefix.as_str());
    let paths = collect_candidates(target.as_str(), listing, as_text(&config.dir_prefix));
    CacheRecord { base: base.to_owned(), worktrees, paths }
}

/// A record that is taken apart and put together again is the same
/// record: its entries and candidates are consistent parts, and the
/// record that `from_parts` makes of them, with the same base and
/// worktrees, is this one.
pub proof fn lemma_parts_round_trip(record: CacheRecord)
    requires
        record.paths.wf(),
    ensures
        parts_consistent(record.paths.entry_seq(), record@.candidates),
        record@ == (CacheRecordView {
            base: record@.base,
            worktrees: record@.worktrees,
            paths: entries_map(record.paths.entry_seq()),
            candidates: record@.candidates,
        }),
{
    let table = record.paths;
    table.lemma_wf();
    lemma_sorted_distinct(table.entry_seq());
    let entries = table.entry_seq();
    let keys = table.key_seq();
    assert forall|k: Seq<char>| keys.contains(k) <==> has_key(entries, k) by {
        assert(table@.dom().contains(k) <==> has_key(entries, k));
    }
}

impl CacheRecord {
    /// Puts a record together from its parts as they were stored. The
    /// parts are accepted if no key occurs twice among the entries and
    /// the candidates are the keys in dictionary order.
    pub fn from_parts(
        base: String,
        worktrees: Vec<String>,
        entries: Vec<PathEntry>,
        candidates: Vec<String>,
    ) -> (r: Option<CacheRecord>)
        ensures
            r is Some <==> parts_consistent(entries.deep_view(), candidates.deep_view()),
            r matches Some(record) ==> record@ == (CacheRecordView {
                base: base@,
                worktrees: worktrees.deep_view(),
                paths: entries_map(entries.deep_view()),
                candidates: candidates.deep_view(),
            }),
    {
        let ghost all = entries.deep_view();
        let ghost wanted = candidates.deep_view();
        let mut paths = PathTable::new();
        assert(paths@ =~= entries_map(all.take(0)));
        let mut i: usize = 0;
        while i < entries.len()
            invariant
                i <= entries.len(),
                all == entries.deep_view(),
                distinct_keys(all.take(i as int)),
                paths@ == entries_map(all.take(i as int)),
            decreases entries.len() - i,
        {
            let ghost upto = all.take(i as int);
            let ghost e = all[i as int];
            assert(e == entries[i as int]@);
            assert(all.take(i + 1) =~= upto.push(e));
            let added = paths.insert(entries[i].key.clone(), entries[i].path.clone());
            if !added {
                proof {
                    let j = choose|j: int| 0 <= j < upto.len() && (#[trigger] upto[j]).key == e.key;
                    assert(all[j] == upto[j]);
                    assert(all[j].key == all[i as int].key);
                }
                return None;
            }
            proof {
                assert forall|a: int, b: int| 0 <= a < b < upto.push(e).len() implies (
                #[trigger] upto.push(e)[a]).key != (#[trigger] upto.push(e)[b]).key by {
                    if b < upto.len() {
                        assert(upto.push(e)[a] == upto[a] && upto.push(e)[b] == upto[b]);
                    } else {
                        assert(upto.push(e)[a] == upto[a]);
                        assert(!has_key(upto, e.key));
                    }
                }
                lemma_push_entry(upto, e);
            }
            i += 1;
        }
        assert(all.take(i as int) =~= all);
        let keys = paths.keys();
        let ghost held = keys.deep_view();
        proof {
            use_type_invariant(&paths);
            paths.lemma_wf();
            assert forall|k: Seq<char>| held.contains(k) <==> has_key(all, k) by {
                assert(paths@.dom().contains(k) <==> has_key(all, k));
            }
        }
        if keys.len() != candidates.len() {
            proof {
                if parts_consistent(all, wanted) {
                    lemma_sorted_unique(wanted, held);
                }
            }
            return None;
        }
        let mut j: usize = 0;
        while j < keys.len()
            invariant
                j <= keys.len(),
                keys.len() == candidates.len(),
                wanted == candidates.deep_view(),
                all == entries.deep_view(),
                held == keys.deep_view(),
                strictly_sorted(held),
                forall|k: Seq<char>| held.contains(k) <==> has_key(all, k),
                forall|x: int| 0 <= x < j ==> held[x] == wanted[x],
            decreases keys.len() - j,
        {
            if !same_text(keys[j].as_str(), candidates[j].as_str()) {
                proof {
                    assert(held[j as int] != wanted[j as int]);
                    if parts_consistent(all, wanted) {
                        lemma_sorted_unique(wanted, held);
                    }
                }
                return None;
            }
            j += 1;
        }
        assert(held =~= wanted);
        Some(CacheRecord { base, worktrees, paths })
    }

    /// The candidates, in dictionary order.
    pub fn candidates(&self) -> (r: Vec<String>)
        ensures
            r.deep_view() == self@.candidates,
            r.deep_view() == sorted_keys(self@.paths),
    {
        self.paths.keys()
    }

    /// The entries and the candidates of this record, as they are stored
    /// and as `from_parts` takes them back.
    pub fn parts(&self) -> (r: (Vec<PathEntry>, Vec<String>))
        ensures
            parts_consistent(r.0.deep_view(), r.1.deep_view()),
            entries_map(r.0.deep_view()) == self@.paths,
            r.1.deep_view() == self@.candidates,
    {
        proof {
            use_type_invariant(&self.paths);
            lemma_parts_round_trip(*self);
        }
        (self.paths.entries(), self.paths.keys())
    }

    /// The root by which this record matches `cwd`, if it does.
    pub fn matched_root(&self, cwd: &str) -> (r: Option<String>)
        ensures
            r.deep_view() == matched_root_spec(self@, cwd@),
    {
        if lies_within(self.base.as_str(), cwd) {
            Some(self.base.clone())
        } else {
            find_root(&self.worktrees, cwd)
        }
    }

    /// The directory that `key` stands for, moved from below `from` to
    /// below `to`.
    pub fn lookup(&self, key: &str, from: &str, to: &str) -> (r: Option<String>)
        ensures
            r.deep_view() == rewritten_spec(self@.paths, key@, from@, to@),
    {
        match self.paths.get(key) {
            Some(p) => Some(transform_path(p.as_str(), from, to)),
            None => None,
        }
    }
}

} // verus!
