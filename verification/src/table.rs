//! The table of candidate keys and the directories they stand for, kept in
//! dictionary order of its keys: so the candidates come out in the order
//! in which they are listed, and a key is found by bisection.

use vstd::prelude::*;
use crate::text::{compare, lemma_lex_lt_asymmetric, lemma_lex_lt_irreflexive,
    lemma_lex_lt_transitive, lex_lt, Order};

verus! {

/// One key of the table with the directory it stands for.
#[derive(Debug)]
pub struct PathEntry {
    pub key: String,
    pub path: String,
}

/// A `PathEntry` as a pair of texts.
pub struct PathEntryView {
    pub key: Seq<char>,
    pub path: Seq<char>,
}

impl View for PathEntry {
    type V = PathEntryView;

    open spec fn view(&self) -> PathEntryView {
        PathEntryView { key: self.key@, path: self.path@ }
    }
}

impl DeepView for PathEntry {
    type V = PathEntryView;

    open spec fn deep_view(&self) -> PathEntryView {
        self@
    }
}

impl Clone for PathEntry {
    fn clone(&self) -> (r: PathEntry)
        ensures
            r@ == self@,
    {
        PathEntry { key: self.key.clone(), path: self.path.clone() }
    }
}

/// The keys of a list of entries, in the order of the entries.
pub open spec fn keys_of(entries: Seq<PathEntryView>) -> Seq<Seq<char>> {
    Seq::new(entries.len(), |i: int| entries[i].key)
}

/// Each text comes before all that follow it; so no text occurs twice.
pub open spec fn strictly_sorted(keys: Seq<Seq<char>>) -> bool {
    forall|i: int, j: int| 0 <= i < j < keys.len() ==> #[trigger] lex_lt(keys[i], keys[j])
}

/// Whether `keys` are the keys of `m`, in dictionary order.
pub open spec fn is_sorted_keys(keys: Seq<Seq<char>>, m: Map<Seq<char>, Seq<char>>) -> bool {
    strictly_sorted(keys) && forall|k: Seq<char>| keys.contains(k) <==> m.dom().contains(k)
}

/// The keys of `m` in dictionary order, where `m` has finitely many.
pub open spec fn sorted_keys(m: Map<Seq<char>, Seq<char>>) -> Seq<Seq<char>> {
    choose|keys: Seq<Seq<char>>| is_sorted_keys(keys, m)
}

/// Two sorted lists of the same texts are the same list.
pub proof fn lemma_sorted_unique(a: Seq<Seq<char>>, b: Seq<Seq<char>>)
    requires
        strictly_sorted(a),
        strictly_sorted(b),
        forall|k: Seq<char>| a.contains(k) <==> b.contains(k),
    ensures
        a == b,
    decreases a.len(),
{
    if a.len() == 0 {
        if b.len() > 0 {
            assert(b.contains(b[0]));
        }
        assert(a =~= b);
    } else if b.len() == 0 {
        assert(a.contains(a[0]));
    } else {
        assert(a.contains(a[0]));
        assert(b.contains(b[0]));
        let j = choose|j: int| 0 <= j < b.len() && b[j] == a[0];
        let i = choose|i: int| 0 <= i < a.len() && a[i] == b[0];
        if j > 0 && i > 0 {
            assert(lex_lt(b[0], b[j]));
            assert(lex_lt(a[0], a[i]));
            lemma_lex_lt_asymmetric(a[0], b[0]);
        }
        assert(a[0] == b[0]);
        let ta = a.skip(1);
        let tb = b.skip(1);
        assert forall|x: int, y: int| 0 <= x < y < ta.len() implies #[trigger] lex_lt(
            ta[x],
            ta[y],
        ) by {
            assert(lex_lt(a[x + 1], a[y + 1]));
        }
        assert forall|x: int, y: int| 0 <= x < y < tb.len() implies #[trigger] lex_lt(
            tb[x],
            tb[y],
        ) by {
            assert(lex_lt(b[x + 1], b[y + 1]));
        }
        assert forall|k: Seq<char>| ta.contains(k) <==> tb.contains(k) by {
            lemma_lex_lt_irreflexive(k);
            if ta.contains(k) {
                let x = choose|x: int| 0 <= x < ta.len() && ta[x] == k;
                assert(a[x + 1] == k);
                assert(lex_lt(a[0], a[x + 1]));
                assert(a.contains(k));
                let y = choose|y: int| 0 <= y < b.len() && b[y] == k;
                assert(y > 0);
                assert(tb[y - 1] == k);
            }
            if tb.contains(k) {
                let y = choose|y: int| 0 <= y < tb.len() && tb[y] == k;
                assert(b[y + 1] == k);
                assert(lex_lt(b[0], b[y + 1]));
                assert(b.contains(k));
                let x = choose|x: int| 0 <= x < a.len() && a[x] == k;
                assert(x > 0);
                assert(ta[x - 1] == k);
            }
        }
        lemma_sorted_unique(ta, tb);
        assert(a =~= seq![a[0]] + ta);
        assert(b =~= seq![b[0]] + tb);
    }
}

/// Whether some entry has the key `k`.
pub open spec fn has_key(entries: Seq<PathEntryView>, k: Seq<char>) -> bool {
    exists|i: int| 0 <= i < entries.len() && (#[trigger] entries[i]).key == k
}

/// The mapping that a list of entries stands for: each key goes to the
/// path of an entry that has it. Where the keys are sorted there is one
/// such entry.
pub open spec fn entries_map(entries: Seq<PathEntryView>) -> Map<Seq<char>, Seq<char>> {
    Map::new(
        |k: Seq<char>| has_key(entries, k),
        |k: Seq<char>| entries[place_of_key(entries, k)].path,
    )
}

/// The place of an entry with the key `k`.
pub open spec fn place_of_key(entries: Seq<PathEntryView>, k: Seq<char>) -> int {
    choose|i: int| 0 <= i < entries.len() && (#[trigger] entries[i]).key == k
}

/// No two entries have the same key.
pub open spec fn distinct_keys(entries: Seq<PathEntryView>) -> bool {
    forall|i: int, j: int|
        0 <= i < j < entries.len() ==> (#[trigger] entries[i]).key != (#[trigger] entries[j]).key
}

/// Entries with sorted keys have distinct keys.
pub proof fn lemma_sorted_distinct(entries: Seq<PathEntryView>)
    requires
        strictly_sorted(keys_of(entries)),
    ensures
        distinct_keys(entries),
{
    let keys = keys_of(entries);
    assert forall|i: int, j: int| 0 <= i < j < entries.len() implies (#[trigger] entries[i]).key
        != (#[trigger] entries[j]).key by {
        assert(lex_lt(keys[i], keys[j]));
        lemma_lex_lt_irreflexive(keys[i]);
    }
}

/// Among entries with distinct keys, an entry is the only one with its
/// key, and the mapping takes the key to its path.
pub proof fn lemma_distinct_place(entries: Seq<PathEntryView>, i: int)
    requires
        distinct_keys(entries),
        0 <= i < entries.len(),
    ensures
        has_key(entries, entries[i].key),
        place_of_key(entries, entries[i].key) == i,
        entries_map(entries)[entries[i].key] == entries[i].path,
{
    let f = place_of_key(entries, entries[i].key);
    assert(0 <= f < entries.len() && entries[f].key == entries[i].key);
}

/// One more entry with a new key adds that key to the mapping and changes
/// nothing else.
pub proof fn lemma_push_entry(entries: Seq<PathEntryView>, e: PathEntryView)
    requires
        distinct_keys(entries.push(e)),
    ensures
        distinct_keys(entries),
        !has_key(entries, e.key),
        entries_map(entries.push(e)) == entries_map(entries).insert(e.key, e.path),
{
    let after = entries.push(e);
    let n = entries.len() as int;
    assert(after[n] == e);
    assert forall|i: int, j: int| 0 <= i < j < entries.len() implies (#[trigger] entries[i]).key
        != (#[trigger] entries[j]).key by {
        assert(after[i] == entries[i] && after[j] == entries[j]);
    }
    if has_key(entries, e.key) {
        let j = place_of_key(entries, e.key);
        assert(after[j] == entries[j]);
    }
    let m = entries_map(entries).insert(e.key, e.path);
    let ma = entries_map(after);
    assert forall|k: Seq<char>| ma.dom().contains(k) <==> m.dom().contains(k) by {
        if has_key(after, k) {
            let j = place_of_key(after, k);
            if j < n {
                assert(entries[j] == after[j]);
            }
        }
        if has_key(entries, k) {
            let j = place_of_key(entries, k);
            assert(after[j] == entries[j]);
        }
    }
    assert forall|k: Seq<char>| ma.dom().contains(k) implies ma[k] == m[k] by {
        let j = place_of_key(after, k);
        lemma_distinct_place(after, j);
        if j < n {
            assert(entries[j] == after[j]);
            lemma_distinct_place(entries, j);
        }
    }
    assert(ma =~= m);
}

/// Among entries with sorted keys, an entry is the only one with its key,
/// and the mapping takes the key to its path.
pub proof fn lemma_sorted_place(entries: Seq<PathEntryView>, i: int)
    requires
        strictly_sorted(keys_of(entries)),
        0 <= i < entries.len(),
    ensures
        has_key(entries, entries[i].key),
        place_of_key(entries, entries[i].key) == i,
        entries_map(entries)[entries[i].key] == entries[i].path,
{
    lemma_sorted_distinct(entries);
    lemma_distinct_place(entries, i);
}

/// Putting an entry at its place among sorted entries leaves them sorted.
pub proof fn lemma_insert_sorted(entries: Seq<PathEntryView>, i: int, e: PathEntryView)
    requires
        0 <= i <= entries.len(),
        strictly_sorted(keys_of(entries)),
        forall|j: int| 0 <= j < i ==> lex_lt(#[trigger] entries[j].key, e.key),
        forall|j: int| i <= j < entries.len() ==> lex_lt(e.key, #[trigger] entries[j].key),
    ensures
        strictly_sorted(keys_of(entries.insert(i, e))),
{
    let after = entries.insert(i, e);
    let keys = keys_of(entries);
    let keys_after = keys_of(after);
    assert forall|a: int, b: int| 0 <= a < b < keys_after.len() implies #[trigger] lex_lt(
        keys_after[a],
        keys_after[b],
    ) by {
        let from_a = if a < i { a } else { a - 1 };
        let from_b = if b < i { b } else { b - 1 };
        if a != i && b != i {
            assert(keys_after[a] == keys[from_a]);
            assert(keys_after[b] == keys[from_b]);
            assert(lex_lt(keys[from_a], keys[from_b]));
        } else if a == i {
            assert(keys_after[a] == e.key);
            assert(keys_after[b] == entries[from_b].key);
        } else {
            assert(keys_after[b] == e.key);
            assert(keys_after[a] == entries[from_a].key);
        }
    }
}

/// Whether some entry has a key is not changed by a new entry, except for
/// the key of that entry.
pub proof fn lemma_insert_has_key(
    entries: Seq<PathEntryView>,
    i: int,
    e: PathEntryView,
    k: Seq<char>,
)
    requires
        0 <= i <= entries.len(),
    ensures
        has_key(entries.insert(i, e), k) <==> (has_key(entries, k) || k == e.key),
{
    let after = entries.insert(i, e);
    if has_key(after, k) {
        let j = choose|j: int| 0 <= j < after.len() && (#[trigger] after[j]).key == k;
        if j < i {
            assert(entries[j].key == k);
        } else if j > i {
            assert(entries[j - 1].key == k);
        }
    }
    if has_key(entries, k) {
        let j = choose|j: int| 0 <= j < entries.len() && (#[trigger] entries[j]).key == k;
        if j < i {
            assert(after[j].key == k);
        } else {
            assert(after[j + 1].key == k);
        }
    }
    if k == e.key {
        assert(after[i].key == k);
    }
}

/// The path of a key other than the new one is not changed by a new entry.
pub proof fn lemma_insert_keeps_path(
    entries: Seq<PathEntryView>,
    i: int,
    e: PathEntryView,
    k: Seq<char>,
)
    requires
        0 <= i <= entries.len(),
        strictly_sorted(keys_of(entries)),
        strictly_sorted(keys_of(entries.insert(i, e))),
        has_key(entries, k),
    ensures
        has_key(entries.insert(i, e), k),
        entries_map(entries.insert(i, e))[k] == entries_map(entries)[k],
        k != e.key,
{
    let after = entries.insert(i, e);
    let j = place_of_key(entries, k);
    let at = if j < i { j } else { j + 1 };
    assert(after[at] == entries[j]);
    lemma_sorted_place(entries, j);
    lemma_sorted_place(after, at);
    lemma_sorted_place(after, i);
}

/// Putting an entry with a new key at its place among sorted entries adds
/// that key to the mapping and changes nothing else.
pub proof fn lemma_insert_entry(entries: Seq<PathEntryView>, i: int, e: PathEntryView)
    requires
        0 <= i <= entries.len(),
        strictly_sorted(keys_of(entries)),
        strictly_sorted(keys_of(entries.insert(i, e))),
    ensures
        !has_key(entries, e.key),
        entries_map(entries.insert(i, e)) == entries_map(entries).insert(e.key, e.path),
{
    let after = entries.insert(i, e);
    let m = entries_map(entries).insert(e.key, e.path);
    let ma = entries_map(after);
    if has_key(entries, e.key) {
        lemma_insert_keeps_path(entries, i, e, e.key);
    }
    assert forall|k: Seq<char>| ma.dom().contains(k) <==> m.dom().contains(k) by {
        lemma_insert_has_key(entries, i, e, k);
    }
    assert forall|k: Seq<char>| ma.dom().contains(k) implies ma[k] == m[k] by {
        lemma_insert_has_key(entries, i, e, k);
        if k == e.key {
            assert(after[i] == e);
            lemma_sorted_place(after, i);
        } else {
            lemma_insert_keeps_path(entries, i, e, k);
        }
    }
    assert(ma =~= m);
}

/// A table from keys to paths, its keys in dictionary order.
#[derive(Debug)]
pub struct PathTable {
    entries: Vec<PathEntry>,
}

impl View for PathTable {
    type V = Map<Seq<char>, Seq<char>>;

    closed spec fn view(&self) -> Map<Seq<char>, Seq<char>> {
        entries_map(self.entries.deep_view())
    }
}

impl PathTable {
    /// The entries of the table, in the order of their keys.
    pub closed spec fn entry_seq(&self) -> Seq<PathEntryView> {
        self.entries.deep_view()
    }

    /// The keys of the table, in dictionary order.
    pub open spec fn key_seq(&self) -> Seq<Seq<char>> {
        keys_of(self.entry_seq())
    }

    /// The keys are in dictionary order, none twice.
    #[verifier::type_invariant]
    pub closed spec fn wf(&self) -> bool {
        strictly_sorted(keys_of(self.entries.deep_view()))
    }

    /// What holds of every table: its keys are sorted, and it maps each of
    /// them to the path of its entry.
    pub proof fn lemma_wf(&self)
        requires
            self.wf(),
        ensures
            strictly_sorted(self.key_seq()),
            self.key_seq() == sorted_keys(self@),
            self@ == entries_map(self.entry_seq()),
            forall|k: Seq<char>| self@.dom().contains(k) <==> self.key_seq().contains(k),
            forall|i: int|
                0 <= i < self.entry_seq().len() ==> self@.dom().contains(
                    (#[trigger] self.entry_seq()[i]).key,
                ) && self@[self.entry_seq()[i].key] == self.entry_seq()[i].path,
    {
        let entries = self.entry_seq();
        let keys = self.key_seq();
        assert forall|k: Seq<char>| self@.dom().contains(k) <==> keys.contains(k) by {
            if self@.dom().contains(k) {
                let i = choose|i: int| 0 <= i < entries.len() && (#[trigger] entries[i]).key == k;
                assert(keys[i] == k);
            }
            if keys.contains(k) {
                let i = choose|i: int| 0 <= i < keys.len() && keys[i] == k;
                assert(entries[i].key == k);
            }
        }
        assert forall|i: int| 0 <= i < entries.len() implies self@.dom().contains(
            (#[trigger] entries[i]).key,
        ) && self@[entries[i].key] == entries[i].path by {
            lemma_sorted_place(entries, i);
        }
        assert(is_sorted_keys(keys, self@));
        let chosen = sorted_keys(self@);
        lemma_sorted_unique(keys, chosen);
    }

    /// The empty table.
    pub fn new() -> (t: PathTable)
        ensures
            t@ == Map::<Seq<char>, Seq<char>>::empty(),
            t.entry_seq() == Seq::<PathEntryView>::empty(),
    {
        let t = PathTable { entries: Vec::new() };
        assert(t.entries.deep_view() =~= Seq::<PathEntryView>::empty());
        assert(t@ =~= Map::<Seq<char>, Seq<char>>::empty());
        t
    }

    /// The number of keys.
    pub fn len(&self) -> (n: usize)
        ensures
            n == self.entry_seq().len(),
    {
        self.entries.len()
    }

    /// The place of `key` among the entries, or the place where it would
    /// have to stand.
    fn position(&self, key: &str) -> (r: (usize, bool))
        ensures
            r.0 <= self.entries.len(),
            r.1 ==> r.0 < self.entries.len() && self.entries[r.0 as int].key@ == key@,
            !r.1 ==> !has_key(self.entries.deep_view(), key@),
            forall|j: int| 0 <= j < r.0 ==> lex_lt(self.entries[j].key@, key@),
            forall|j: int|
                r.0 <= j < self.entries.len() && !(r.1 && j == r.0) ==> lex_lt(
                    key@,
                    self.entries[j].key@,
                ),
    {
        proof {
            use_type_invariant(self);
        }
        let ghost keys = keys_of(self.entries.deep_view());
        let mut lo: usize = 0;
        let mut hi: usize = self.entries.len();
        while lo < hi
            invariant
                lo <= hi <= self.entries.len(),
                keys == keys_of(self.entries.deep_view()),
                strictly_sorted(keys),
                forall|j: int| 0 <= j < lo ==> lex_lt(self.entries[j].key@, key@),
                forall|j: int| hi <= j < self.entries.len() ==> lex_lt(key@, self.entries[j].key@),
            decreases hi - lo,
        {
            let mid = lo + (hi - lo) / 2;
            let ghost mk = self.entries[mid as int].key@;
            assert(keys[mid as int] == mk);
            match compare(self.entries[mid].key.as_str(), key) {
                Order::Less => {
                    assert forall|j: int| 0 <= j < mid + 1 implies lex_lt(
                        self.entries[j].key@,
                        key@,
                    ) by {
                        if j < mid {
                            assert(keys[j] == self.entries[j].key@);
                            assert(lex_lt(keys[j], keys[mid as int]));
                            lemma_lex_lt_transitive(keys[j], mk, key@);
                        }
                    }
                    lo = mid + 1;
                },
                Order::Greater => {
                    assert forall|j: int| mid <= j < self.entries.len() implies lex_lt(
                        key@,
                        self.entries[j].key@,
                    ) by {
                        if j > mid {
                            assert(keys[j] == self.entries[j].key@);
                            assert(lex_lt(keys[mid as int], keys[j]));
                            lemma_lex_lt_transitive(key@, mk, keys[j]);
                        }
                    }
                    hi = mid;
                },
                Order::Equal => {
                    assert forall|j: int| mid < j < self.entries.len() implies lex_lt(
                        key@,
                        self.entries[j].key@,
                    ) by {
                        assert(keys[j] == self.entries[j].key@);
                        assert(lex_lt(keys[mid as int], keys[j]));
                    }
                    assert forall|j: int| 0 <= j < mid implies lex_lt(
                        self.entries[j].key@,
                        key@,
                    ) by {
                        assert(keys[j] == self.entries[j].key@);
                        assert(lex_lt(keys[j], keys[mid as int]));
                    }
                    return (mid, true);
                },
            }
        }
        proof {
            let entries = self.entries.deep_view();
            if has_key(entries, key@) {
                let i = choose|i: int| 0 <= i < entries.len() && (#[trigger] entries[i]).key == key@;
                assert(entries[i].key == self.entries[i].key@);
                lemma_lex_lt_irreflexive(key@);
            }
        }
        (lo, false)
    }

    /// The path that `key` stands for, if the table has the key.
    pub fn get(&self, key: &str) -> (r: Option<&String>)
        ensures
            r is Some <==> self@.dom().contains(key@),
            r matches Some(p) ==> p@ == self@[key@],
    {
        proof {
            use_type_invariant(self);
        }
        let (i, found) = self.position(key);
        if found {
            proof {
                let entries = self.entries.deep_view();
                assert(entries[i as int].key == key@);
                lemma_sorted_place(entries, i as int);
            }
            Some(&self.entries[i].path)
        } else {
            None
        }
    }

    /// Adds `key` with `path`, unless the table has the key already: then
    /// the table stays as it is.
    pub fn insert(&mut self, key: String, path: String) -> (added: bool)
        ensures
            added == !old(self)@.dom().contains(key@),
            final(self)@ == (if added {
                old(self)@.insert(key@, path@)
            } else {
                old(self)@
            }),
    {
        proof {
            use_type_invariant(&*self);
        }
        let (i, found) = self.position(key.as_str());
        if found {
            proof {
                let entries = self.entries.deep_view();
                assert(entries[i as int].key == key@);
            }
            return false;
        }
        let entry = PathEntry { key, path };
        proof {
            let entries = self.entries.deep_view();
            assert forall|j: int| 0 <= j < i implies lex_lt(
                #[trigger] entries[j].key,
                entry@.key,
            ) by {
                assert(entries[j].key == self.entries[j].key@);
            }
            assert forall|j: int| i <= j < entries.len() implies lex_lt(
                entry@.key,
                #[trigger] entries[j].key,
            ) by {
                assert(entries[j].key == self.entries[j].key@);
            }
            lemma_insert_sorted(entries, i as int, entry@);
            lemma_insert_entry(entries, i as int, entry@);
        }
        let ghost before = self.entries.deep_view();
        let mut entries: Vec<PathEntry> = Vec::new();
        assert(keys_of(entries.deep_view()) =~= Seq::<Seq<char>>::empty());
        std::mem::swap(&mut self.entries, &mut entries);
        entries.insert(i, entry);
        assert(entries.deep_view() =~= before.insert(i as int, entry@));
        self.entries = entries;
        true
    }

    /// The keys, in dictionary order.
    pub fn keys(&self) -> (r: Vec<String>)
        ensures
            r.deep_view() == self.key_seq(),
            r.deep_view() == sorted_keys(self@),
    {
        proof {
            use_type_invariant(self);
            self.lemma_wf();
        }
        let mut r: Vec<String> = Vec::new();
        let mut i: usize = 0;
        while i < self.entries.len()
            invariant
                i <= self.entries.len(),
                r@.len() == i,
                r.deep_view() == self.key_seq().take(i as int),
            decreases self.entries.len() - i,
        {
            let ghost before = r.deep_view();
            let ghost held = r@;
            let key = self.entries[i].key.clone();
            r.push(key);
            proof {
                let now = r.deep_view();
                let want = self.key_seq().take(i + 1);
                assert(self.entry_seq()[i as int] == self.entries[i as int]@);
                assert forall|j: int| 0 <= j < now.len() implies now[j] == want[j] by {
                    if j < i {
                        assert(r@[j] == held[j]);
                        assert(now[j] == before[j]);
                    }
                }
                assert(now =~= want);
            }
            i += 1;
        }
        assert(self.key_seq().take(i as int) =~= self.key_seq());
        r
    }

    /// The entries, in the order of their keys.
    pub fn entries(&self) -> (r: Vec<PathEntry>)
        ensures
            r.deep_view() == self.entry_seq(),
    {
        let mut r: Vec<PathEntry> = Vec::new();
        let mut i: usize = 0;
        while i < self.entries.len()
            invariant
                i <= self.entries.len(),
                r@.len() == i,
                r.deep_view() == self.entry_seq().take(i as int),
            decreases self.entries.len() - i,
        {
            let ghost before = r.deep_view();
            let ghost held = r@;
            let entry = self.entries[i].clone();
            r.push(entry);
            proof {
                let now = r.deep_view();
                let want = self.entry_seq().take(i + 1);
                assert(self.entry_seq()[i as int] == self.entries[i as int]@);
                assert forall|j: int| 0 <= j < now.len() implies now[j] == want[j] by {
                    if j < i {
                        assert(r@[j] == held[j]);
                        assert(now[j] == before[j]);
                    }
                }
                assert(now =~= want);
            }
            i += 1;
        }
        assert(self.entry_seq().take(i as int) =~= self.entry_seq());
        r
    }

    /// Whether the table has `key`.
    pub fn contains_key(&self, key: &str) -> (r: bool)
        ensures
            r == self@.dom().contains(key@),
    {
        self.get(key).is_some()
    }
}

impl Clone for PathTable {
    fn clone(&self) -> (r: PathTable)
        ensures
            r@ == self@,
            r.entry_seq() == self.entry_seq(),
    {
        proof {
            use_type_invariant(self);
        }
        PathTable { entries: self.entries() }
    }
}

} // verus!
