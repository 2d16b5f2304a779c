//! Where cache records are kept: the directory of the cache files and the
//! file name that belongs to a base directory.

use vstd::prelude::*;
use crate::paths::{expand_tilde_spec, expand_tilde_with, is_absolute, join_path, join_spec};
use crate::text::{append, as_text};

verus! {

/// What stands for one character of a base in its identifier: `_s` for
/// a separator, `_h` for the home shorthand, `__` for `_`, and every other
/// character for itself. So `_` in an identifier always begins a pair,
/// and each identifier can be read back in one way only.
pub open spec fn safe_chars(c: char) -> Seq<char> {
    if c == '/' {
        seq!['_', 's']
    } else if c == '~' {
        seq!['_', 'h']
    } else if c == '_' {
        seq!['_', '_']
    } else {
        seq![c]
    }
}

/// The identifier of a base: what stands for its characters, one after
/// the other.
pub open spec fn cache_id_spec(base: Seq<char>) -> Seq<char>
    decreases base.len(),
{
    if base.len() == 0 {
        Seq::empty()
    } else {
        safe_chars(base[0]) + cache_id_spec(base.skip(1))
    }
}

/// The name of the cache file of a base, without its directory.
pub open spec fn cache_file_name(base: Seq<char>) -> Seq<char> {
    cache_id_spec(base) + seq!['.', 'j', 's', 'o', 'n']
}

/// The path of the cache file of a base in `cache_dir`.
pub open spec fn cache_path_spec(cache_dir: Seq<char>, base: Seq<char>) -> Seq<char> {
    join_spec(cache_dir, cache_file_name(base))
}

/// The name of the directory that holds the cache files, below the user's
/// cache directory.
pub open spec fn cache_dir_name() -> Seq<char> {
    seq!['s', 'w', 'i', 't', 'c', 'h', '_', 'd', 'i', 'r']
}

/// The directory that stands in for the user's cache directory where none
/// is known.
pub open spec fn fallback_cache_root() -> Seq<char> {
    seq!['/', 't', 'm', 'p']
}

/// The directory of the cache files: the configured one, else
/// `switch_dir` below the user's cache directory, or below `/tmp` where
/// the user has none.
pub open spec fn cache_dir_spec(
    configured: Option<Seq<char>>,
    user_cache: Option<Seq<char>>,
) -> Seq<char> {
    match configured {
        Some(d) => d,
        None => match user_cache {
            Some(u) => join_spec(u, cache_dir_name()),
            None => join_spec(fallback_cache_root(), cache_dir_name()),
        },
    }
}

/// The identifier of a base with one more character is the identifier
/// of the base with what stands for that character behind it.
pub proof fn lemma_cache_id_push(base: Seq<char>, c: char)
    ensures
        cache_id_spec(base.push(c)) == cache_id_spec(base) + safe_chars(c),
    decreases base.len(),
{
    let longer = base.push(c);
    if base.len() == 0 {
        assert(longer.skip(1) =~= Seq::<char>::empty());
        assert(cache_id_spec(longer.skip(1)) =~= Seq::<char>::empty());
        assert(cache_id_spec(longer) =~= safe_chars(c));
        assert(cache_id_spec(base) + safe_chars(c) =~= safe_chars(c));
    } else {
        assert(longer.skip(1) =~= base.skip(1).push(c));
        lemma_cache_id_push(base.skip(1), c);
        assert(cache_id_spec(longer) =~= cache_id_spec(base) + safe_chars(c));
    }
}

/// An identifier has neither a separator nor the home shorthand in it.
pub proof fn lemma_cache_id_is_plain(base: Seq<char>)
    ensures
        forall|i: int|
            0 <= i < cache_id_spec(base).len() ==> (#[trigger] cache_id_spec(base)[i]) != '/'
                && cache_id_spec(base)[i] != '~',
    decreases base.len(),
{
    if base.len() > 0 {
        lemma_cache_id_is_plain(base.skip(1));
        let head = safe_chars(base[0]);
        let tail = cache_id_spec(base.skip(1));
        assert forall|i: int| 0 <= i < cache_id_spec(base).len() implies (
        #[trigger] cache_id_spec(base)[i]) != '/' && cache_id_spec(base)[i] != '~' by {
            if i < head.len() {
                assert(cache_id_spec(base)[i] == head[i]);
            } else {
                assert(cache_id_spec(base)[i] == tail[i - head.len()]);
            }
        }
    }
}

/// Different bases have different identifiers.
pub proof fn lemma_cache_id_injective(a: Seq<char>, b: Seq<char>)
    requires
        cache_id_spec(a) == cache_id_spec(b),
    ensures
        a == b,
    decreases a.len(),
{
    let id = cache_id_spec(a);
    if a.len() == 0 {
        if b.len() > 0 {
            assert(cache_id_spec(b)[0] == safe_chars(b[0])[0]);
        }
        assert(a =~= b);
    } else if b.len() == 0 {
        assert(id[0] == safe_chars(a[0])[0]);
    } else {
        let ha = safe_chars(a[0]);
        let hb = safe_chars(b[0]);
        let ta = cache_id_spec(a.skip(1));
        let tb = cache_id_spec(b.skip(1));
        assert(id == ha + ta);
        assert(id == hb + tb);
        assert(id[0] == ha[0] && id[0] == hb[0]);
        if id[0] == '_' {
            assert(ha.len() == 2 && hb.len() == 2);
            assert(id[1] == ha[1] && id[1] == hb[1]);
            assert(a[0] == b[0]);
            assert(ta =~= id.skip(2));
            assert(tb =~= id.skip(2));
        } else {
            assert(ha.len() == 1 && hb.len() == 1);
            assert(a[0] == b[0]);
            assert(ta =~= id.skip(1));
            assert(tb =~= id.skip(1));
        }
        lemma_cache_id_injective(a.skip(1), b.skip(1));
        assert(a =~= seq![a[0]] + a.skip(1));
        assert(b =~= seq![b[0]] + b.skip(1));
    }
}

/// Different bases have different cache files in one cache directory.
pub proof fn lemma_cache_path_injective(cache_dir: Seq<char>, a: Seq<char>, b: Seq<char>)
    requires
        cache_path_spec(cache_dir, a) == cache_path_spec(cache_dir, b),
    ensures
        a == b,
{
    let suffix = seq!['.', 'j', 's', 'o', 'n'];
    let na = cache_file_name(a);
    let nb = cache_file_name(b);
    lemma_cache_id_is_plain(a);
    lemma_cache_id_is_plain(b);
    assert(!is_absolute(na)) by {
        if cache_id_spec(a).len() > 0 {
            assert(na[0] == cache_id_spec(a)[0]);
        } else {
            assert(na[0] == suffix[0]);
        }
    }
    assert(!is_absolute(nb)) by {
        if cache_id_spec(b).len() > 0 {
            assert(nb[0] == cache_id_spec(b)[0]);
        } else {
            assert(nb[0] == suffix[0]);
        }
    }
    let front = if cache_dir.len() == 0 || cache_dir.last() == '/' {
        cache_dir
    } else {
        cache_dir + seq!['/']
    };
    assert(cache_path_spec(cache_dir, a) =~= front + na);
    assert(cache_path_spec(cache_dir, b) =~= front + nb);
    assert(na =~= (front + na).skip(front.len() as int));
    assert(nb =~= (front + nb).skip(front.len() as int));
    assert(cache_id_spec(a) =~= na.take(na.len() - 5));
    assert(cache_id_spec(b) =~= nb.take(nb.len() - 5));
    lemma_cache_id_injective(a, b);
}

/// The identifier under which the record of `base` is kept. It is a plain
/// file name, and no other base has it.
pub fn get_cache_id(base: &str) -> (id: String)
    ensures
        id@ == cache_id_spec(base@),
        forall|i: int| 0 <= i < id@.len() ==> (#[trigger] id@[i]) != '/' && id@[i] != '~',
        forall|other: Seq<char>| #[trigger] cache_id_spec(other) == id@ ==> other == base@,
{
    let mut id = String::new();
    for c in it: base.chars()
        invariant
            it.seq() == base@,
            id@ == cache_id_spec(base@.take(it.index())),
    {
        proof {
            assert(base@.take(it.index() + 1) =~= base@.take(it.index()).push(c));
            lemma_cache_id_push(base@.take(it.index()), c);
            reveal_strlit("_s");
            reveal_strlit("_h");
            reveal_strlit("__");
            assert("_s"@ =~= seq!['_', 's']);
            assert("_h"@ =~= seq!['_', 'h']);
            assert("__"@ =~= seq!['_', '_']);
        }
        if c == '/' {
            id.append("_s");
        } else if c == '~' {
            id.append("_h");
        } else if c == '_' {
            id.append("__");
        } else {
            id.push(c);
        }
    }
    proof {
        assert(base@.take(base@.len() as int) =~= base@);
        lemma_cache_id_is_plain(base@);
        assert forall|other: Seq<char>| #[trigger] cache_id_spec(other) == id@ implies other
            == base@ by {
            lemma_cache_id_injective(other, base@);
        }
    }
    id
}

/// The path of the cache file of `base` in `cache_dir`. No other base has
/// its cache file there.
pub fn get_cache_path(cache_dir: &str, base: &str) -> (path: String)
    ensures
        path@ == cache_path_spec(cache_dir@, base@),
        forall|other: Seq<char>| #[trigger]
            cache_path_spec(cache_dir@, other) == path@ ==> other == base@,
{
    proof {
        assert forall|other: Seq<char>| #[trigger]
            cache_path_spec(cache_dir@, other) == cache_path_spec(
                cache_dir@,
                base@,
            ) implies other == base@ by {
            lemma_cache_path_injective(cache_dir@, other, base@);
        }
    }
    proof {
        reveal_strlit(".json");
        assert(".json"@ =~= seq!['.', 'j', 's', 'o', 'n']);
    }
    let id = get_cache_id(base);
    let name = append(id.as_str(), ".json");
    join_path(cache_dir, name.as_str())
}

/// The directory of the cache files, given the user's cache directory.
pub fn cache_dir_from(configured: Option<&str>, user_cache: Option<&str>) -> (dir: String)
    ensures
        dir@ == cache_dir_spec(configured.deep_view(), user_cache.deep_view()),
{
    proof {
        reveal_strlit("switch_dir");
        reveal_strlit("/tmp");
        assert("switch_dir"@ =~= cache_dir_name());
        assert("/tmp"@ =~= fallback_cache_root());
    }
    match configured {
        Some(d) => d.to_owned(),
        None => match user_cache {
            Some(u) => join_path(u, "switch_dir"),
            None => join_path("/tmp", "switch_dir"),
        },
    }
}

/// Calls `dirs::cache_dir`, which asks the environment for the user's
/// cache directory. Nothing is claimed of the answer. A path that is not
/// valid UTF-8 counts as no answer.
#[verifier::external_body]
pub(crate) fn user_cache_dir() -> (r: Option<String>) {
    match dirs::cache_dir() {
        Some(p) => p.to_str().map(|s| s.to_string()),
        None => None,
    }
}

/// Calls `dirs::home_dir`, which asks the environment for the user's home
/// directory. Nothing is claimed of the answer. A path that is not valid
/// UTF-8 counts as no answer.
#[verifier::external_body]
pub(crate) fn user_home_dir() -> (r: Option<String>) {
    match dirs::home_dir() {
        Some(p) => p.to_str().map(|s| s.to_string()),
        None => None,
    }
}

/// The directory of the cache files: the configured one, else the default
/// one of this user.
pub fn get_cache_dir(configured: Option<&str>) -> (dir: String)
    ensures
        exists|user_cache: Option<Seq<char>>|
            dir@ == cache_dir_spec(configured.deep_view(), user_cache),
        configured matches Some(d) ==> dir@ == d@,
{
    let user_cache = user_cache_dir();
    let dir = cache_dir_from(configured, as_text(&user_cache));
    assert(dir@ == cache_dir_spec(configured.deep_view(), user_cache.deep_view()));
    dir
}

/// `path` with a leading `~` replaced by the home directory of this user,
/// where one is known.
pub fn expand_tilde(path: &str) -> (r: String)
    ensures
        exists|home: Option<Seq<char>>| r@ == expand_tilde_spec(path@, home),
        !(path@.len() > 0 && path@[0] == '~') ==> r@ == path@,
{
    let home = user_home_dir();
    let r = expand_tilde_with(path, as_text(&home));
    assert(r@ == expand_tilde_spec(path@, home.deep_view()));
    r
}

} // verus!
