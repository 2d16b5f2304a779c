//! The configuration that a lookup runs under, and its aliases.

use vstd::prelude::*;
use crate::text::same_text;

verus! {

/// A key with the place below the root that it stands for.
#[derive(Debug)]
pub struct Alias {
    pub key: String,
    pub sub_path: String,
}

/// An `Alias` as a pair of texts.
pub struct AliasView {
    pub key: Seq<char>,
    pub sub_path: Seq<char>,
}

impl View for Alias {
    type V = AliasView;

    open spec fn view(&self) -> AliasView {
        AliasView { key: self.key@, sub_path: self.sub_path@ }
    }
}

impl DeepView for Alias {
    type V = AliasView;

    open spec fn deep_view(&self) -> AliasView {
        self@
    }
}

impl Clone for Alias {
    fn clone(&self) -> (r: Alias)
        ensures
            r@ == self@,
    {
        Alias { key: self.key.clone(), sub_path: self.sub_path.clone() }
    }
}

/// What a lookup is configured with: the base directory, which may begin
/// with `~`; the place below it that is scanned, `.` for the base itself;
/// the prefix that directory names may carry; the aliases; and the
/// directory of the cache files, where it is not the default one.
#[derive(Debug)]
pub struct Config {
    pub base: String,
    pub prefix: String,
    pub dir_prefix: Option<String>,
    pub aliases: Vec<Alias>,
    pub cache_dir: Option<String>,
}

/// A `Config` as plain data.
pub struct ConfigView {
    pub base: Seq<char>,
    pub prefix: Seq<char>,
    pub dir_prefix: Option<Seq<char>>,
    pub aliases: Seq<AliasView>,
    pub cache_dir: Option<Seq<char>>,
}

impl View for Config {
    type V = ConfigView;

    open spec fn view(&self) -> ConfigView {
        ConfigView {
            base: self.base@,
            prefix: self.prefix@,
            dir_prefix: self.dir_prefix.deep_view(),
            aliases: self.aliases.deep_view(),
            cache_dir: self.cache_dir.deep_view(),
        }
    }
}

impl DeepView for Config {
    type V = ConfigView;

    open spec fn deep_view(&self) -> ConfigView {
        self@
    }
}

/// The sub-path of the first alias with the key `key`.
pub open spec fn alias_of(aliases: Seq<AliasView>, key: Seq<char>) -> Option<Seq<char>>
    decreases aliases.len(),
{
    if aliases.len() == 0 {
        None
    } else if aliases[0].key == key {
        Some(aliases[0].sub_path)
    } else {
        alias_of(aliases.skip(1), key)
    }
}

/// The aliases that a parsed mapping gives, in its order; none where the
/// text could not be parsed.
pub open spec fn aliases_of_pairs(parsed: Option<Seq<(Seq<char>, Seq<char>)>>) -> Seq<AliasView> {
    match parsed {
        Some(pairs) => Seq::new(
            pairs.len(),
            |i: int| AliasView { key: pairs[i].0, sub_path: pairs[i].1 },
        ),
        None => Seq::empty(),
    }
}

/// What `serde_json::from_str` makes of a text when asked for a map from
/// strings to strings: its entries in the order of their keys, or `None`
/// where it reports an error.
pub uninterp spec fn json_string_map(json: Seq<char>) -> Option<Seq<(Seq<char>, Seq<char>)>>;

/// Calls `serde_json::from_str` for a `BTreeMap<String, String>` and hands
/// out the entries of the map in the order in which the map holds them.
/// The result is a function of the text alone; an error becomes `None`.
#[verifier::external_body]
fn parse_string_map(json: &str) -> (r: Option<Vec<(String, String)>>)
    ensures
        r.deep_view() == json_string_map(json@),
{
    match serde_json::from_str::<std::collections::BTreeMap<String, String>>(json) {
        Ok(map) => Some(map.into_iter().collect()),
        Err(_) => None,
    }
}

/// The aliases that a parsed mapping gives.
pub fn aliases_from_pairs(parsed: Option<Vec<(String, String)>>) -> (r: Vec<Alias>)
    ensures
        r.deep_view() == aliases_of_pairs(parsed.deep_view()),
{
    let mut r: Vec<Alias> = Vec::new();
    match parsed {
        Some(pairs) => {
            let ghost want = aliases_of_pairs(Some(pairs.deep_view()));
            let mut i: usize = 0;
            while i < pairs.len()
                invariant
                    i <= pairs.len(),
                    r@.len() == i,
                    want == aliases_of_pairs(Some(pairs.deep_view())),
                    forall|j: int| 0 <= j < i ==> r@[j]@ == want[j],
                decreases pairs.len() - i,
            {
                let alias = Alias { key: pairs[i].0.clone(), sub_path: pairs[i].1.clone() };
                assert(alias@ == want[i as int]);
                r.push(alias);
                i += 1;
            }
            assert(r.deep_view() =~= want);
        },
        None => {
            assert(r.deep_view() =~= Seq::<AliasView>::empty());
        },
    }
    r
}

/// The aliases written as a JSON object from keys to sub-paths. A text
/// that is no such object gives no aliases.
pub fn aliases_from_json(json: &str) -> (r: Vec<Alias>)
    ensures
        r.deep_view() == aliases_of_pairs(json_string_map(json@)),
{
    aliases_from_pairs(parse_string_map(json))
}

/// A copy of a list of aliases.
pub fn clone_aliases(v: &Vec<Alias>) -> (r: Vec<Alias>)
    ensures
        r.deep_view() == v.deep_view(),
{
    let mut r: Vec<Alias> = Vec::new();
    let mut i: usize = 0;
    while i < v.len()
        invariant
            i <= v.len(),
            r@.len() == i,
            forall|j: int| 0 <= j < i ==> r@[j]@ == v@[j]@,
        decreases v.len() - i,
    {
        r.push(v[i].clone());
        i += 1;
    }
    assert(r.deep_view() =~= v.deep_view());
    r
}

/// A copy of a text that may be absent.
pub fn clone_optional(o: &Option<String>) -> (r: Option<String>)
    ensures
        r.deep_view() == o.deep_view(),
{
    match o {
        Some(s) => Some(s.clone()),
        None => None,
    }
}

impl Clone for Config {
    fn clone(&self) -> (r: Config)
        ensures
            r@ == self@,
    {
        Config {
            base: self.base.clone(),
            prefix: self.prefix.clone(),
            dir_prefix: clone_optional(&self.dir_prefix),
            aliases: clone_aliases(&self.aliases),
            cache_dir: clone_optional(&self.cache_dir),
        }
    }
}

impl Config {
    /// The sub-path that `key` is an alias for, if it is one.
    pub fn alias(&self, key: &str) -> (r: Option<&String>)
        ensures
            r.deep_view() == alias_of(self@.aliases, key@),
    {
        let ghost all = self.aliases.deep_view();
        assert(all.skip(0) =~= all);
        let mut i: usize = 0;
        while i < self.aliases.len()
            invariant
                i <= self.aliases.len(),
                all == self.aliases.deep_view(),
                alias_of(all, key@) == alias_of(all.skip(i as int), key@),
            decreases self.aliases.len() - i,
        {
            assert(all.skip(i as int)[0] == self.aliases[i as int]@);
            if same_text(self.aliases[i].key.as_str(), key) {
                return Some(&self.aliases[i].sub_path);
            }
            assert(all.skip(i as int).skip(1) =~= all.skip(i + 1));
            i += 1;
        }
        None
    }
}

} // verus!
