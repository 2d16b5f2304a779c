//! Whole runs of the resolver: what a lookup comes to when the replies
//! are given.

use vstd::prelude::*;
use crate::cache::{matched_root_spec, rebuilt_spec, resolve_base_spec, scan_root_spec,
    CacheRecordView};
use crate::config::{alias_of, ConfigView};
use crate::paths::{expand_tilde_spec, join_spec, self_name, transform_spec};
use crate::report::{report_spec, ReportView};
use crate::resolver::{lemma_step_progress, rank, refresh_key, reply_cache, reply_is_dir,
    reply_listing, start_spec, step_spec, ActionView, CommandView, OutcomeView, Phase, ReplyView, ResolverView,
    StepView};
use crate::scan::{directory_of, is_candidate, is_dir_name, is_entry_name, name_taken,
    DirEntryView};
use crate::store::{cache_dir_spec, cache_path_spec};

verus! {

/// Where a lookup stands after the replies, taken in turn as long as it
/// has not ended.
pub open spec fn run_spec(step: StepView, replies: Seq<ReplyView>) -> StepView
    decreases replies.len(),
{
    match step {
        StepView::Next { resolver, .. } => if replies.len() == 0 {
            step
        } else {
            run_spec(step_spec(resolver, replies[0]), replies.skip(1))
        },
        StepView::Done { .. } => step,
    }
}

/// A lookup ends after as many replies as the rank of its phase, at most
/// eight.
pub proof fn lemma_run_ends(step: StepView, replies: Seq<ReplyView>)
    requires
        step matches StepView::Next { resolver, .. } ==> replies.len() >= rank(resolver.phase),
    ensures
        run_spec(step, replies) is Done,
    decreases replies.len(),
{
    match step {
        StepView::Next { resolver, .. } => {
            lemma_step_progress(resolver, replies[0]);
            lemma_run_ends(step_spec(resolver, replies[0]), replies.skip(1));
        },
        StepView::Done { .. } => {},
    }
}

/// The step that the reply leads to from a step that is not the end.
pub open spec fn then(step: StepView, reply: ReplyView) -> StepView {
    match step {
        StepView::Next { resolver, .. } => step_spec(resolver, reply),
        StepView::Done { .. } => step,
    }
}

/// What a step asks for, if it is not the end.
pub open spec fn asked(step: StepView) -> Option<ActionView> {
    match step {
        StepView::Next { action, .. } => Some(action),
        StepView::Done { .. } => None,
    }
}

/// Without a cache, a key that is no alias is resolved by one scan: the
/// cache file is asked for, then the worktrees, then the entries of the
/// scanned directory, and the new record is written. The key is found
/// if and only if it is a candidate of the scan, and then stands for its
/// directory, moved to the effective base.
pub proof fn lemma_lookup_without_cache(
    config: ConfigView,
    key: Seq<char>,
    cwd: Seq<char>,
    home: Option<Seq<char>>,
    user_cache: Option<Seq<char>>,
    worktrees: Seq<Seq<char>>,
    listing: Seq<DirEntryView>,
    saved: bool,
)
    requires
        key != refresh_key(),
        alias_of(config.aliases, key) is None,
    ensures
        ({
            let base = expand_tilde_spec(config.base, home);
            let file = cache_path_spec(cache_dir_spec(config.cache_dir, user_cache), config.base);
            let root = resolve_base_spec(base, worktrees, cwd);
            let target = scan_root_spec(base, config.prefix);
            let s0 = start_spec(config, CommandView::Resolve { key }, cwd, home, user_cache);
            let s1 = then(s0, ReplyView::Cache(None));
            let s2 = then(s1, ReplyView::Worktrees(worktrees));
            let s3 = then(s2, ReplyView::Listing(listing));
            let s4 = then(s3, ReplyView::Saved(saved));
            &&& asked(s0) == Some(ActionView::LoadCache { path: file })
            &&& asked(s1) == Some(ActionView::ListWorktrees { base })
            &&& asked(s2) == Some(ActionView::ScanDir { path: target })
            &&& asked(s3) == Some(
                ActionView::SaveCache {
                    path: file,
                    record: rebuilt_spec(config, base, worktrees, listing),
                },
            )
            &&& s4 == StepView::Done {
                outcome: if is_candidate(listing, config.dir_prefix, key) {
                    OutcomeView::Directory {
                        path: transform_spec(
                            join_spec(target, directory_of(listing, config.dir_prefix, key)),
                            base,
                            root,
                        ),
                        save_failed: !saved,
                    }
                } else {
                    OutcomeView::NotFound
                },
            }
        }),
{
}

/// An alias for `.` stands for the root itself: with a matching cache
/// for the matched root, without one for the effective base, and then
/// the cache is rebuilt before the root is handed out.
pub proof fn lemma_self_alias(
    config: ConfigView,
    key: Seq<char>,
    cwd: Seq<char>,
    home: Option<Seq<char>>,
    user_cache: Option<Seq<char>>,
    cached: Option<CacheRecordView>,
    worktrees: Seq<Seq<char>>,
    listing: Seq<DirEntryView>,
    saved: bool,
)
    requires
        key != refresh_key(),
        alias_of(config.aliases, key) == Some(self_name()),
    ensures
        ({
            let base = expand_tilde_spec(config.base, home);
            let s0 = start_spec(config, CommandView::Resolve { key }, cwd, home, user_cache);
            let s1 = then(s0, ReplyView::Cache(cached));
            let matched = match cached {
                Some(record) => matched_root_spec(record, cwd),
                None => None,
            };
            match matched {
                Some(root) => {
                    &&& asked(s1) == Some(ActionView::CheckDir { path: root })
                    &&& then(s1, ReplyView::IsDir(true)) == StepView::Done {
                        outcome: OutcomeView::Directory { path: root, save_failed: false },
                    }
                },
                None => {
                    let root = resolve_base_spec(base, worktrees, cwd);
                    let s2 = then(s1, ReplyView::Worktrees(worktrees));
                    let s3 = then(s2, ReplyView::IsDir(true));
                    let s4 = then(s3, ReplyView::Listing(listing));
                    let s5 = then(s4, ReplyView::Saved(saved));
                    &&& asked(s2) == Some(ActionView::CheckDir { path: root })
                    &&& asked(s3) is Some && asked(s3)->0 is ScanDir
                    &&& asked(s4) is Some && asked(s4)->0 is SaveCache
                    &&& s5 == StepView::Done {
                        outcome: OutcomeView::Directory { path: root, save_failed: !saved },
                    }
                },
            }
        }),
{
}

/// With a cache that matches the working directory, a key that is no
/// alias and that the record has is checked at its stored path, moved
/// from the record's base to the matched root, and that path is handed
/// out if it is a directory. A listing is answered by the record's
/// candidates as they stand.
pub proof fn lemma_matching_cache(
    config: ConfigView,
    key: Seq<char>,
    cwd: Seq<char>,
    home: Option<Seq<char>>,
    user_cache: Option<Seq<char>>,
    record: CacheRecordView,
)
    requires
        key != refresh_key(),
        alias_of(config.aliases, key) is None,
        matched_root_spec(record, cwd) is Some,
    ensures
        ({
            let root = matched_root_spec(record, cwd)->0;
            let s0 = start_spec(config, CommandView::Resolve { key }, cwd, home, user_cache);
            let s1 = then(s0, ReplyView::Cache(Some(record)));
            let l0 = start_spec(config, CommandView::List, cwd, home, user_cache);
            let l1 = then(l0, ReplyView::Cache(Some(record)));
            &&& l1 == StepView::Done {
                outcome: OutcomeView::Candidates {
                    candidates: record.candidates,
                    refresh_later: true,
                    save_failed: false,
                },
            }
            &&& record.paths.dom().contains(key) ==> {
                let path = transform_spec(record.paths[key], record.base, root);
                &&& asked(s1) == Some(ActionView::CheckDir { path })
                &&& then(s1, ReplyView::IsDir(true)) == StepView::Done {
                    outcome: OutcomeView::Directory { path, save_failed: false },
                }
            }
            &&& !record.paths.dom().contains(key) ==> asked(s1) is Some && asked(s1)->0
                is ListWorktrees
        }),
{
}

/// Where a lookup ends in a world that gives an answer to every action,
/// when at most `fuel` answers are taken.
pub open spec fn run_in(
    step: StepView,
    world: spec_fn(ActionView) -> ReplyView,
    fuel: nat,
) -> StepView
    decreases fuel,
{
    match step {
        StepView::Next { resolver, action } => if fuel == 0 {
            step
        } else {
            run_in(step_spec(resolver, world(action)), world, (fuel - 1) as nat)
        },
        StepView::Done { .. } => step,
    }
}

/// Whether a table of paths has both keys for the same directory, or
/// neither.
pub open spec fn treats_alike(
    paths: Map<Seq<char>, Seq<char>>,
    a: Seq<char>,
    b: Seq<char>,
) -> bool {
    paths.dom().contains(a) == paths.dom().contains(b) && (paths.dom().contains(a) ==> paths[a]
        == paths[b])
}

/// Whether the listing has a directory named `prefix + rest` and nothing
/// named `rest`.
pub open spec fn has_prefixed_only(
    listing: Seq<DirEntryView>,
    prefix: Seq<char>,
    rest: Seq<char>,
) -> bool {
    is_dir_name(listing, prefix + rest) && !name_taken(listing, rest)
}

/// Two states of lookups that differ in the key alone: one looks for a
/// directory by its full name, the other by what is left of the name
/// without the prefix.
pub open spec fn paired(
    full: ResolverView,
    short: ResolverView,
    prefix: Seq<char>,
    rest: Seq<char>,
) -> bool {
    &&& full.command == CommandView::Resolve { key: prefix + rest }
    &&& short == ResolverView { command: CommandView::Resolve { key: rest }, ..full }
    &&& full.config.dir_prefix == Some(prefix)
    &&& alias_of(full.config.aliases, prefix + rest) is None
    &&& alias_of(full.config.aliases, rest) is None
    &&& full.cached matches Some(record) ==> treats_alike(record.paths, prefix + rest, rest)
    &&& full.phase == Phase::Saving ==> (full.fresh matches Some(record)
        && record.paths.dom().contains(prefix + rest) && treats_alike(
        record.paths,
        prefix + rest,
        rest,
    ))
}

/// Whether a world treats the two keys alike: the record in the cache
/// file has both for the same directory or neither, and the scanned
/// directory holds the prefixed directory and nothing of the short name.
pub open spec fn world_fits(
    world: spec_fn(ActionView) -> ReplyView,
    r: ResolverView,
    prefix: Seq<char>,
    rest: Seq<char>,
) -> bool {
    &&& reply_cache(world(ActionView::LoadCache { path: r.cache_file })) matches Some(record)
        ==> treats_alike(record.paths, prefix + rest, rest)
    &&& has_prefixed_only(
        reply_listing(
            world(ActionView::ScanDir { path: scan_root_spec(r.base, r.config.prefix) }),
        ),
        prefix,
        rest,
    )
}

/// What a step asks for where the answer matters to both keys: the cache
/// file of this lookup, and the entries of its scanned directory.
pub open spec fn asks_in_place(r: ResolverView, action: ActionView) -> bool {
    &&& r.phase == Phase::Loading ==> action == ActionView::LoadCache { path: r.cache_file }
    &&& r.phase == Phase::Scanning ==> action == ActionView::ScanDir {
        path: scan_root_spec(r.base, r.config.prefix),
    }
}

/// One step of two paired lookups on the same answer: both end, with the
/// same directory, or both go on, paired again, and ask for the same.
pub proof fn lemma_paired_step(
    full: ResolverView,
    short: ResolverView,
    prefix: Seq<char>,
    rest: Seq<char>,
    reply: ReplyView,
)
    requires
        paired(full, short, prefix, rest),
        full.phase == Phase::Loading ==> (reply_cache(reply) matches Some(record)
            ==> treats_alike(record.paths, prefix + rest, rest)),
        full.phase == Phase::Scanning ==> has_prefixed_only(reply_listing(reply), prefix, rest),
    ensures
        match (step_spec(full, reply), step_spec(short, reply)) {
            (
                StepView::Next { resolver: a, action: x },
                StepView::Next { resolver: b, action: y },
            ) => {
                &&& x == y
                &&& paired(a, b, prefix, rest)
                &&& asks_in_place(a, x)
                &&& a.base == full.base
                &&& a.config == full.config
                &&& a.cache_file == full.cache_file
                &&& rank(a.phase) < rank(full.phase)
            },
            (StepView::Done { outcome: o1 }, StepView::Done { outcome: o2 }) => o1 == o2 && o1
                is Directory,
            _ => false,
        },
{
    if full.phase == Phase::Scanning {
        let listing = reply_listing(reply);
        assert(is_candidate(listing, full.config.dir_prefix, prefix + rest));
        assert(is_candidate(listing, full.config.dir_prefix, rest));
        assert(!is_dir_name(listing, rest)) by {
            if is_dir_name(listing, rest) {
                let i = choose|i: int|
                    0 <= i < listing.len() && (#[trigger] listing[i]).is_dir && listing[i].name
                        == rest;
                assert(is_entry_name(listing, rest));
            }
        }
    }
}

/// Two paired lookups in a world that treats their keys alike end in the
/// same directory.
pub proof fn lemma_paired_runs(
    full: ResolverView,
    short: ResolverView,
    action: ActionView,
    prefix: Seq<char>,
    rest: Seq<char>,
    world: spec_fn(ActionView) -> ReplyView,
    fuel: nat,
)
    requires
        paired(full, short, prefix, rest),
        asks_in_place(full, action),
        world_fits(world, full, prefix, rest),
        fuel >= rank(full.phase),
    ensures
        run_in(StepView::Next { resolver: full, action }, world, fuel) == run_in(
            StepView::Next { resolver: short, action },
            world,
            fuel,
        ),
        run_in(StepView::Next { resolver: full, action }, world, fuel) matches StepView::Done {
            outcome,
        } && outcome is Directory,
    decreases fuel,
{
    let reply = world(action);
    lemma_paired_step(full, short, prefix, rest, reply);
    match (step_spec(full, reply), step_spec(short, reply)) {
        (StepView::Next { resolver: a, action: x }, StepView::Next { resolver: b, action: y }) => {
            lemma_paired_runs(a, b, x, prefix, rest, world, (fuel - 1) as nat);
        },
        _ => {},
    }
}

/// A directory whose name begins with the prefix is found alike under its
/// full name and under what is left of it. In every world where the
/// scanned directory holds `prefix + rest` and nothing named `rest`, and
/// where the record in the cache file, if there is one, has both keys for
/// the same directory or neither, the two lookups end in the same
/// directory, whatever else the world answers. Neither key may be an
/// alias or the refresh key.
pub proof fn lemma_both_names_resolve_alike(
    config: ConfigView,
    prefix: Seq<char>,
    rest: Seq<char>,
    cwd: Seq<char>,
    home: Option<Seq<char>>,
    user_cache: Option<Seq<char>>,
    world: spec_fn(ActionView) -> ReplyView,
)
    requires
        config.dir_prefix == Some(prefix),
        prefix + rest != refresh_key(),
        rest != refresh_key(),
        alias_of(config.aliases, prefix + rest) is None,
        alias_of(config.aliases, rest) is None,
        ({
            let file = cache_path_spec(cache_dir_spec(config.cache_dir, user_cache), config.base);
            reply_cache(world(ActionView::LoadCache { path: file })) matches Some(record)
                ==> treats_alike(record.paths, prefix + rest, rest)
        }),
        has_prefixed_only(
            reply_listing(
                world(
                    ActionView::ScanDir {
                        path: scan_root_spec(expand_tilde_spec(config.base, home), config.prefix),
                    },
                ),
            ),
            prefix,
            rest,
        ),
    ensures
        ({
            let full = run_in(
                start_spec(config, CommandView::Resolve { key: prefix + rest }, cwd, home, user_cache),
                world,
                8,
            );
            let short = run_in(
                start_spec(config, CommandView::Resolve { key: rest }, cwd, home, user_cache),
                world,
                8,
            );
            &&& full == short
            &&& full matches StepView::Done { outcome } && outcome is Directory
        }),
{
    let s1 = start_spec(config, CommandView::Resolve { key: prefix + rest }, cwd, home, user_cache);
    let s2 = start_spec(config, CommandView::Resolve { key: rest }, cwd, home, user_cache);
    match (s1, s2) {
        (StepView::Next { resolver: a, action: x }, StepView::Next { resolver: b, action: y }) => {
            assert(x == y);
            lemma_paired_runs(a, b, x, prefix, rest, world, 8);
        },
        _ => {},
    }
}

/// A state of a lookup for `key` that has found nothing so far.
pub open spec fn seeking(r: ResolverView, key: Seq<char>) -> bool {
    &&& r.command == CommandView::Resolve { key }
    &&& r.answer is None
    &&& r.phase == Phase::Saving ==> (r.fresh matches Some(record)
        && !record.paths.dom().contains(key))
}

/// One step of a lookup that finds nothing: where the answer names no
/// directory and the scanned entries do not have the key, the lookup goes
/// on with nothing found, or ends without a directory.
pub proof fn lemma_seeking_step(r: ResolverView, key: Seq<char>, reply: ReplyView)
    requires
        seeking(r, key),
        !reply_is_dir(reply),
        r.phase == Phase::Scanning ==> !is_candidate(
            reply_listing(reply),
            r.config.dir_prefix,
            key,
        ),
    ensures
        match step_spec(r, reply) {
            StepView::Next { resolver: a, action: x } => {
                &&& seeking(a, key)
                &&& asks_in_place(a, x)
                &&& a.base == r.base
                &&& a.config == r.config
                &&& rank(a.phase) < rank(r.phase)
            },
            StepView::Done { outcome } => outcome == OutcomeView::NotFound,
        },
{
}

/// A lookup that finds nothing in a world ends without a directory.
pub proof fn lemma_seeking_run(
    r: ResolverView,
    action: ActionView,
    key: Seq<char>,
    world: spec_fn(ActionView) -> ReplyView,
    fuel: nat,
)
    requires
        seeking(r, key),
        asks_in_place(r, action),
        forall|a: ActionView| !reply_is_dir(#[trigger] world(a)),
        !is_candidate(
            reply_listing(
                world(ActionView::ScanDir { path: scan_root_spec(r.base, r.config.prefix) }),
            ),
            r.config.dir_prefix,
            key,
        ),
        fuel >= rank(r.phase),
    ensures
        run_in(StepView::Next { resolver: r, action }, world, fuel) == (StepView::Done {
            outcome: OutcomeView::NotFound,
        }),
    decreases fuel,
{
    let reply = world(action);
    let next = step_spec(r, reply);
    lemma_seeking_step(r, key, reply);
    match next {
        StepView::Next { resolver: a, action: x } => {
            lemma_seeking_run(a, x, key, world, (fuel - 1) as nat);
        },
        StepView::Done { .. } => {
            assert(run_in(next, world, (fuel - 1) as nat) == next);
        },
    }
}

/// A key that stands for nothing is not found: in every world where no
/// path that is asked about is a directory and the scanned directory has
/// no candidate of that name, the lookup ends without a directory,
/// whatever the cache holds and whether or not the key is an alias. What
/// is shown of it is the status 1 and not a line. The refresh key is no
/// such key: it asks for a refresh.
pub proof fn lemma_key_found_nowhere(
    config: ConfigView,
    key: Seq<char>,
    cwd: Seq<char>,
    home: Option<Seq<char>>,
    user_cache: Option<Seq<char>>,
    world: spec_fn(ActionView) -> ReplyView,
)
    requires
        key != refresh_key(),
        forall|a: ActionView| !reply_is_dir(#[trigger] world(a)),
        !is_candidate(
            reply_listing(
                world(
                    ActionView::ScanDir {
                        path: scan_root_spec(expand_tilde_spec(config.base, home), config.prefix),
                    },
                ),
            ),
            config.dir_prefix,
            key,
        ),
    ensures
        run_in(start_spec(config, CommandView::Resolve { key }, cwd, home, user_cache), world, 8)
            == (StepView::Done { outcome: OutcomeView::NotFound }),
        report_spec(OutcomeView::NotFound) == (ReportView {
            status: 1,
            lines: Seq::empty(),
            diagnostic: None,
        }),
{
    match start_spec(config, CommandView::Resolve { key }, cwd, home, user_cache) {
        StepView::Next { resolver, action } => {
            lemma_seeking_run(resolver, action, key, world, 8);
        },
        _ => {},
    }
}

/// Without a cache, a directory whose name begins with the prefix is found
/// under its full name and under what is left of it, and both lookups
/// hand out the same path: that of the directory, moved to the effective
/// base.
pub proof fn lemma_both_names_without_cache(
    config: ConfigView,
    prefix: Seq<char>,
    rest: Seq<char>,
    cwd: Seq<char>,
    home: Option<Seq<char>>,
    user_cache: Option<Seq<char>>,
    worktrees: Seq<Seq<char>>,
    listing: Seq<DirEntryView>,
    saved: bool,
)
    requires
        config.dir_prefix == Some(prefix),
        prefix + rest != refresh_key(),
        rest != refresh_key(),
        alias_of(config.aliases, prefix + rest) is None,
        alias_of(config.aliases, rest) is None,
        has_prefixed_only(listing, prefix, rest),
    ensures
        ({
            let base = expand_tilde_spec(config.base, home);
            let found = StepView::Done {
                outcome: OutcomeView::Directory {
                    path: transform_spec(
                        join_spec(scan_root_spec(base, config.prefix), prefix + rest),
                        base,
                        resolve_base_spec(base, worktrees, cwd),
                    ),
                    save_failed: !saved,
                },
            };
            let full = start_spec(
                config,
                CommandView::Resolve { key: prefix + rest },
                cwd,
                home,
                user_cache,
            );
            let short = start_spec(config, CommandView::Resolve { key: rest }, cwd, home, user_cache);
            let replies = seq![
                ReplyView::Cache(None),
                ReplyView::Worktrees(worktrees),
                ReplyView::Listing(listing),
                ReplyView::Saved(saved),
            ];
            &&& then(then(then(then(full, replies[0]), replies[1]), replies[2]), replies[3])
                == found
            &&& then(then(then(then(short, replies[0]), replies[1]), replies[2]), replies[3])
                == found
        }),
{
    lemma_lookup_without_cache(
        config,
        prefix + rest,
        cwd,
        home,
        user_cache,
        worktrees,
        listing,
        saved,
    );
    lemma_lookup_without_cache(config, rest, cwd, home, user_cache, worktrees, listing, saved);
    assert(!is_dir_name(listing, rest)) by {
        if is_dir_name(listing, rest) {
            let i = choose|i: int|
                0 <= i < listing.len() && (#[trigger] listing[i]).is_dir && listing[i].name == rest;
            assert(is_entry_name(listing, rest));
        }
    }
}

} // verus!
