//! The resolver: the decisions of one lookup, as a machine that names the
//! next thing to be done outside and takes the answer to it.

use vstd::prelude::*;
use crate::cache::{matched_root_spec, rebuilt_spec, refresh_cache, resolve_base,
    resolve_base_spec, rewritten_spec, scan_root_spec, CacheRecord, CacheRecordView};
use crate::config::{alias_of, Config, ConfigView};
use crate::paths::{expand_tilde_spec, expand_tilde_with, sub_path, sub_path_spec};
use crate::scan::{DirEntry, DirEntryView};
use crate::store::{cache_dir_from, cache_dir_spec, cache_path_spec, get_cache_path,
    user_cache_dir, user_home_dir};
use crate::text::{append, as_text, clone_texts, decimal, decimal_spec, same_text};

verus! {

/// What is asked of the resolver.
#[derive(Debug)]
pub enum Command {
    /// The candidates.
    List,
    /// The directory that a key stands for.
    Resolve { key: String },
    /// A new scan, whatever the cache holds.
    Refresh,
}

/// A `Command` as plain data.
pub enum CommandView {
    List,
    Resolve { key: Seq<char> },
    Refresh,
}

impl View for Command {
    type V = CommandView;

    open spec fn view(&self) -> CommandView {
        match self {
            Command::List => CommandView::List,
            Command::Resolve { key } => CommandView::Resolve { key: key@ },
            Command::Refresh => CommandView::Refresh,
        }
    }
}

/// What the caller is to do next for the resolver.
#[derive(Debug)]
pub enum Action {
    /// Read the record in the file `path`.
    LoadCache { path: String },
    /// Find out whether `path` is a directory.
    CheckDir { path: String },
    /// Ask version control for the worktrees of the project at `base`.
    ListWorktrees { base: String },
    /// Read the entries of the directory `path`.
    ScanDir { path: String },
    /// Write `record` to the file `path`.
    SaveCache { path: String, record: CacheRecord },
}

/// An `Action` as plain data.
pub enum ActionView {
    LoadCache { path: Seq<char> },
    CheckDir { path: Seq<char> },
    ListWorktrees { base: Seq<char> },
    ScanDir { path: Seq<char> },
    SaveCache { path: Seq<char>, record: CacheRecordView },
}

impl View for Action {
    type V = ActionView;

    open spec fn view(&self) -> ActionView {
        match self {
            Action::LoadCache { path } => ActionView::LoadCache { path: path@ },
            Action::CheckDir { path } => ActionView::CheckDir { path: path@ },
            Action::ListWorktrees { base } => ActionView::ListWorktrees { base: base@ },
            Action::ScanDir { path } => ActionView::ScanDir { path: path@ },
            Action::SaveCache { path, record } => ActionView::SaveCache {
                path: path@,
                record: record@,
            },
        }
    }
}

/// What came of an action.
#[derive(Debug)]
pub enum Reply {
    /// The record that was read, if there was one that could be read.
    Cache(Option<CacheRecord>),
    /// Whether the path is a directory.
    IsDir(bool),
    /// The worktrees; none where there is no version control or it failed.
    Worktrees(Vec<String>),
    /// The entries of the directory; none where it could not be read.
    Listing(Vec<DirEntry>),
    /// Whether the record was written.
    Saved(bool),
}

/// A `Reply` as plain data.
pub enum ReplyView {
    Cache(Option<CacheRecordView>),
    IsDir(bool),
    Worktrees(Seq<Seq<char>>),
    Listing(Seq<DirEntryView>),
    Saved(bool),
}

impl View for Reply {
    type V = ReplyView;

    open spec fn view(&self) -> ReplyView {
        match self {
            Reply::Cache(c) => ReplyView::Cache(c.deep_view()),
            Reply::IsDir(b) => ReplyView::IsDir(*b),
            Reply::Worktrees(w) => ReplyView::Worktrees(w.deep_view()),
            Reply::Listing(l) => ReplyView::Listing(l.deep_view()),
            Reply::Saved(b) => ReplyView::Saved(*b),
        }
    }
}

/// How a lookup ended.
#[derive(Debug)]
pub enum Outcome {
    /// The candidates. `refresh_later` asks for a refresh that nobody
    /// waits for; `save_failed` says that the new record was not written.
    Candidates { candidates: Vec<String>, refresh_later: bool, save_failed: bool },
    /// The directory that the key stands for.
    Directory { path: String, save_failed: bool },
    /// The key stands for nothing.
    NotFound,
    /// The record of a refresh, with a line that says how many worktrees
    /// were found.
    Refreshed { record: CacheRecord, message: String },
    /// The record of a refresh could not be written to `path`.
    RefreshFailed { path: String },
}

/// An `Outcome` as plain data.
pub enum OutcomeView {
    Candidates { candidates: Seq<Seq<char>>, refresh_later: bool, save_failed: bool },
    Directory { path: Seq<char>, save_failed: bool },
    NotFound,
    Refreshed { record: CacheRecordView, message: Seq<char> },
    RefreshFailed { path: Seq<char> },
}

impl View for Outcome {
    type V = OutcomeView;

    open spec fn view(&self) -> OutcomeView {
        match self {
            Outcome::Candidates { candidates, refresh_later, save_failed } => {
                OutcomeView::Candidates {
                    candidates: candidates.deep_view(),
                    refresh_later: *refresh_later,
                    save_failed: *save_failed,
                }
            },
            Outcome::Directory { path, save_failed } => OutcomeView::Directory {
                path: path@,
                save_failed: *save_failed,
            },
            Outcome::NotFound => OutcomeView::NotFound,
            Outcome::Refreshed { record, message } => OutcomeView::Refreshed {
                record: record@,
                message: message@,
            },
            Outcome::RefreshFailed { path } => OutcomeView::RefreshFailed { path: path@ },
        }
    }
}

/// What the resolver waits for.
#[derive(Clone, Copy, Debug, PartialEq, Eq, Structural)]
pub enum Phase {
    /// The record of the cache file.
    Loading,
    /// Whether the alias is a directory below the matched root.
    FastAlias,
    /// Whether the cached path, moved to the matched root, is a directory.
    FastCached,
    /// The worktrees.
    Worktrees,
    /// Whether the alias is a directory below the effective base.
    ColdAlias,
    /// Whether the cached path, moved to the effective base, is a
    /// directory.
    ColdCached,
    /// The entries of the scanned directory.
    Scanning,
    /// Whether the new record was written.
    Saving,
}

/// The state of one lookup.
#[derive(Debug)]
pub struct Resolver {
    pub config: Config,
    pub command: Command,
    /// The working directory of the caller.
    pub cwd: String,
    /// The configured base, with the home shorthand replaced.
    pub base: String,
    /// The file that holds the record of the configured base.
    pub cache_file: String,
    pub phase: Phase,
    /// The record that was read from the cache file.
    pub cached: Option<CacheRecord>,
    /// The matched root, and after the worktrees are known the effective
    /// base.
    pub root: String,
    /// The path that is being checked.
    pub pending: String,
    /// The directory of an alias that was found, to be handed out when
    /// the cache has been rebuilt.
    pub answer: Option<String>,
    /// The worktrees that version control gave.
    pub worktrees: Vec<String>,
    /// The record that this lookup built.
    pub fresh: Option<CacheRecord>,
}

/// A `Resolver` as plain data.
pub struct ResolverView {
    pub config: ConfigView,
    pub command: CommandView,
    pub cwd: Seq<char>,
    pub base: Seq<char>,
    pub cache_file: Seq<char>,
    pub phase: Phase,
    pub cached: Option<CacheRecordView>,
    pub root: Seq<char>,
    pub pending: Seq<char>,
    pub answer: Option<Seq<char>>,
    pub worktrees: Seq<Seq<char>>,
    pub fresh: Option<CacheRecordView>,
}

impl View for Resolver {
    type V = ResolverView;

    open spec fn view(&self) -> ResolverView {
        ResolverView {
            config: self.config@,
            command: self.command@,
            cwd: self.cwd@,
            base: self.base@,
            cache_file: self.cache_file@,
            phase: self.phase,
            cached: self.cached.deep_view(),
            root: self.root@,
            pending: self.pending@,
            answer: self.answer.deep_view(),
            worktrees: self.worktrees.deep_view(),
            fresh: self.fresh.deep_view(),
        }
    }
}

/// One step of a lookup: something to do and the state that waits for
/// the answer, or the end.
#[derive(Debug)]
pub enum Step {
    Next { resolver: Resolver, action: Action },
    Done { outcome: Outcome },
}

/// A `Step` as plain data.
pub enum StepView {
    Next { resolver: ResolverView, action: ActionView },
    Done { outcome: OutcomeView },
}

impl View for Step {
    type V = StepView;

    open spec fn view(&self) -> StepView {
        match self {
            Step::Next { resolver, action } => StepView::Next {
                resolver: resolver@,
                action: action@,
            },
            Step::Done { outcome } => StepView::Done { outcome: outcome@ },
        }
    }
}

/// The key that asks for a refresh in place of a lookup.
pub open spec fn refresh_key() -> Seq<char> {
    seq!['r', 'e', 'f', 'r', 'e', 's', 'h']
}

/// The record that a reply brings; none where the reply is of another
/// kind.
pub open spec fn reply_cache(reply: ReplyView) -> Option<CacheRecordView> {
    match reply {
        ReplyView::Cache(c) => c,
        _ => None,
    }
}

/// Whether a reply says that the path is a directory.
pub open spec fn reply_is_dir(reply: ReplyView) -> bool {
    reply == ReplyView::IsDir(true)
}

/// The worktrees that a reply brings; none where the reply is of another
/// kind.
pub open spec fn reply_worktrees(reply: ReplyView) -> Seq<Seq<char>> {
    match reply {
        ReplyView::Worktrees(w) => w,
        _ => Seq::empty(),
    }
}

/// The entries that a reply brings; none where the reply is of another
/// kind.
pub open spec fn reply_listing(reply: ReplyView) -> Seq<DirEntryView> {
    match reply {
        ReplyView::Listing(l) => l,
        _ => Seq::empty(),
    }
}

/// Whether a reply says that the record was written.
pub open spec fn reply_saved(reply: ReplyView) -> bool {
    reply == ReplyView::Saved(true)
}

/// The line that a refresh reports: how many worktrees were found.
pub open spec fn refresh_message_spec(worktrees: nat) -> Seq<char> {
    "refreshed: "@ + decimal_spec(worktrees) + " worktree(s)"@
}

/// The step that asks for the worktrees.
pub open spec fn go_cold(r: ResolverView) -> StepView {
    StepView::Next {
        resolver: ResolverView { phase: Phase::Worktrees, ..r },
        action: ActionView::ListWorktrees { base: r.base },
    }
}

/// The step that asks for the entries of the scanned directory.
pub open spec fn start_scan(r: ResolverView) -> StepView {
    StepView::Next {
        resolver: ResolverView { phase: Phase::Scanning, ..r },
        action: ActionView::ScanDir { path: scan_root_spec(r.base, r.config.prefix) },
    }
}

/// The step that checks the directory of an alias below `r.root`, where
/// the key is an alias.
pub open spec fn try_alias(r: ResolverView, phase: Phase) -> Option<StepView> {
    match r.command {
        CommandView::Resolve { key } => match alias_of(r.config.aliases, key) {
            Some(sub) => {
                let path = sub_path_spec(r.root, sub);
                Some(
                    StepView::Next {
                        resolver: ResolverView { phase, pending: path, ..r },
                        action: ActionView::CheckDir { path },
                    },
                )
            },
            None => None,
        },
        _ => None,
    }
}

/// The step that checks the directory that the cached record has for the
/// key, moved from below `from` to below `r.root`, where the record has
/// the key.
pub open spec fn try_cached(r: ResolverView, from: Seq<char>, phase: Phase) -> Option<StepView> {
    match (r.command, r.cached) {
        (CommandView::Resolve { key }, Some(record)) => match rewritten_spec(
            record.paths,
            key,
            from,
            r.root,
        ) {
            Some(path) => Some(
                StepView::Next {
                    resolver: ResolverView { phase, pending: path, ..r },
                    action: ActionView::CheckDir { path },
                },
            ),
            None => None,
        },
        _ => None,
    }
}

/// After a miss of the alias on the fast path: the cached path, else the
/// cold path.
pub open spec fn fast_cached(r: ResolverView) -> StepView {
    match r.cached {
        Some(record) => match try_cached(r, record.base, Phase::FastCached) {
            Some(step) => step,
            None => go_cold(r),
        },
        None => go_cold(r),
    }
}

/// After a miss of the alias on the cold path: the cached path, else a
/// new scan.
pub open spec fn cold_cached(r: ResolverView) -> StepView {
    match try_cached(r, r.base, Phase::ColdCached) {
        Some(step) => step,
        None => start_scan(r),
    }
}

/// The step after the cache file was read. A record that matches the
/// working directory answers a listing at once, and is asked first for a
/// key; without one the cold path begins.
pub open spec fn after_cache(r: ResolverView, cached: Option<CacheRecordView>) -> StepView {
    let r = ResolverView { cached, ..r };
    match cached {
        Some(record) => match matched_root_spec(record, r.cwd) {
            Some(root) => {
                let r = ResolverView { root, ..r };
                match r.command {
                    CommandView::List => StepView::Done {
                        outcome: OutcomeView::Candidates {
                            candidates: record.candidates,
                            refresh_later: true,
                            save_failed: false,
                        },
                    },
                    CommandView::Resolve { key } => match try_alias(r, Phase::FastAlias) {
                        Some(step) => step,
                        None => fast_cached(r),
                    },
                    CommandView::Refresh => go_cold(r),
                }
            },
            None => go_cold(r),
        },
        None => go_cold(r),
    }
}

/// The step after the worktrees are known: the effective base is fixed,
/// and a key is tried as an alias, then in the cached record, before the
/// directory is scanned.
pub open spec fn after_worktrees(r: ResolverView, worktrees: Seq<Seq<char>>) -> StepView {
    let root = resolve_base_spec(r.base, worktrees, r.cwd);
    let r = ResolverView { worktrees, root, ..r };
    match try_alias(r, Phase::ColdAlias) {
        Some(step) => step,
        None => cold_cached(r),
    }
}

/// The step after the directory was scanned: the new record is to be
/// written.
pub open spec fn after_scan(r: ResolverView, listing: Seq<DirEntryView>) -> StepView {
    let record = rebuilt_spec(r.config, r.base, r.worktrees, listing);
    StepView::Next {
        resolver: ResolverView { phase: Phase::Saving, fresh: Some(record), ..r },
        action: ActionView::SaveCache { path: r.cache_file, record },
    }
}

/// The end of a lookup that built a new record.
pub open spec fn after_save(r: ResolverView, saved: bool) -> OutcomeView {
    match r.fresh {
        Some(record) => match r.command {
            CommandView::Refresh => if saved {
                OutcomeView::Refreshed {
                    record,
                    message: refresh_message_spec(record.worktrees.len()),
                }
            } else {
                OutcomeView::RefreshFailed { path: r.cache_file }
            },
            CommandView::List => OutcomeView::Candidates {
                candidates: record.candidates,
                refresh_later: false,
                save_failed: !saved,
            },
            CommandView::Resolve { key } => match r.answer {
                Some(path) => OutcomeView::Directory { path, save_failed: !saved },
                None => match rewritten_spec(record.paths, key, r.base, r.root) {
                    Some(path) => OutcomeView::Directory { path, save_failed: !saved },
                    None => OutcomeView::NotFound,
                },
            },
        },
        None => OutcomeView::NotFound,
    }
}

/// The step that a reply leads to.
pub open spec fn step_spec(r: ResolverView, reply: ReplyView) -> StepView {
    match r.phase {
        Phase::Loading => after_cache(r, reply_cache(reply)),
        Phase::FastAlias => if reply_is_dir(reply) {
            StepView::Done { outcome: OutcomeView::Directory { path: r.pending, save_failed: false } }
        } else {
            fast_cached(r)
        },
        Phase::FastCached => if reply_is_dir(reply) {
            StepView::Done { outcome: OutcomeView::Directory { path: r.pending, save_failed: false } }
        } else {
            go_cold(r)
        },
        Phase::Worktrees => after_worktrees(r, reply_worktrees(reply)),
        Phase::ColdAlias => if reply_is_dir(reply) {
            start_scan(ResolverView { answer: Some(r.pending), ..r })
        } else {
            cold_cached(r)
        },
        Phase::ColdCached => if reply_is_dir(reply) {
            StepView::Done { outcome: OutcomeView::Directory { path: r.pending, save_failed: false } }
        } else {
            start_scan(r)
        },
        Phase::Scanning => after_scan(r, reply_listing(reply)),
        Phase::Saving => StepView::Done { outcome: after_save(r, reply_saved(reply)) },
    }
}

/// How far a lookup is from its end: each step leads to a phase of lower
/// rank, or to the end.
pub open spec fn rank(phase: Phase) -> nat {
    match phase {
        Phase::Loading => 8,
        Phase::FastAlias => 7,
        Phase::FastCached => 6,
        Phase::Worktrees => 5,
        Phase::ColdAlias => 4,
        Phase::ColdCached => 3,
        Phase::Scanning => 2,
        Phase::Saving => 1,
    }
}

/// The phase that waits for the answer to an action.
pub open spec fn action_fits(action: ActionView, phase: Phase) -> bool {
    match action {
        ActionView::LoadCache { .. } => phase == Phase::Loading,
        ActionView::CheckDir { .. } => phase == Phase::FastAlias || phase == Phase::FastCached
            || phase == Phase::ColdAlias || phase == Phase::ColdCached,
        ActionView::ListWorktrees { .. } => phase == Phase::Worktrees,
        ActionView::ScanDir { .. } => phase == Phase::Scanning,
        ActionView::SaveCache { .. } => phase == Phase::Saving,
    }
}

/// Every step brings a lookup nearer to its end, and asks for what the
/// new phase waits for. So the directory is scanned at most once, and
/// nothing is tried twice.
pub proof fn lemma_step_progress(r: ResolverView, reply: ReplyView)
    ensures
        step_spec(r, reply) matches StepView::Next { resolver, action } ==> rank(resolver.phase)
            < rank(r.phase) && action_fits(action, resolver.phase),
{
}

/// The command that is carried out: a key that is the refresh key asks
/// for a refresh.
pub open spec fn effective_command(command: CommandView) -> CommandView {
    match command {
        CommandView::Resolve { key } => if key == refresh_key() {
            CommandView::Refresh
        } else {
            command
        },
        _ => command,
    }
}

/// The first step of a lookup. A refresh begins with the worktrees, the
/// other commands with the cache file of the configured base.
pub open spec fn start_spec(
    config: ConfigView,
    command: CommandView,
    cwd: Seq<char>,
    home: Option<Seq<char>>,
    user_cache: Option<Seq<char>>,
) -> StepView {
    let r = ResolverView {
        config,
        command: effective_command(command),
        cwd,
        base: expand_tilde_spec(config.base, home),
        cache_file: cache_path_spec(cache_dir_spec(config.cache_dir, user_cache), config.base),
        phase: Phase::Loading,
        cached: None,
        root: Seq::empty(),
        pending: Seq::empty(),
        answer: None,
        worktrees: Seq::empty(),
        fresh: None,
    };
    if r.command is Refresh {
        go_cold(r)
    } else {
        StepView::Next { resolver: r, action: ActionView::LoadCache { path: r.cache_file } }
    }
}

/// The line that a refresh reports.
pub fn refresh_message(worktrees: usize) -> (s: String)
    ensures
        s@ == refresh_message_spec(worktrees as nat),
{
    let number = decimal(worktrees);
    let mut s = append("refreshed: ", number.as_str());
    s.append(" worktree(s)");
    s
}

/// Whether `key` asks for a refresh.
pub fn is_refresh_key(key: &str) -> (r: bool)
    ensures
        r == (key@ == refresh_key()),
{
    proof {
        reveal_strlit("refresh");
        assert("refresh"@ =~= refresh_key());
    }
    same_text(key, "refresh")
}

/// Whether the reply says that the path is a directory.
fn is_dir_reply(reply: &Reply) -> (r: bool)
    ensures
        r == reply_is_dir(reply@),
{
    match reply {
        Reply::IsDir(b) => *b,
        _ => false,
    }
}

/// Asks for the worktrees.
fn step_go_cold(r: Resolver) -> (step: Step)
    ensures
        step@ == go_cold(r@),
{
    let mut r = r;
    r.phase = Phase::Worktrees;
    let base = r.base.clone();
    Step::Next { resolver: r, action: Action::ListWorktrees { base } }
}

/// Asks for the entries of the scanned directory.
fn step_start_scan(r: Resolver) -> (step: Step)
    ensures
        step@ == start_scan(r@),
{
    let mut r = r;
    r.phase = Phase::Scanning;
    let path = sub_path(r.base.as_str(), r.config.prefix.as_str());
    Step::Next { resolver: r, action: Action::ScanDir { path } }
}

/// The directory of the alias below the root, where the key is an alias.
fn alias_path(r: &Resolver) -> (path: Option<String>)
    ensures
        path.deep_view() == (match r@.command {
            CommandView::Resolve { key } => match alias_of(r@.config.aliases, key) {
                Some(sub) => Some(sub_path_spec(r@.root, sub)),
                None => None,
            },
            _ => None,
        }),
{
    match &r.command {
        Command::Resolve { key } => match r.config.alias(key.as_str()) {
            Some(sub) => Some(sub_path(r.root.as_str(), sub.as_str())),
            None => None,
        },
        _ => None,
    }
}

/// The directory that the cached record has for the key, moved from
/// below `from` to below the root.
fn cached_path(r: &Resolver, from: &str) -> (path: Option<String>)
    ensures
        path.deep_view() == (match (r@.command, r@.cached) {
            (CommandView::Resolve { key }, Some(record)) => rewritten_spec(
                record.paths,
                key,
                from@,
                r@.root,
            ),
            _ => None,
        }),
{
    match &r.command {
        Command::Resolve { key } => match &r.cached {
            Some(record) => record.lookup(key.as_str(), from, r.root.as_str()),
            None => None,
        },
        _ => None,
    }
}

/// Asks whether `path` is a directory, and waits for the answer in
/// `phase`.
fn step_check(r: Resolver, phase: Phase, path: String) -> (step: Step)
    ensures
        step@ == (StepView::Next {
            resolver: ResolverView { phase, pending: path@, ..r@ },
            action: ActionView::CheckDir { path: path@ },
        }),
{
    let mut r = r;
    r.phase = phase;
    r.pending = path.clone();
    Step::Next { resolver: r, action: Action::CheckDir { path } }
}

/// Tries the cached record at the matched root, else begins the cold
/// path.
fn step_fast_cached(r: Resolver) -> (step: Step)
    ensures
        step@ == fast_cached(r@),
{
    let from = match &r.cached {
        Some(record) => record.base.clone(),
        None => {
            return step_go_cold(r);
        },
    };
    match cached_path(&r, from.as_str()) {
        Some(path) => step_check(r, Phase::FastCached, path),
        None => step_go_cold(r),
    }
}

/// Tries the cached record at the effective base, else begins the scan.
fn step_cold_cached(r: Resolver) -> (step: Step)
    ensures
        step@ == cold_cached(r@),
{
    let from = r.base.clone();
    match cached_path(&r, from.as_str()) {
        Some(path) => step_check(r, Phase::ColdCached, path),
        None => step_start_scan(r),
    }
}

/// Takes the record that was read, if any.
fn step_after_cache(r: Resolver, cached: Option<CacheRecord>) -> (step: Step)
    ensures
        step@ == after_cache(r@, cached.deep_view()),
{
    let mut r = r;
    let root = match &cached {
        Some(record) => record.matched_root(r.cwd.as_str()),
        None => None,
    };
    r.cached = cached;
    match root {
        Some(root) => {
            r.root = root;
            match &r.command {
                Command::List => {
                    let candidates = match &r.cached {
                        Some(record) => record.candidates(),
                        None => Vec::new(),
                    };
                    Step::Done {
                        outcome: Outcome::Candidates {
                            candidates,
                            refresh_later: true,
                            save_failed: false,
                        },
                    }
                },
                Command::Resolve { .. } => match alias_path(&r) {
                    Some(path) => step_check(r, Phase::FastAlias, path),
                    None => step_fast_cached(r),
                },
                Command::Refresh => step_go_cold(r),
            }
        },
        None => step_go_cold(r),
    }
}

/// Takes the worktrees and fixes the effective base.
fn step_after_worktrees(r: Resolver, worktrees: Vec<String>) -> (step: Step)
    ensures
        step@ == after_worktrees(r@, worktrees.deep_view()),
{
    let mut r = r;
    r.root = resolve_base(r.base.as_str(), &worktrees, r.cwd.as_str());
    r.worktrees = worktrees;
    match alias_path(&r) {
        Some(path) => step_check(r, Phase::ColdAlias, path),
        None => step_cold_cached(r),
    }
}

/// Builds the new record from the entries and asks for it to be written.
fn step_after_scan(r: Resolver, listing: Vec<DirEntry>) -> (step: Step)
    ensures
        step@ == after_scan(r@, listing.deep_view()),
{
    let mut r = r;
    let worktrees = clone_texts(&r.worktrees);
    let record = refresh_cache(&r.config, r.base.as_str(), worktrees, &listing);
    let path = r.cache_file.clone();
    r.phase = Phase::Saving;
    r.fresh = Some(record.clone());
    Step::Next { resolver: r, action: Action::SaveCache { path, record } }
}

/// Ends a lookup that built a new record.
fn outcome_after_save(r: Resolver, saved: bool) -> (outcome: Outcome)
    ensures
        outcome@ == after_save(r@, saved),
{
    let Resolver { command, base, cache_file, root, answer, fresh, .. } = r;
    match fresh {
        Some(record) => match command {
            Command::Refresh => if saved {
                let message = refresh_message(record.worktrees.len());
                Outcome::Refreshed { record, message }
            } else {
                Outcome::RefreshFailed { path: cache_file }
            },
            Command::List => Outcome::Candidates {
                candidates: record.candidates(),
                refresh_later: false,
                save_failed: !saved,
            },
            Command::Resolve { key } => match answer {
                Some(path) => Outcome::Directory { path, save_failed: !saved },
                None => match record.lookup(key.as_str(), base.as_str(), root.as_str()) {
                    Some(path) => Outcome::Directory { path, save_failed: !saved },
                    None => Outcome::NotFound,
                },
            },
        },
        None => Outcome::NotFound,
    }
}

impl Resolver {
    /// Begins a lookup, given the home directory and the cache directory
    /// of the user as far as they are known.
    pub fn start_with(
        config: Config,
        command: Command,
        cwd: String,
        home: Option<&str>,
        user_cache: Option<&str>,
    ) -> (step: Step)
        ensures
            step@ == start_spec(config@, command@, cwd@, home.deep_view(), user_cache.deep_view()),
    {
        let command = match command {
            Command::Resolve { key } => if is_refresh_key(key.as_str()) {
                Command::Refresh
            } else {
                Command::Resolve { key }
            },
            Command::List => Command::List,
            Command::Refresh => Command::Refresh,
        };
        let base = expand_tilde_with(config.base.as_str(), home);
        let cache_dir = cache_dir_from(as_text(&config.cache_dir), user_cache);
        let cache_file = get_cache_path(cache_dir.as_str(), config.base.as_str());
        let refresh = match &command {
            Command::Refresh => true,
            _ => false,
        };
        let r = Resolver {
            config,
            command,
            cwd,
            base,
            cache_file,
            phase: Phase::Loading,
            cached: None,
            root: String::new(),
            pending: String::new(),
            answer: None,
            worktrees: Vec::new(),
            fresh: None,
        };
        assert(r.worktrees.deep_view() =~= Seq::<Seq<char>>::empty());
        if refresh {
            step_go_cold(r)
        } else {
            let path = r.cache_file.clone();
            Step::Next { resolver: r, action: Action::LoadCache { path } }
        }
    }

    /// Begins a lookup. The home directory and the cache directory of the
    /// user are asked of the environment.
    pub fn start(config: Config, command: Command, cwd: String) -> (step: Step)
        ensures
            exists|home: Option<Seq<char>>, user_cache: Option<Seq<char>>|
                step@ == start_spec(config@, command@, cwd@, home, user_cache),
    {
        let home = user_home_dir();
        let user_cache = user_cache_dir();
        let step = Resolver::start_with(config, command, cwd, as_text(&home), as_text(&user_cache));
        assert(step@ == start_spec(
            config@,
            command@,
            cwd@,
            home.deep_view(),
            user_cache.deep_view(),
        ));
        step
    }

    /// Takes the answer to the action that this state waits for, and
    /// gives the next step. An answer of another kind than the one
    /// awaited counts as no data.
    pub fn step(self, reply: Reply) -> (step: Step)
        ensures
            step@ == step_spec(self@, reply@),
            step matches Step::Next { resolver, action } ==> rank(resolver.phase) < rank(
                self.phase,
            ) && action_fits(action@, resolver.phase),
    {
        proof {
            lemma_step_progress(self@, reply@);
        }
        match self.phase {
            Phase::Loading => {
                let cached = match reply {
                    Reply::Cache(c) => c,
                    _ => None,
                };
                step_after_cache(self, cached)
            },
            Phase::FastAlias => {
                if is_dir_reply(&reply) {
                    Step::Done { outcome: Outcome::Directory { path: self.pending, save_failed: false } }
                } else {
                    step_fast_cached(self)
                }
            },
            Phase::FastCached => {
                if is_dir_reply(&reply) {
                    Step::Done { outcome: Outcome::Directory { path: self.pending, save_failed: false } }
                } else {
                    step_go_cold(self)
                }
            },
            Phase::Worktrees => {
                let ghost wanted = reply_worktrees(reply@);
                let worktrees = match reply {
                    Reply::Worktrees(w) => w,
                    _ => Vec::new(),
                };
                assert(worktrees.deep_view() =~= wanted);
                step_after_worktrees(self, worktrees)
            },
            Phase::ColdAlias => {
                if is_dir_reply(&reply) {
                    let mut r = self;
                    r.answer = Some(r.pending.clone());
                    step_start_scan(r)
                } else {
                    step_cold_cached(self)
                }
            },
            Phase::ColdCached => {
                if is_dir_reply(&reply) {
                    Step::Done { outcome: Outcome::Directory { path: self.pending, save_failed: false } }
                } else {
                    step_start_scan(self)
                }
            },
            Phase::Scanning => {
                let ghost wanted = reply_listing(reply@);
                let listing = match reply {
                    Reply::Listing(l) => l,
                    _ => Vec::new(),
                };
                assert(listing.deep_view() =~= wanted);
                step_after_scan(self, listing)
            },
            Phase::Saving => {
                let saved = match reply {
                    Reply::Saved(b) => b,
                    _ => false,
                };
                Step::Done { outcome: outcome_after_save(self, saved) }
            },
        }
    }
}

/// Begins a listing of the candidates.
pub fn cmd_list(config: Config, cwd: String) -> (step: Step)
    ensures
        exists|home: Option<Seq<char>>, user_cache: Option<Seq<char>>|
            step@ == start_spec(config@, CommandView::List, cwd@, home, user_cache),
{
    Resolver::start(config, Command::List, cwd)
}

/// Begins the lookup of `key`.
pub fn cmd_resolve(config: Config, key: String, cwd: String) -> (step: Step)
    ensures
        exists|home: Option<Seq<char>>, user_cache: Option<Seq<char>>|
            step@ == start_spec(config@, CommandView::Resolve { key: key@ }, cwd@, home, user_cache),
{
    Resolver::start(config, Command::Resolve { key }, cwd)
}

/// Begins a refresh of the cache.
pub fn cmd_refresh(config: Config, cwd: String) -> (step: Step)
    ensures
        exists|home: Option<Seq<char>>, user_cache: Option<Seq<char>>|
            step@ == start_spec(config@, CommandView::Refresh, cwd@, home, user_cache),
{
    Resolver::start(config, Command::Refresh, cwd)
}

} // verus!
