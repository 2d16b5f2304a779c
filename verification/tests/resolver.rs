use switch_dir::cache::{refresh_cache, CacheRecord};
use switch_dir::config::{Alias, Config};
use switch_dir::resolver::{
    cmd_list, cmd_refresh, cmd_resolve, is_refresh_key, refresh_message, Action, Command, Outcome,
    Phase, Reply, Resolver, Step,
};
use switch_dir::scan::DirEntry;

/// What stands outside the resolver in a test: the directories, the
/// stored record, the worktrees, and a log of what was asked.
struct World {
    dirs: Vec<String>,
    listing: Vec<DirEntry>,
    stored: Option<CacheRecord>,
    worktrees: Vec<String>,
    save_works: bool,
    log: Vec<String>,
    saved: Option<CacheRecord>,
}

fn dir(name: &str) -> DirEntry {
    DirEntry { name: name.to_string(), is_dir: true }
}

fn texts(v: &[&str]) -> Vec<String> {
    v.iter().map(|s| s.to_string()).collect()
}

fn services_listing() -> Vec<DirEntry> {
    vec![dir("svc-api"), dir("svc-web"), dir("docs")]
}

fn services_config() -> Config {
    Config {
        base: "/proj".to_string(),
        prefix: "services".to_string(),
        dir_prefix: Some("svc-".to_string()),
        aliases: Vec::new(),
        cache_dir: Some("/cache".to_string()),
    }
}

fn services_world() -> World {
    World {
        dirs: texts(&[
            "/proj",
            "/proj/services",
            "/proj/services/svc-api",
            "/proj/services/svc-web",
            "/proj/services/docs",
        ]),
        listing: services_listing(),
        stored: None,
        worktrees: Vec::new(),
        save_works: true,
        log: Vec::new(),
        saved: None,
    }
}

fn services_record() -> CacheRecord {
    refresh_cache(&services_config(), "/proj", Vec::new(), &services_listing())
}

fn answer(world: &mut World, action: Action) -> Reply {
    match action {
        Action::LoadCache { path } => {
            world.log.push(format!("load {}", path));
            Reply::Cache(world.stored.clone())
        }
        Action::CheckDir { path } => {
            world.log.push(format!("check {}", path));
            Reply::IsDir(world.dirs.contains(&path))
        }
        Action::ListWorktrees { base } => {
            world.log.push(format!("worktrees {}", base));
            Reply::Worktrees(world.worktrees.clone())
        }
        Action::ScanDir { path } => {
            world.log.push(format!("scan {}", path));
            Reply::Listing(world.listing.clone())
        }
        Action::SaveCache { path, record } => {
            world.log.push(format!("save {}", path));
            if world.save_works {
                world.saved = Some(record);
            }
            Reply::Saved(world.save_works)
        }
    }
}

fn drive(mut step: Step, world: &mut World) -> Outcome {
    let mut replies = 0;
    loop {
        match step {
            Step::Done { outcome } => return outcome,
            Step::Next { resolver, action } => {
                replies += 1;
                assert!(replies <= 8, "more than eight replies: {:?}", world.log);
                let reply = answer(world, action);
                step = resolver.step(reply);
            }
        }
    }
}

fn resolve(config: Config, key: &str, cwd: &str, world: &mut World) -> Outcome {
    let command = Command::Resolve { key: key.to_string() };
    drive(Resolver::start_with(config, command, cwd.to_string(), Some("/home/alice"), None), world)
}

fn list(config: Config, cwd: &str, world: &mut World) -> Outcome {
    drive(
        Resolver::start_with(config, Command::List, cwd.to_string(), Some("/home/alice"), None),
        world,
    )
}

fn refresh(config: Config, cwd: &str, world: &mut World) -> Outcome {
    drive(
        Resolver::start_with(config, Command::Refresh, cwd.to_string(), Some("/home/alice"), None),
        world,
    )
}

fn directory(outcome: &Outcome) -> Option<&str> {
    match outcome {
        Outcome::Directory { path, .. } => Some(path.as_str()),
        _ => None,
    }
}

#[test]
fn without_a_cache_a_key_is_resolved_by_a_scan() {
    let mut world = services_world();
    let outcome = resolve(services_config(), "api", "/proj", &mut world);
    assert_eq!(directory(&outcome), Some("/proj/services/svc-api"));
    assert_eq!(
        world.log,
        vec!["load /cache/_sproj.json", "worktrees /proj", "scan /proj/services", "save /cache/_sproj.json"]
    );
    let saved = world.saved.unwrap();
    assert_eq!(saved.base, "/proj");
    assert_eq!(saved.candidates(), vec!["api", "docs", "svc-api", "svc-web", "web"]);
}

#[test]
fn a_key_that_stands_for_nothing_is_not_found() {
    let mut world = services_world();
    let outcome = resolve(services_config(), "nothing", "/proj", &mut world);
    assert!(matches!(outcome, Outcome::NotFound));
    let report = outcome.report();
    assert_eq!(report.status, 1);
    assert!(report.lines.is_empty());
    assert_eq!(report.diagnostic, None);
    assert!(world.log.contains(&"scan /proj/services".to_string()));
}

#[test]
fn a_miss_with_a_matching_cache_comes_after_a_scan() {
    let mut world = services_world();
    world.stored = Some(services_record());
    let outcome = resolve(services_config(), "nothing", "/proj/services", &mut world);
    assert!(matches!(outcome, Outcome::NotFound));
    assert_eq!(
        world.log,
        vec!["load /cache/_sproj.json", "worktrees /proj", "scan /proj/services", "save /cache/_sproj.json"]
    );
}

#[test]
fn the_self_alias_is_the_effective_base() {
    let mut config = services_config();
    config.aliases = vec![Alias { key: "home".to_string(), sub_path: ".".to_string() }];
    let mut world = services_world();
    let outcome = resolve(config, "home", "/elsewhere", &mut world);
    assert_eq!(directory(&outcome), Some("/proj"));
    assert_eq!(
        world.log,
        vec![
            "load /cache/_sproj.json",
            "worktrees /proj",
            "check /proj",
            "scan /proj/services",
            "save /cache/_sproj.json"
        ]
    );
    assert!(world.saved.is_some());
}

#[test]
fn the_self_alias_in_a_worktree_is_that_worktree() {
    let mut config = services_config();
    config.aliases = vec![Alias { key: "home".to_string(), sub_path: ".".to_string() }];
    let mut world = services_world();
    world.worktrees = texts(&["/proj-wt"]);
    world.dirs.push("/proj-wt".to_string());
    let outcome = resolve(config, "home", "/proj-wt/services", &mut world);
    assert_eq!(directory(&outcome), Some("/proj-wt"));
}

#[test]
fn a_matching_cache_answers_an_alias_at_once() {
    let mut config = services_config();
    config.aliases = vec![Alias { key: "d".to_string(), sub_path: "services/docs".to_string() }];
    let mut world = services_world();
    world.stored = Some(services_record());
    let outcome = resolve(config, "d", "/proj/services", &mut world);
    assert_eq!(directory(&outcome), Some("/proj/services/docs"));
    assert_eq!(world.log, vec!["load /cache/_sproj.json", "check /proj/services/docs"]);
}

#[test]
fn an_alias_that_is_no_directory_gives_way_to_the_cache() {
    let mut config = services_config();
    config.aliases = vec![Alias { key: "api".to_string(), sub_path: "gone".to_string() }];
    let mut world = services_world();
    world.stored = Some(services_record());
    let outcome = resolve(config, "api", "/proj", &mut world);
    assert_eq!(directory(&outcome), Some("/proj/services/svc-api"));
    assert_eq!(
        world.log,
        vec!["load /cache/_sproj.json", "check /proj/gone", "check /proj/services/svc-api"]
    );
}

#[test]
fn a_matching_cache_answers_a_key_without_a_scan() {
    let mut world = services_world();
    world.stored = Some(services_record());
    let outcome = resolve(services_config(), "web", "/proj/services/docs", &mut world);
    assert_eq!(directory(&outcome), Some("/proj/services/svc-web"));
    assert_eq!(world.log, vec!["load /cache/_sproj.json", "check /proj/services/svc-web"]);
    match outcome {
        Outcome::Directory { save_failed, .. } => assert!(!save_failed),
        _ => unreachable!(),
    }
}

#[test]
fn in_a_worktree_the_cached_path_is_moved_there() {
    let mut world = services_world();
    world.stored =
        Some(refresh_cache(&services_config(), "/proj", texts(&["/wt"]), &services_listing()));
    world.dirs.push("/wt/services/svc-api".to_string());
    let outcome = resolve(services_config(), "api", "/wt/services", &mut world);
    assert_eq!(directory(&outcome), Some("/wt/services/svc-api"));
    assert_eq!(world.log, vec!["load /cache/_sproj.json", "check /wt/services/svc-api"]);
}

#[test]
fn in_a_worktree_beside_the_base_the_cached_path_is_moved_there() {
    let mut config = services_config();
    config.base = "/repo".to_string();
    config.prefix = "sub".to_string();
    config.dir_prefix = None;
    let mut world = services_world();
    world.stored = Some(refresh_cache(&config, "/repo", texts(&["/repo-wt"]), &vec![dir("x")]));
    world.dirs = texts(&["/repo", "/repo/sub", "/repo/sub/x", "/repo-wt", "/repo-wt/sub/x"]);
    let outcome = resolve(config, "x", "/repo-wt/sub", &mut world);
    assert_eq!(directory(&outcome), Some("/repo-wt/sub/x"));
    assert_eq!(world.log, vec!["load /cache/_srepo.json", "check /repo-wt/sub/x"]);
}

#[test]
fn on_the_cold_path_a_worktree_beside_the_base_is_the_effective_base() {
    let mut config = services_config();
    config.base = "/repo".to_string();
    config.prefix = "sub".to_string();
    config.dir_prefix = None;
    let mut world = services_world();
    world.worktrees = texts(&["/repo", "/repo-wt"]);
    world.listing = vec![dir("x")];
    let outcome = resolve(config, "x", "/repo-wt/sub", &mut world);
    assert_eq!(directory(&outcome), Some("/repo-wt/sub/x"));
    assert_eq!(
        world.log,
        vec!["load /cache/_srepo.json", "worktrees /repo", "scan /repo/sub", "save /cache/_srepo.json"]
    );
}

#[test]
fn both_names_of_a_directory_resolve_alike_without_a_cache() {
    for cwd in ["/proj", "/elsewhere", "/proj/services/docs"].iter() {
        let mut world = services_world();
        let full = resolve(services_config(), "svc-api", cwd, &mut world);
        let mut world = services_world();
        let short = resolve(services_config(), "api", cwd, &mut world);
        assert_eq!(directory(&full), Some("/proj/services/svc-api"));
        assert_eq!(directory(&short), Some("/proj/services/svc-api"));
    }
}

#[test]
fn both_names_of_a_directory_resolve_alike_with_a_cache() {
    for cwd in ["/proj", "/elsewhere", "/proj/services/docs"].iter() {
        let mut world = services_world();
        world.stored = Some(services_record());
        let full = resolve(services_config(), "svc-web", cwd, &mut world);
        let mut world = services_world();
        world.stored = Some(services_record());
        let short = resolve(services_config(), "web", cwd, &mut world);
        assert_eq!(directory(&full), Some("/proj/services/svc-web"));
        assert_eq!(directory(&short), Some("/proj/services/svc-web"));
    }
}

#[test]
fn both_names_of_a_new_directory_resolve_alike_with_an_older_cache() {
    let older = refresh_cache(&services_config(), "/proj", Vec::new(), &vec![dir("docs")]);
    for cwd in ["/proj", "/elsewhere"].iter() {
        let mut world = services_world();
        world.stored = Some(older.clone());
        let full = resolve(services_config(), "svc-api", cwd, &mut world);
        let mut world = services_world();
        world.stored = Some(older.clone());
        let short = resolve(services_config(), "api", cwd, &mut world);
        assert_eq!(directory(&full), Some("/proj/services/svc-api"));
        assert_eq!(directory(&short), Some("/proj/services/svc-api"));
    }
}

#[test]
fn both_names_resolve_alike_in_a_worktree() {
    let record =
        refresh_cache(&services_config(), "/proj", texts(&["/proj-wt"]), &services_listing());
    let mut world = services_world();
    world.stored = Some(record.clone());
    world.worktrees = texts(&["/proj", "/proj-wt"]);
    world.dirs.push("/proj-wt/services/svc-api".to_string());
    let full = resolve(services_config(), "svc-api", "/proj-wt/services", &mut world);
    world.log.clear();
    let short = resolve(services_config(), "api", "/proj-wt/services", &mut world);
    assert_eq!(directory(&full), Some("/proj-wt/services/svc-api"));
    assert_eq!(directory(&short), Some("/proj-wt/services/svc-api"));
}

#[test]
fn a_cached_path_that_is_gone_leads_to_a_scan() {
    let mut world = services_world();
    world.stored = Some(services_record());
    world.dirs.retain(|d| d != "/proj/services/svc-api");
    world.listing = vec![dir("svc-web"), dir("docs")];
    let outcome = resolve(services_config(), "api", "/proj", &mut world);
    assert!(matches!(outcome, Outcome::NotFound));
    assert_eq!(
        world.log,
        vec![
            "load /cache/_sproj.json",
            "check /proj/services/svc-api",
            "worktrees /proj",
            "check /proj/services/svc-api",
            "scan /proj/services",
            "save /cache/_sproj.json"
        ]
    );
    assert_eq!(world.saved.unwrap().candidates(), vec!["docs", "svc-web", "web"]);
}

#[test]
fn a_cache_that_does_not_match_is_still_asked_on_the_cold_path() {
    let mut world = services_world();
    world.stored = Some(services_record());
    let outcome = resolve(services_config(), "docs", "/elsewhere", &mut world);
    assert_eq!(directory(&outcome), Some("/proj/services/docs"));
    assert_eq!(
        world.log,
        vec!["load /cache/_sproj.json", "worktrees /proj", "check /proj/services/docs"]
    );
}

#[test]
fn on_the_cold_path_the_fresh_path_is_moved_to_the_worktree() {
    let mut world = services_world();
    world.worktrees = texts(&["/proj-wt"]);
    let outcome = resolve(services_config(), "api", "/proj-wt/x", &mut world);
    assert_eq!(directory(&outcome), Some("/proj-wt/services/svc-api"));
    assert_eq!(world.saved.unwrap().worktrees, vec!["/proj-wt"]);
}

#[test]
fn a_listing_from_a_matching_cache_asks_for_a_refresh_later() {
    let mut world = services_world();
    world.stored = Some(services_record());
    let outcome = list(services_config(), "/proj/services", &mut world);
    match &outcome {
        Outcome::Candidates { candidates, refresh_later, save_failed } => {
            assert_eq!(candidates, &vec!["api", "docs", "svc-api", "svc-web", "web"]);
            assert!(*refresh_later);
            assert!(!*save_failed);
        }
        other => panic!("{:?}", other),
    }
    assert_eq!(world.log, vec!["load /cache/_sproj.json"]);
    let report = outcome.report();
    assert_eq!(report.status, 0);
    assert_eq!(report.lines, vec!["api", "docs", "svc-api", "svc-web", "web"]);
    assert_eq!(report.diagnostic, None);
}

#[test]
fn a_listing_without_a_cache_scans() {
    let mut world = services_world();
    let outcome = list(services_config(), "/proj", &mut world);
    match outcome {
        Outcome::Candidates { candidates, refresh_later, save_failed } => {
            assert_eq!(candidates, vec!["api", "docs", "svc-api", "svc-web", "web"]);
            assert!(!refresh_later);
            assert!(!save_failed);
        }
        other => panic!("{:?}", other),
    }
    assert_eq!(
        world.log,
        vec!["load /cache/_sproj.json", "worktrees /proj", "scan /proj/services", "save /cache/_sproj.json"]
    );
}

#[test]
fn a_listing_with_a_cache_of_another_place_scans() {
    let mut world = services_world();
    world.stored = Some(services_record());
    let outcome = list(services_config(), "/elsewhere", &mut world);
    assert!(matches!(outcome, Outcome::Candidates { refresh_later: false, .. }));
    assert!(world.log.contains(&"scan /proj/services".to_string()));
}

#[test]
fn a_failed_save_does_not_spoil_the_answer() {
    let mut world = services_world();
    world.save_works = false;
    let outcome = resolve(services_config(), "api", "/proj", &mut world);
    match &outcome {
        Outcome::Directory { path, save_failed } => {
            assert_eq!(path, "/proj/services/svc-api");
            assert!(*save_failed);
        }
        other => panic!("{:?}", other),
    }
    let report = outcome.report();
    assert_eq!(report.status, 0);
    assert_eq!(report.lines, vec!["/proj/services/svc-api"]);
    assert_eq!(report.diagnostic, Some("cache not written".to_string()));
}

#[test]
fn a_refresh_builds_and_saves_the_record() {
    let mut world = services_world();
    world.worktrees = texts(&["/proj-wt", "/proj-two"]);
    world.stored = Some(services_record());
    let outcome = refresh(services_config(), "/proj", &mut world);
    match &outcome {
        Outcome::Refreshed { record, message } => {
            assert_eq!(record.base, "/proj");
            assert_eq!(record.worktrees, vec!["/proj-wt", "/proj-two"]);
            assert_eq!(record.candidates(), vec!["api", "docs", "svc-api", "svc-web", "web"]);
            assert_eq!(message, "refreshed: 2 worktree(s)");
        }
        other => panic!("{:?}", other),
    }
    assert_eq!(world.log, vec!["worktrees /proj", "scan /proj/services", "save /cache/_sproj.json"]);
    let report = outcome.report();
    assert_eq!(report.status, 0);
    assert!(report.lines.is_empty());
    assert_eq!(report.diagnostic, Some("refreshed: 2 worktree(s)".to_string()));
}

#[test]
fn a_refresh_that_cannot_be_saved_fails() {
    let mut world = services_world();
    world.save_works = false;
    let outcome = refresh(services_config(), "/proj", &mut world);
    match &outcome {
        Outcome::RefreshFailed { path } => assert_eq!(path, "/cache/_sproj.json"),
        other => panic!("{:?}", other),
    }
    let report = outcome.report();
    assert_eq!(report.status, 2);
    assert!(report.lines.is_empty());
    assert_eq!(report.diagnostic, Some("cannot write /cache/_sproj.json".to_string()));
}

#[test]
fn the_refresh_key_asks_for_a_refresh() {
    let mut world = services_world();
    world.stored = Some(services_record());
    let outcome = resolve(services_config(), "refresh", "/proj", &mut world);
    assert!(matches!(outcome, Outcome::Refreshed { .. }));
    assert_eq!(world.log, vec!["worktrees /proj", "scan /proj/services", "save /cache/_sproj.json"]);
    assert!(is_refresh_key("refresh"));
    assert!(!is_refresh_key("Refresh"));
    assert!(!is_refresh_key("refresh "));
    assert!(!is_refresh_key(""));
}

#[test]
fn the_base_is_expanded_but_the_cache_is_named_by_the_configured_base() {
    let mut config = services_config();
    config.base = "~/proj".to_string();
    config.cache_dir = None;
    let step = Resolver::start_with(
        config,
        Command::List,
        "/home/alice/proj".to_string(),
        Some("/home/alice"),
        Some("/home/alice/.cache"),
    );
    match step {
        Step::Next { resolver, action } => {
            assert_eq!(resolver.base, "/home/alice/proj");
            assert_eq!(resolver.cache_file, "/home/alice/.cache/switch_dir/_h_sproj.json");
            assert_eq!(resolver.phase, Phase::Loading);
            match action {
                Action::LoadCache { path } => {
                    assert_eq!(path, "/home/alice/.cache/switch_dir/_h_sproj.json")
                }
                other => panic!("{:?}", other),
            }
        }
        other => panic!("{:?}", other),
    }
}

#[test]
fn a_reply_of_another_kind_counts_as_no_data() {
    let step = Resolver::start_with(
        services_config(),
        Command::Resolve { key: "api".to_string() },
        "/proj".to_string(),
        None,
        None,
    );
    let resolver = match step {
        Step::Next { resolver, .. } => resolver,
        other => panic!("{:?}", other),
    };
    let resolver = match resolver.step(Reply::IsDir(true)) {
        Step::Next { resolver, action } => {
            assert!(matches!(action, Action::ListWorktrees { .. }));
            assert_eq!(resolver.phase, Phase::Worktrees);
            resolver
        }
        other => panic!("{:?}", other),
    };
    let resolver = match resolver.step(Reply::Saved(true)) {
        Step::Next { resolver, action } => {
            assert!(matches!(action, Action::ScanDir { .. }));
            assert!(resolver.worktrees.is_empty());
            assert_eq!(resolver.root, "/proj");
            resolver
        }
        other => panic!("{:?}", other),
    };
    let resolver = match resolver.step(Reply::Cache(None)) {
        Step::Next { resolver, action } => {
            match action {
                Action::SaveCache { record, .. } => assert!(record.candidates().is_empty()),
                other => panic!("{:?}", other),
            }
            resolver
        }
        other => panic!("{:?}", other),
    };
    match resolver.step(Reply::IsDir(true)) {
        Step::Done { outcome } => assert!(matches!(outcome, Outcome::NotFound)),
        other => panic!("{:?}", other),
    }
}

#[test]
fn the_commands_begin_with_their_first_action() {
    match cmd_list(services_config(), "/proj".to_string()) {
        Step::Next { action: Action::LoadCache { path }, .. } => {
            assert_eq!(path, "/cache/_sproj.json")
        }
        other => panic!("{:?}", other),
    }
    match cmd_resolve(services_config(), "api".to_string(), "/proj".to_string()) {
        Step::Next { resolver, action: Action::LoadCache { path } } => {
            assert_eq!(path, "/cache/_sproj.json");
            assert_eq!(resolver.cwd, "/proj");
            assert!(matches!(resolver.command, Command::Resolve { .. }));
        }
        other => panic!("{:?}", other),
    }
    match cmd_refresh(services_config(), "/proj".to_string()) {
        Step::Next { resolver, action: Action::ListWorktrees { base } } => {
            assert_eq!(base, "/proj");
            assert_eq!(resolver.phase, Phase::Worktrees);
        }
        other => panic!("{:?}", other),
    }
    match Resolver::start(services_config(), Command::Refresh, "/proj".to_string()) {
        Step::Next { action: Action::ListWorktrees { base }, .. } => assert_eq!(base, "/proj"),
        other => panic!("{:?}", other),
    }
}

#[test]
fn the_refresh_message_names_the_number_of_worktrees() {
    assert_eq!(refresh_message(0), "refreshed: 0 worktree(s)");
    assert_eq!(refresh_message(12), "refreshed: 12 worktree(s)");
}
