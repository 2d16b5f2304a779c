use switch_dir::scan::{collect_candidates, is_name_taken, DirEntry};

fn dir(name: &str) -> DirEntry {
    DirEntry { name: name.to_string(), is_dir: true }
}

fn file(name: &str) -> DirEntry {
    DirEntry { name: name.to_string(), is_dir: false }
}

fn path_of(t: &switch_dir::table::PathTable, key: &str) -> Option<String> {
    t.get(key).cloned()
}

#[test]
fn without_a_prefix_the_candidates_are_the_directories() {
    let listing = vec![dir("web"), file("README.md"), dir("api"), dir("svc-api")];
    let t = collect_candidates("/proj/services", &listing, None);
    assert_eq!(t.keys(), vec!["api", "svc-api", "web"]);
    assert_eq!(path_of(&t, "api"), Some("/proj/services/api".to_string()));
    assert_eq!(path_of(&t, "svc-api"), Some("/proj/services/svc-api".to_string()));
    assert_eq!(path_of(&t, "web"), Some("/proj/services/web".to_string()));
    assert_eq!(path_of(&t, "README.md"), None);
    assert_eq!(t.len(), 3);
}

#[test]
fn a_prefixed_directory_is_found_under_both_names() {
    let listing = vec![dir("svc-api")];
    let t = collect_candidates("/proj/services", &listing, Some("svc-"));
    assert_eq!(t.keys(), vec!["api", "svc-api"]);
    assert_eq!(path_of(&t, "api"), Some("/proj/services/svc-api".to_string()));
    assert_eq!(path_of(&t, "svc-api"), Some("/proj/services/svc-api".to_string()));
}

#[test]
fn a_literal_directory_wins_over_a_stripped_name() {
    let listing = vec![dir("svc-api"), dir("api")];
    let t = collect_candidates("/proj/services", &listing, Some("svc-"));
    assert_eq!(t.keys(), vec!["api", "svc-api"]);
    assert_eq!(path_of(&t, "api"), Some("/proj/services/api".to_string()));
    assert_eq!(path_of(&t, "svc-api"), Some("/proj/services/svc-api".to_string()));
    let swapped = vec![dir("api"), dir("svc-api")];
    let t = collect_candidates("/proj/services", &swapped, Some("svc-"));
    assert_eq!(path_of(&t, "api"), Some("/proj/services/api".to_string()));
}

#[test]
fn a_file_of_the_stripped_name_blocks_the_alias() {
    let listing = vec![dir("svc-api"), file("api")];
    let t = collect_candidates("/proj/services", &listing, Some("svc-"));
    assert_eq!(t.keys(), vec!["svc-api"]);
    assert_eq!(path_of(&t, "api"), None);
}

#[test]
fn three_services_give_five_candidates() {
    let listing = vec![dir("svc-api"), dir("svc-web"), dir("docs")];
    let t = collect_candidates("/proj/services", &listing, Some("svc-"));
    assert_eq!(t.keys(), vec!["api", "docs", "svc-api", "svc-web", "web"]);
    assert_eq!(path_of(&t, "api"), Some("/proj/services/svc-api".to_string()));
    assert_eq!(path_of(&t, "web"), Some("/proj/services/svc-web".to_string()));
    assert_eq!(path_of(&t, "docs"), Some("/proj/services/docs".to_string()));
}

#[test]
fn an_empty_listing_gives_no_candidates() {
    let t = collect_candidates("/proj/services", &Vec::new(), Some("svc-"));
    assert_eq!(t.len(), 0);
    assert!(t.keys().is_empty());
}

#[test]
fn files_alone_give_no_candidates() {
    let listing = vec![file("svc-api"), file("notes")];
    let t = collect_candidates("/proj", &listing, Some("svc-"));
    assert!(t.keys().is_empty());
}

#[test]
fn a_name_that_is_only_the_prefix_gets_no_alias() {
    let listing = vec![dir("svc-")];
    let t = collect_candidates("/proj", &listing, Some("svc-"));
    assert_eq!(t.keys(), vec!["svc-"]);
}

#[test]
fn dot_names_are_never_aliases() {
    let listing = vec![dir("svc-."), dir("svc-..")];
    let t = collect_candidates("/proj", &listing, Some("svc-"));
    assert_eq!(t.keys(), vec!["svc-.", "svc-.."]);
}

#[test]
fn an_empty_prefix_adds_nothing() {
    let listing = vec![dir("api"), dir("web")];
    let t = collect_candidates("/proj", &listing, Some(""));
    assert_eq!(t.keys(), vec!["api", "web"]);
}

#[test]
fn a_name_listed_twice_is_one_candidate() {
    let listing = vec![dir("svc-api"), dir("svc-api")];
    let t = collect_candidates("/proj", &listing, Some("svc-"));
    assert_eq!(t.keys(), vec!["api", "svc-api"]);
}

#[test]
fn the_prefix_is_stripped_once() {
    let listing = vec![dir("svc-svc-api")];
    let t = collect_candidates("/proj", &listing, Some("svc-"));
    assert_eq!(t.keys(), vec!["svc-api", "svc-svc-api"]);
    assert_eq!(path_of(&t, "svc-api"), Some("/proj/svc-svc-api".to_string()));
}

#[test]
fn taken_names() {
    let listing = vec![dir("api"), file("notes")];
    assert!(is_name_taken(&listing, "api"));
    assert!(is_name_taken(&listing, "notes"));
    assert!(is_name_taken(&listing, ""));
    assert!(is_name_taken(&listing, "."));
    assert!(is_name_taken(&listing, ".."));
    assert!(!is_name_taken(&listing, "web"));
    assert!(!is_name_taken(&listing, "..."));
    assert!(!is_name_taken(&Vec::new(), "api"));
}

#[test]
fn a_directory_entry_can_be_cloned() {
    let e = dir("api");
    let c = e.clone();
    assert_eq!(c.name, "api");
    assert!(c.is_dir);
}
