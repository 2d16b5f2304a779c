use std::path::Path;
use switch_dir::paths::{
    expand_tilde_with, is_self_name, join_path, lies_within, sub_path, transform_path,
};

#[test]
fn join_puts_one_separator_between() {
    assert_eq!(join_path("/proj", "services"), "/proj/services");
    assert_eq!(join_path("/proj/", "services"), "/proj/services");
    assert_eq!(join_path("/proj/services", "svc-api"), "/proj/services/svc-api");
}

#[test]
fn join_keeps_an_absolute_path() {
    assert_eq!(join_path("/proj", "/etc"), "/etc");
    assert_eq!(join_path("", "/etc"), "/etc");
}

#[test]
fn join_of_empty_parts() {
    assert_eq!(join_path("", "services"), "services");
    assert_eq!(join_path("/proj", ""), "/proj/");
    assert_eq!(join_path("", ""), "");
    assert_eq!(join_path("/", "x"), "/x");
}

#[test]
fn join_agrees_with_the_paths_of_std() {
    let bases = ["", "/", "/proj", "/proj/", "rel", "rel/", "/a/b", "~/code"];
    let rels = ["", ".", "..", "x", "x/y", "/abs", "svc-api", "é"];
    for b in bases.iter() {
        for r in rels.iter() {
            let expected = Path::new(b).join(r);
            assert_eq!(
                join_path(b, r),
                expected.to_str().unwrap(),
                "{:?} joined with {:?}",
                b,
                r
            );
        }
    }
}

#[test]
fn the_dot_names_the_root_itself() {
    assert!(is_self_name("."));
    assert!(!is_self_name(""));
    assert!(!is_self_name(".."));
    assert!(!is_self_name("./"));
    assert_eq!(sub_path("/proj", "."), "/proj");
    assert_eq!(sub_path("/proj", "services"), "/proj/services");
    assert_eq!(sub_path("/proj", "docs/api"), "/proj/docs/api");
}

#[test]
fn tilde_is_replaced_by_the_home_directory() {
    assert_eq!(expand_tilde_with("~/code", Some("/home/alice")), "/home/alice/code");
    assert_eq!(expand_tilde_with("~", Some("/home/alice")), "/home/alice");
    assert_eq!(expand_tilde_with("~~", Some("/h")), "/h~");
}

#[test]
fn tilde_stays_without_a_home_directory() {
    assert_eq!(expand_tilde_with("~/code", None), "~/code");
}

#[test]
fn only_a_leading_tilde_is_replaced() {
    assert_eq!(expand_tilde_with("/proj/~x", Some("/home/alice")), "/proj/~x");
    assert_eq!(expand_tilde_with("", Some("/home/alice")), "");
    assert_eq!(expand_tilde_with("/proj", Some("/home/alice")), "/proj");
}

#[test]
fn rewriting_to_the_same_root_changes_nothing() {
    for path in ["/repo/sub/x", "/repo", "/elsewhere/x", "", "/repo-wt/y"].iter() {
        for root in ["/repo", "", "/", "/elsewhere", "/repo/sub/x"].iter() {
            assert_eq!(transform_path(path, root, root), *path);
        }
    }
}

#[test]
fn rewriting_moves_a_path_to_the_worktree() {
    assert_eq!(transform_path("/repo/sub/x", "/repo", "/repo-wt"), "/repo-wt/sub/x");
}

#[test]
fn rewriting_leaves_a_path_outside_the_root() {
    assert_eq!(transform_path("/other/sub/x", "/repo", "/repo-wt"), "/other/sub/x");
    assert_eq!(transform_path("/rep", "/repo", "/repo-wt"), "/rep");
}

#[test]
fn rewriting_leaves_a_path_that_only_begins_like_the_root() {
    assert_eq!(transform_path("/repo-wt/sub/x", "/repo", "/new"), "/repo-wt/sub/x");
    assert_eq!(transform_path("/repository", "/repo", "/new"), "/repository");
}

#[test]
fn rewriting_from_a_root_that_ends_in_a_separator() {
    assert_eq!(transform_path("/repo/sub/x", "/repo/", "/new/"), "/new/sub/x");
    assert_eq!(transform_path("/x", "/", "/new/"), "/new/x");
}

#[test]
fn a_path_lies_within_a_root_at_a_path_boundary() {
    assert!(lies_within("/repo", "/repo"));
    assert!(lies_within("/repo", "/repo/"));
    assert!(lies_within("/repo", "/repo/sub/x"));
    assert!(lies_within("/repo/", "/repo/sub"));
    assert!(lies_within("/repo/", "/repo/"));
    assert!(lies_within("/", "/repo"));
    assert!(lies_within("", "/repo"));
    assert!(lies_within("", ""));
}

#[test]
fn a_path_that_only_begins_like_a_root_lies_outside() {
    assert!(!lies_within("/repo", "/repo-wt"));
    assert!(!lies_within("/repo", "/repo-wt/sub"));
    assert!(!lies_within("/repo", "/repository"));
    assert!(!lies_within("/repo", "/rep"));
    assert!(!lies_within("/repo/", "/repo"));
    assert!(!lies_within("/repo", "/other/repo"));
    assert!(!lies_within("", "relative"));
    assert!(!lies_within("/repo", ""));
}

#[test]
fn lying_within_agrees_with_the_paths_of_std() {
    let roots = ["/", "/repo", "/repo/sub", "/a/b", "rel", "rel/x"];
    let paths = [
        "/", "/repo", "/repo/", "/repo-wt", "/repo/sub", "/repo/sub/x", "/repository", "/a",
        "/a/b", "/a/bc", "/a/b/c", "rel", "rel/x", "relx", "rel/x/y",
    ];
    for r in roots.iter() {
        for p in paths.iter() {
            assert_eq!(lies_within(r, p), Path::new(p).starts_with(r), "{:?} within {:?}", p, r);
        }
    }
}

#[test]
fn rewriting_the_root_itself() {
    assert_eq!(transform_path("/repo", "/repo", "/repo-wt"), "/repo-wt");
    assert_eq!(transform_path("/repo/x", "", "/pre"), "/pre/repo/x");
}
