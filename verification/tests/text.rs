use switch_dir::text::{
    append, as_text, char_after_prefix, clone_texts, compare, decimal, first_char, last_char,
    same_text, strip_prefix, Order,
};

#[test]
fn compare_follows_the_dictionary() {
    assert_eq!(compare("api", "docs"), Order::Less);
    assert_eq!(compare("web", "svc-web"), Order::Greater);
    assert_eq!(compare("svc", "svc-api"), Order::Less);
    assert_eq!(compare("svc-api", "svc"), Order::Greater);
    assert_eq!(compare("docs", "docs"), Order::Equal);
    assert_eq!(compare("né", "nz"), Order::Greater);
    assert_eq!(compare("", ""), Order::Equal);
    assert_eq!(compare("", "a"), Order::Less);
    assert_eq!(compare("a", ""), Order::Greater);
}

#[test]
fn compare_agrees_with_the_order_of_strings() {
    let words = ["", "a", "A", "ab", "b", "svc-", "svc_", "z", "é", "日本", "~", "/"];
    for a in words.iter() {
        for b in words.iter() {
            let expected = match a.cmp(b) {
                std::cmp::Ordering::Less => Order::Less,
                std::cmp::Ordering::Equal => Order::Equal,
                std::cmp::Ordering::Greater => Order::Greater,
            };
            assert_eq!(compare(a, b), expected, "{:?} against {:?}", a, b);
        }
    }
}

#[test]
fn compare_is_transitive_on_samples() {
    let words = ["api", "apis", "docs", "svc-api", "web"];
    for a in words.iter() {
        for b in words.iter() {
            for c in words.iter() {
                if compare(a, b) == Order::Less && compare(b, c) == Order::Less {
                    assert_eq!(compare(a, c), Order::Less);
                }
            }
        }
    }
}

#[test]
fn same_text_is_equality() {
    assert!(same_text("refresh", "refresh"));
    assert!(!same_text("refresh", "refresh "));
    assert!(same_text("", ""));
}

#[test]
fn the_character_behind_a_prefix() {
    assert_eq!(char_after_prefix("/repo/sub", "/repo"), Some(Some('/')));
    assert_eq!(char_after_prefix("/repo-wt", "/repo"), Some(Some('-')));
    assert_eq!(char_after_prefix("/repo", "/repo"), Some(None));
    assert_eq!(char_after_prefix("/repo", ""), Some(Some('/')));
    assert_eq!(char_after_prefix("", ""), Some(None));
    assert_eq!(char_after_prefix("/rep", "/repo"), None);
    assert_eq!(char_after_prefix("/other/repo", "/repo"), None);
    assert_eq!(char_after_prefix("", "a"), None);
    assert_eq!(char_after_prefix("éa", "é"), Some(Some('a')));
}

#[test]
fn strip_prefix_gives_the_rest() {
    assert_eq!(strip_prefix("svc-api", "svc-"), Some("api".to_string()));
    assert_eq!(strip_prefix("svc-", "svc-"), Some(String::new()));
    assert_eq!(strip_prefix("docs", "svc-"), None);
    assert_eq!(strip_prefix("sv", "svc-"), None);
    assert_eq!(strip_prefix("docs", ""), Some("docs".to_string()));
    assert_eq!(strip_prefix("éa", "é"), Some("a".to_string()));
}

#[test]
fn concat_appends() {
    assert_eq!(append("/repo-wt", "/sub/x"), "/repo-wt/sub/x");
    assert_eq!(append("", ""), "");
}

#[test]
fn first_and_last_characters() {
    assert_eq!(first_char("/proj"), Some('/'));
    assert_eq!(last_char("/proj/"), Some('/'));
    assert_eq!(last_char("/proj"), Some('j'));
    assert_eq!(first_char(""), None);
    assert_eq!(last_char(""), None);
}

#[test]
fn clone_texts_copies_every_text() {
    let v = vec!["a".to_string(), "".to_string(), "c".to_string()];
    assert_eq!(clone_texts(&v), v);
    assert_eq!(clone_texts(&Vec::new()), Vec::<String>::new());
}

#[test]
fn numbers_in_decimal() {
    assert_eq!(decimal(0), "0");
    assert_eq!(decimal(7), "7");
    assert_eq!(decimal(10), "10");
    assert_eq!(decimal(1234567890), "1234567890");
    assert_eq!(decimal(usize::MAX), usize::MAX.to_string());
}

#[test]
fn an_optional_text_is_borrowed() {
    assert_eq!(as_text(&Some("svc-".to_string())), Some("svc-"));
    assert_eq!(as_text(&None), None);
}
