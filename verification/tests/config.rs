use switch_dir::config::{
    aliases_from_json, aliases_from_pairs, clone_aliases, clone_optional, Alias, Config,
};

fn alias(key: &str, sub_path: &str) -> Alias {
    Alias { key: key.to_string(), sub_path: sub_path.to_string() }
}

fn config_with(aliases: Vec<Alias>) -> Config {
    Config {
        base: "/proj".to_string(),
        prefix: "services".to_string(),
        dir_prefix: Some("svc-".to_string()),
        aliases,
        cache_dir: None,
    }
}

#[test]
fn aliases_are_read_from_a_json_object() {
    let aliases = aliases_from_json("{\"home\": \".\", \"docs\": \"documentation/api\"}");
    assert_eq!(aliases.len(), 2);
    let config = config_with(aliases);
    assert_eq!(config.alias("home").map(|s| s.as_str()), Some("."));
    assert_eq!(config.alias("docs").map(|s| s.as_str()), Some("documentation/api"));
    assert_eq!(config.alias("web"), None);
}

#[test]
fn escapes_in_json_are_resolved() {
    let aliases = aliases_from_json("{\"a\\u0062\": \"x\\/y\"}");
    assert_eq!(aliases.len(), 1);
    assert_eq!(aliases[0].key, "ab");
    assert_eq!(aliases[0].sub_path, "x/y");
}

#[test]
fn the_last_of_two_equal_keys_counts() {
    let aliases = aliases_from_json("{\"k\": \"first\", \"k\": \"second\"}");
    assert_eq!(aliases.len(), 1);
    assert_eq!(aliases[0].sub_path, "second");
}

#[test]
fn text_that_is_no_object_of_strings_gives_no_aliases() {
    assert!(aliases_from_json("").is_empty());
    assert!(aliases_from_json("not json").is_empty());
    assert!(aliases_from_json("[\"home\"]").is_empty());
    assert!(aliases_from_json("{\"home\": 1}").is_empty());
    assert!(aliases_from_json("{\"home\": \".\"").is_empty());
    assert!(aliases_from_json("\"home\"").is_empty());
}

#[test]
fn an_empty_object_gives_no_aliases() {
    assert!(aliases_from_json("{}").is_empty());
}

#[test]
fn pairs_become_aliases_in_their_order() {
    let pairs = vec![
        ("home".to_string(), ".".to_string()),
        ("docs".to_string(), "documentation".to_string()),
    ];
    let aliases = aliases_from_pairs(Some(pairs));
    assert_eq!(aliases.len(), 2);
    assert_eq!(aliases[0].key, "home");
    assert_eq!(aliases[0].sub_path, ".");
    assert_eq!(aliases[1].key, "docs");
    assert_eq!(aliases[1].sub_path, "documentation");
    assert!(aliases_from_pairs(None).is_empty());
    assert!(aliases_from_pairs(Some(Vec::new())).is_empty());
}

#[test]
fn the_first_alias_with_a_key_is_found() {
    let config = config_with(vec![alias("a", "one"), alias("b", "two"), alias("a", "three")]);
    assert_eq!(config.alias("a").map(|s| s.as_str()), Some("one"));
    assert_eq!(config.alias("b").map(|s| s.as_str()), Some("two"));
    assert_eq!(config.alias("c"), None);
    assert_eq!(config_with(Vec::new()).alias("a"), None);
}

#[test]
fn a_config_can_be_cloned() {
    let config = config_with(vec![alias("home", ".")]);
    let copy = config.clone();
    assert_eq!(copy.base, "/proj");
    assert_eq!(copy.prefix, "services");
    assert_eq!(copy.dir_prefix, Some("svc-".to_string()));
    assert_eq!(copy.cache_dir, None);
    assert_eq!(copy.aliases.len(), 1);
    assert_eq!(copy.aliases[0].key, "home");
    assert_eq!(copy.aliases[0].sub_path, ".");
}

#[test]
fn copies_of_aliases_and_optional_texts() {
    let aliases = vec![alias("a", "one"), alias("b", "two")];
    let copy = clone_aliases(&aliases);
    assert_eq!(copy.len(), 2);
    assert_eq!(copy[1].key, "b");
    assert_eq!(copy[1].sub_path, "two");
    assert_eq!(clone_optional(&Some("x".to_string())), Some("x".to_string()));
    assert_eq!(clone_optional(&None), None);
}
