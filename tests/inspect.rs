use path_inspector::classify::is_radioactive;
use path_inspector::config::PathConfig;
use path_inspector::error::InspectError;
use path_inspector::expand::{expand_path, str_eq, Environment};
use path_inspector::report::{list_paths, resolve_path, ListedEntry};

fn home_env() -> Environment {
    Environment::new(Some("/home/u".to_string()))
}

#[test]
fn lookup_returns_raw_value() {
    let config = PathConfig::from_json(r#"{"a": "$HOME/x", "b": "~/y", "c": "/nix/store/z"}"#).unwrap();
    assert_eq!(config.len(), 3);
    assert_eq!(config.get("a").unwrap(), "$HOME/x");
    assert_eq!(config.get("b").unwrap(), "~/y");
    assert_eq!(config.get("c").unwrap(), "/nix/store/z");
    assert!(config.get("d").is_none());
}

#[test]
fn duplicate_key_keeps_one_entry() {
    let config = PathConfig::from_json(r#"{"a": "/one", "a": "/two"}"#).unwrap();
    assert_eq!(config.len(), 1);
    assert_eq!(config.get("a").unwrap(), "/two");
}

#[test]
fn empty_object_loads() {
    let config = PathConfig::from_json("{}").unwrap();
    assert_eq!(config.len(), 0);
    let listing = list_paths(&config, &home_env());
    assert!(listing.entries.is_empty());
    assert!(listing.failures.is_empty());
    assert!(listing.radioactive.is_empty());
}

#[test]
fn malformed_json_is_parse_error() {
    assert!(matches!(PathConfig::from_json("{\"a\": "), Err(InspectError::Parse(_))));
}

#[test]
fn non_string_value_is_parse_error() {
    assert!(matches!(PathConfig::from_json(r#"{"a": 1}"#), Err(InspectError::Parse(_))));
    assert!(matches!(PathConfig::from_json(r#"{"a": {"b": "c"}}"#), Err(InspectError::Parse(_))));
}

#[test]
fn non_object_is_parse_error() {
    assert!(matches!(PathConfig::from_json(r#"["/a"]"#), Err(InspectError::Parse(_))));
    assert!(matches!(PathConfig::from_json(r#""/a""#), Err(InspectError::Parse(_))));
}

#[test]
fn plain_path_is_unchanged() {
    let env = home_env();
    assert_eq!(expand_path("/usr/bin:/nix/store/abc", &env).ok().unwrap(), "/usr/bin:/nix/store/abc");
    assert_eq!(expand_path("", &env).ok().unwrap(), "");
    let expanded = expand_path("~/docs", &env).ok().unwrap();
    assert_eq!(expand_path(&expanded, &env).ok().unwrap(), expanded);
}

#[test]
fn tilde_expands_to_home() {
    let env = home_env();
    assert_eq!(expand_path("~", &env).ok().unwrap(), "/home/u");
    assert_eq!(expand_path("~/a/b", &env).ok().unwrap(), "/home/u/a/b");
    assert_eq!(expand_path("~other/a", &env).ok().unwrap(), "~other/a");
    assert_eq!(expand_path("a/~", &env).ok().unwrap(), "a/~");
}

#[test]
fn tilde_without_home_is_kept() {
    let env = Environment::new(None);
    assert_eq!(expand_path("~/docs", &env).ok().unwrap(), "~/docs");
}

#[test]
fn variables_expand() {
    let mut env = home_env();
    env.set_var("A".to_string(), "/nix/store/a".to_string());
    env.set_var("B".to_string(), "bee".to_string());
    assert_eq!(expand_path("$A/bin", &env).ok().unwrap(), "/nix/store/a/bin");
    assert_eq!(expand_path("${B}s", &env).ok().unwrap(), "bees");
    assert_eq!(expand_path("${C:-dflt}", &env).ok().unwrap(), "dflt");
    assert_eq!(expand_path("~/$B", &env).ok().unwrap(), "/home/u/bee");
}

#[test]
fn undefined_variable_is_expansion_error() {
    let env = home_env();
    let err = expand_path("$UNDEF/x", &env).err().unwrap();
    assert_eq!(err.var_name, "UNDEF");
}

#[test]
fn set_var_replaces_earlier_binding() {
    let mut env = Environment::new(None);
    assert!(env.var("X").is_none());
    env.set_var("X".to_string(), "1".to_string());
    env.set_var("Y".to_string(), "2".to_string());
    env.set_var("X".to_string(), "3".to_string());
    assert_eq!(env.var("X"), Some("3"));
    assert_eq!(env.var("Y"), Some("2"));
    assert_eq!(env.home_dir(), None);
}

#[test]
fn store_paths_are_not_radioactive() {
    assert!(!is_radioactive("/nix/store/abc"));
    assert!(!is_radioactive("/nix/store/abc:/nix/store/def/bin"));
    assert!(!is_radioactive("/nix/store/"));
}

#[test]
fn untrusted_segment_is_radioactive() {
    assert!(is_radioactive("/usr/bin"));
    assert!(is_radioactive("/nix/store/x:/usr/bin"));
    assert!(is_radioactive("/usr/bin:/nix/store/x"));
    assert!(is_radioactive("/nix/store"));
    assert!(is_radioactive("/nix/store/a:"));
    assert!(is_radioactive(""));
    assert!(is_radioactive(":"));
}

#[test]
fn undefined_name_is_error() {
    let config = PathConfig::from_json(r#"{"a": "/x"}"#).unwrap();
    match resolve_path(&config, "b", &home_env()) {
        Err(InspectError::UndefinedName(n)) => assert_eq!(n, "b"),
        _ => panic!("expected an undefined name"),
    }
}

#[test]
fn list_all_reports_radioactive_colon_path() {
    let config = PathConfig::from_json(r#"{"a": "/nix/store/x:/usr/bin"}"#).unwrap();
    let listing = list_paths(&config, &home_env());
    assert_eq!(listing.entries.len(), 1);
    assert_eq!(listing.entries[0].display_line(), "a: /nix/store/x:/usr/bin");
    assert!(listing.failures.is_empty());
    assert_eq!(listing.radioactive.len(), 1);
    assert_eq!(listing.radioactive[0].display_line(), "a: /nix/store/x:/usr/bin");
}

#[test]
fn single_name_expands_home() {
    let config = PathConfig::from_json(r#"{"h": "~/docs"}"#).unwrap();
    assert_eq!(resolve_path(&config, "h", &home_env()).ok().unwrap(), "/home/u/docs");
}

#[test]
fn undefined_variable_in_both_modes() {
    let config = PathConfig::from_json(r#"{"m": "$UNDEF/x"}"#).unwrap();
    match resolve_path(&config, "m", &home_env()) {
        Err(InspectError::Expansion { raw, var_name }) => {
            assert_eq!(raw, "$UNDEF/x");
            assert_eq!(var_name, "UNDEF");
        }
        _ => panic!("expected an expansion error"),
    }
    let listing = list_paths(&config, &home_env());
    assert!(listing.entries.is_empty());
    assert!(listing.radioactive.is_empty());
    assert_eq!(listing.failures.len(), 1);
    assert_eq!(listing.failures[0].name, "m");
    assert_eq!(listing.failures[0].var_name, "UNDEF");
}

#[test]
fn list_all_continues_past_failure() {
    let config = PathConfig::from_json(
        r#"{"a": "$NOPE", "b": "~/docs", "c": "/nix/store/ok", "d": "$SET/bin"}"#,
    )
    .unwrap();
    let mut env = home_env();
    env.set_var("SET".to_string(), "/nix/store/s".to_string());
    let listing = list_paths(&config, &env);
    assert_eq!(listing.failures.len(), 1);
    assert_eq!(listing.failures[0].name, "a");
    assert_eq!(listing.failures[0].raw, "$NOPE");
    assert_eq!(listing.failures[0].var_name, "NOPE");
    let lines: Vec<String> = listing.entries.iter().map(|e| e.display_line()).collect();
    assert_eq!(
        lines,
        vec![
            "b: ~/docs \u{279F} /home/u/docs".to_string(),
            "c: /nix/store/ok".to_string(),
            "d: $SET/bin \u{279F} /nix/store/s/bin".to_string(),
        ]
    );
    assert_eq!(listing.radioactive.len(), 1);
    assert_eq!(listing.radioactive[0].name, "b");
}

#[test]
fn display_line_formats() {
    let same = ListedEntry { name: "n".to_string(), raw: "/r".to_string(), expanded: "/r".to_string() };
    assert!(!same.is_rewritten());
    assert_eq!(same.display_line(), "n: /r");
    let changed = ListedEntry { name: "n".to_string(), raw: "~".to_string(), expanded: "/h".to_string() };
    assert!(changed.is_rewritten());
    assert_eq!(changed.display_line(), "n: ~ \u{279F} /h");
}

#[test]
fn string_equality() {
    assert!(str_eq("", ""));
    assert!(str_eq("abc", "abc"));
    assert!(!str_eq("abc", "abd"));
    assert!(!str_eq("ab", "abc"));
}

#[test]
fn leading_unset_variable_fails_with_its_name() {
    let env = home_env();
    assert_eq!(expand_path("$UNDEF", &env).err().unwrap().var_name, "UNDEF");
    assert_eq!(expand_path("${UNDEF}/x", &env).err().unwrap().var_name, "UNDEF");
    assert_eq!(expand_path("/a/$UNDEF_2.d", &env).err().unwrap().var_name, "UNDEF_2");
}

#[test]
fn single_name_plain_path_is_raw_value() {
    let config = PathConfig::from_json(r#"{"p": "/nix/store/p:/usr/bin"}"#).unwrap();
    assert_eq!(resolve_path(&config, "p", &home_env()).ok().unwrap(), "/nix/store/p:/usr/bin");
}
