use denote::config::{
    config_path, default_bear_db, default_config_file, default_branch, default_commit_template, default_config_path,
    default_config_text, default_debounce_secs, default_export_config, default_push_on_sync,
    default_remote, default_true, expand_tilde_pub, home_dir, parse_bool, parse_tag_list, parse_u64,
    AttachmentMode, ConfigSource, DenoteConfig, EnvOverrides, ExportConfig, FilenameStrategy,
};
use denote::errors::DenoteError;

fn no_env() -> EnvOverrides {
    EnvOverrides {
        bear_db: None,
        repo_path: None,
        remote: None,
        branch: None,
        push_on_sync: None,
        debounce_secs: None,
        exclude_tags: None,
        include_trashed: None,
        include_archived: None,
        commit_template: None,
        export_frontmatter: None,
        export_attachment_mode: None,
        export_filename_strategy: None,
    }
}

/// A configuration file that sets only `repo_path`, defaults filled in.
fn minimal(repo: &str, home: &str) -> DenoteConfig {
    DenoteConfig {
        bear_db: default_bear_db(home),
        repo_path: repo.into(),
        remote: default_remote(),
        branch: default_branch(),
        push_on_sync: default_push_on_sync(),
        debounce_secs: default_debounce_secs(),
        exclude_tags: vec![],
        include_trashed: false,
        include_archived: false,
        commit_template: default_commit_template(),
        export: default_export_config(),
    }
}

#[test]
fn test_minimal_config() {
    let home = "/Users/tester";
    let config = DenoteConfig::load(
        true,
        "/tmp/denote-test-config/config.toml",
        ConfigSource::Parsed(minimal("/tmp/notes", home)),
        &no_env(),
        home,
    )
    .unwrap();
    assert_eq!(config.repo_path, "/tmp/notes");
    assert_eq!(config.remote, "origin");
    assert_eq!(config.branch, "main");
    assert!(config.push_on_sync);
    assert_eq!(config.debounce_secs, 5);
    assert!(config.export.frontmatter);
}

#[test]
fn test_expand_tilde() {
    let p = expand_tilde_pub("~/foo/bar", "/Users/tester");
    assert!(!p.contains('~'));
    assert!(p.ends_with("/foo/bar"));
}

#[test]
fn test_missing_explicit_config() {
    let result = DenoteConfig::load(true, "/nonexistent/config.toml", ConfigSource::Missing, &no_env(), "/h");
    assert!(result.is_err());
}

#[test]
fn load_errors_carry_messages() {
    let env = no_env();
    match DenoteConfig::load(true, "/x/c.toml", ConfigSource::Missing, &env, "/h") {
        Err(DenoteError::Config(m)) => assert_eq!(m, "Config file not found: /x/c.toml"),
        other => panic!("unexpected {other:?}"),
    }
    match DenoteConfig::load(false, "/h/.config/denote/config.toml", ConfigSource::Missing, &env, "/h") {
        Err(DenoteError::Config(m)) => assert_eq!(m, "No config file found. Run `denote init` to create one."),
        other => panic!("unexpected {other:?}"),
    }
    match DenoteConfig::load(true, "/x/c.toml", ConfigSource::Unreadable("denied".into()), &env, "/h") {
        Err(DenoteError::Config(m)) => assert_eq!(m, "Failed to read config at /x/c.toml: denied"),
        other => panic!("unexpected {other:?}"),
    }
    match DenoteConfig::load(true, "/x/c.toml", ConfigSource::Invalid("bad key".into()), &env, "/h") {
        Err(DenoteError::Config(m)) => assert_eq!(m, "Failed to parse config: bad key"),
        other => panic!("unexpected {other:?}"),
    }
    match DenoteConfig::load(true, "/x/c.toml", ConfigSource::Parsed(minimal("", "/h")), &env, "/h") {
        Err(DenoteError::Config(m)) => assert_eq!(m, "repo_path is required"),
        other => panic!("unexpected {other:?}"),
    }
}

#[test]
fn env_overrides_apply_and_paths_expand() {
    let mut env = no_env();
    env.repo_path = Some("~/notes".into());
    env.remote = Some("upstream".into());
    env.push_on_sync = Some("false".into());
    env.debounce_secs = Some("42".into());
    env.include_trashed = Some("yes".into());
    env.export_attachment_mode = Some("copy".into());
    env.export_filename_strategy = Some("Title".into());
    env.export_frontmatter = Some("false".into());
    let c = DenoteConfig::load(false, "p", ConfigSource::Parsed(minimal("/r", "/home/u")), &env, "/home/u").unwrap();
    assert_eq!(c.repo_path, "/home/u/notes");
    assert_eq!(c.remote, "upstream");
    assert!(!c.push_on_sync);
    assert_eq!(c.debounce_secs, 42);
    assert!(!c.include_trashed);
    assert_eq!(c.export.attachment_mode, AttachmentMode::Copy);
    assert_eq!(c.export.filename_strategy, FilenameStrategy::TitleUuid);
    assert!(!c.export.frontmatter);
    assert_eq!(
        c.bear_db,
        "/home/u/Library/Group Containers/9K33E3U3T4.net.shinyfrog.bear/Application Data/database.sqlite"
    );
}

#[test]
fn no_overrides_keep_settings() {
    let c = DenoteConfig::load(false, "p", ConfigSource::Parsed(minimal("/r", "/h")), &no_env(), "/h").unwrap();
    assert_eq!(c.repo_path, "/r");
    assert_eq!(c.commit_template, "denote: synced {count} notes");
    assert_eq!(c.export, ExportConfig::default());
}

#[test]
fn number_override_roundtrip() {
    for n in [0u64, 7, 10, 1234567890, u64::MAX] {
        assert_eq!(parse_u64(&n.to_string()), Some(n));
    }
}

#[test]
fn parse_numbers_and_booleans() {
    assert_eq!(parse_u64("+5"), Some(5));
    assert_eq!(parse_u64(""), None);
    assert_eq!(parse_u64("+"), None);
    assert_eq!(parse_u64("-1"), None);
    assert_eq!(parse_u64(" 1"), None);
    assert_eq!(parse_u64("007"), Some(7));
    assert_eq!(parse_u64("18446744073709551615"), Some(u64::MAX));
    assert_eq!(parse_u64("18446744073709551616"), None);
    assert_eq!(parse_bool("true"), Some(true));
    assert_eq!(parse_bool("false"), Some(false));
    assert_eq!(parse_bool("True"), None);
    assert_eq!(parse_bool("1"), None);
}

#[test]
fn paths_and_defaults() {
    assert_eq!(expand_tilde_pub("/abs/~/x", "/h"), "/abs/~/x");
    assert_eq!(expand_tilde_pub("~", "/h"), "~");
    assert_eq!(expand_tilde_pub("~/", "/h/"), "/h/");
    assert_eq!(home_dir(None), "/Users/unknown");
    assert_eq!(home_dir(Some("/h".into())), "/h");
    assert_eq!(default_config_path("/h"), "/h/.config/denote/config.toml");
    assert_eq!(config_path(Some("/c.toml"), "/h"), "/c.toml");
    assert_eq!(config_path(None, "/h"), "/h/.config/denote/config.toml");
    assert!(default_true());
    let e = ExportConfig::default();
    assert!(e.frontmatter);
    assert_eq!(e.attachment_mode, AttachmentMode::Placeholder);
    assert_eq!(e.filename_strategy, FilenameStrategy::TitleUuid);
}

#[test]
fn default_config_file_text() {
    let t = default_config_text("/home/u/notes", true);
    assert!(t.starts_with("# denote configuration\n"));
    assert!(t.contains("repo_path = \"/home/u/notes\"\n"));
    assert!(t.contains("\nremote = \"origin\"\n"));
    assert!(t.contains("commit_template = \"denote: synced {count} notes\"\n"));
    let t = default_config_text("/r", false);
    assert!(t.contains("\n# remote = \"origin\"\n"));
    assert!(t.ends_with("filename_strategy = \"title-uuid\"\n"));
}

#[test]
fn exclude_tags_override() {
    let mut env = no_env();
    env.exclude_tags = Some(" private, scratch ,,work in progress,".into());
    let mut base = minimal("/r", "/h");
    base.exclude_tags = vec!["old".into()];
    let c = DenoteConfig::load(false, "p", ConfigSource::Parsed(base), &env, "/h").unwrap();
    assert_eq!(c.exclude_tags, vec!["private", "scratch", "work in progress"]);

    let mut base = minimal("/r", "/h");
    base.exclude_tags = vec!["old".into()];
    let c = DenoteConfig::load(false, "p", ConfigSource::Parsed(base), &no_env(), "/h").unwrap();
    assert_eq!(c.exclude_tags, vec!["old"]);

    let mut env = no_env();
    env.exclude_tags = Some("".into());
    let mut base = minimal("/r", "/h");
    base.exclude_tags = vec!["old".into()];
    let c = DenoteConfig::load(false, "p", ConfigSource::Parsed(base), &env, "/h").unwrap();
    assert!(c.exclude_tags.is_empty());
}

#[test]
fn tag_lists() {
    assert_eq!(parse_tag_list("a,b"), vec!["a", "b"]);
    assert_eq!(parse_tag_list("  "), Vec::<String>::new());
    assert_eq!(parse_tag_list("x"), vec!["x"]);
    assert_eq!(parse_tag_list(",a,,\tb\n,"), vec!["a", "b"]);
}

#[test]
fn default_config_file_path_and_text() {
    let (p, t) = default_config_file(None, "/h", "/r", false);
    assert_eq!(p, "/h/.config/denote/config.toml");
    assert_eq!(t, default_config_text("/r", false));
    let (p, _) = default_config_file(Some("/c.toml"), "/h", "/r", true);
    assert_eq!(p, "/c.toml");
}
