use cargo_apfs_compress::cli::{Cli, CompressionArg};
use cargo_apfs_compress::config::{
    apply_config_file, apply_profile_entries, config_file_candidates, load_overrides,
    profile_dir_name_entries, ConfigText, TomlItem,
};
use cargo_apfs_compress::profiles::{resolve_profile_dir_name, resolve_work_dirs, ProfileOverrides};

fn strings(items: &[&str]) -> Vec<String> {
    items.iter().map(|s| s.to_string()).collect()
}

#[test]
fn maps_builtin_profiles_to_dirs() {
    let overrides = ProfileOverrides::new();
    assert_eq!(resolve_profile_dir_name("dev", &overrides), "debug");
    assert_eq!(resolve_profile_dir_name("test", &overrides), "debug");
    assert_eq!(resolve_profile_dir_name("bench", &overrides), "release");
    assert_eq!(resolve_profile_dir_name("release", &overrides), "release");
    assert_eq!(resolve_profile_dir_name("custom", &overrides), "custom");
}

#[test]
fn override_wins_over_builtin_names() {
    let mut overrides = ProfileOverrides::new();
    overrides.insert("release".to_owned(), "fast".to_owned());
    overrides.insert("custom".to_owned(), "mine".to_owned());
    assert_eq!(resolve_profile_dir_name("release", &overrides), "fast");
    assert_eq!(resolve_profile_dir_name("custom", &overrides), "mine");
    assert_eq!(resolve_profile_dir_name("dev", &overrides), "debug");
}

#[test]
fn later_override_replaces_earlier() {
    let mut overrides = ProfileOverrides::new();
    overrides.insert("dev".to_owned(), "one".to_owned());
    overrides.insert("dev".to_owned(), "two".to_owned());
    assert_eq!(overrides.get("dev"), Some(&"two".to_owned()));
    assert_eq!(overrides.get("test"), None);
}

#[test]
fn applies_profile_dir_name_override_from_config() {
    let mut overrides = ProfileOverrides::new();
    let result = apply_config_file(
        &mut overrides,
        "/work/.cargo/config.toml",
        "[profile.dev]\ndir-name = \"my-debug\"\nunknown = 1\n",
    );
    assert!(result.is_ok());
    assert_eq!(overrides.get("dev"), Some(&"my-debug".to_owned()));
}

#[test]
fn config_without_dir_name_adds_nothing() {
    let mut overrides = ProfileOverrides::new();
    let result = apply_config_file(
        &mut overrides,
        "/work/.cargo/config.toml",
        "[profile.release]\nopt-level = 3\n[build]\njobs = 2\n",
    );
    assert!(result.is_ok());
    assert_eq!(overrides.get("release"), None);
    assert_eq!(resolve_profile_dir_name("release", &overrides), "release");
}

#[test]
fn nearer_config_file_wins() {
    let mut overrides = ProfileOverrides::new();
    apply_config_file(&mut overrides, "/.cargo/config", "[profile.dev]\ndir-name = \"far\"\n").unwrap_or_else(|_| panic!("parse"));
    apply_config_file(&mut overrides, "/w/.cargo/config", "[profile.dev]\ndir-name = \"near\"\n").unwrap_or_else(|_| panic!("parse"));
    assert_eq!(resolve_profile_dir_name("dev", &overrides), "near");
}

#[test]
fn malformed_config_is_an_error_and_changes_nothing() {
    let mut overrides = ProfileOverrides::new();
    overrides.insert("dev".to_owned(), "kept".to_owned());
    let result = apply_config_file(&mut overrides, "/w/.cargo/config.toml", "[profile.dev\ndir-name = ");
    match result {
        Err(e) => {
            assert_eq!(e.path, "/w/.cargo/config.toml");
            assert!(!e.message.is_empty());
        }
        Ok(()) => panic!("malformed file accepted"),
    }
    assert_eq!(overrides.get("dev"), Some(&"kept".to_owned()));
}

#[test]
fn applies_entries_in_order() {
    let mut overrides = ProfileOverrides::new();
    let entries = vec![
        ("dev".to_owned(), "a".to_owned()),
        ("bench".to_owned(), "b".to_owned()),
        ("dev".to_owned(), "c".to_owned()),
    ];
    apply_profile_entries(&mut overrides, &entries);
    assert_eq!(overrides.get("dev"), Some(&"c".to_owned()));
    assert_eq!(overrides.get("bench"), Some(&"b".to_owned()));
}

#[test]
fn config_candidates_farthest_first() {
    let files = config_file_candidates(&strings(&["/a/b", "/a", "/"]));
    assert_eq!(
        files,
        strings(&[
            "/.cargo/config",
            "/.cargo/config.toml",
            "/a/.cargo/config",
            "/a/.cargo/config.toml",
            "/a/b/.cargo/config",
            "/a/b/.cargo/config.toml",
        ])
    );
}

#[test]
fn resolves_dirs_without_target() {
    let overrides = ProfileOverrides::new();
    let dirs = resolve_work_dirs(
        "/tmp/target",
        &["dev".to_owned(), "release".to_owned()],
        &[],
        &overrides,
    );
    assert_eq!(dirs, vec!["/tmp/target/debug".to_owned(), "/tmp/target/release".to_owned()]);
}

#[test]
fn resolves_dirs_with_target() {
    let overrides = ProfileOverrides::new();
    let dirs = resolve_work_dirs(
        "/tmp/target",
        &["dev".to_owned()],
        &[
            "aarch64-apple-darwin".to_owned(),
            "x86_64-apple-darwin".to_owned(),
        ],
        &overrides,
    );
    assert_eq!(
        dirs,
        vec![
            "/tmp/target/aarch64-apple-darwin/debug".to_owned(),
            "/tmp/target/x86_64-apple-darwin/debug".to_owned(),
        ]
    );
}

#[test]
fn targets_given_out_of_order_come_back_sorted() {
    let overrides = ProfileOverrides::new();
    let dirs = resolve_work_dirs(
        "/tmp/target",
        &["release".to_owned()],
        &["x86_64-apple-darwin".to_owned(), "aarch64-apple-darwin".to_owned()],
        &overrides,
    );
    assert_eq!(
        dirs,
        strings(&[
            "/tmp/target/aarch64-apple-darwin/release",
            "/tmp/target/x86_64-apple-darwin/release",
        ])
    );
}

#[test]
fn dedups_same_output_dir() {
    let overrides = ProfileOverrides::new();
    let dirs = resolve_work_dirs(
        "/tmp/target",
        &["dev".to_owned(), "test".to_owned()],
        &[],
        &overrides,
    );
    assert_eq!(dirs, vec!["/tmp/target/debug".to_owned()]);
}

#[test]
fn no_profiles_give_no_dirs() {
    let overrides = ProfileOverrides::new();
    let dirs = resolve_work_dirs("/tmp/target", &[], &["x86_64-apple-darwin".to_owned()], &overrides);
    assert!(dirs.is_empty());
}

#[test]
fn defaults_to_lzfse() {
    let cli = Cli::default();
    assert_eq!(cli.compression, CompressionArg::Lzfse);
    assert!(cli.profiles.is_empty());
}

fn text(path: &str, content: &str) -> ConfigText {
    ConfigText { path: path.to_owned(), content: content.to_owned() }
}

#[test]
fn load_takes_nearest_file() {
    let files = vec![
        text("/.cargo/config", "[profile.dev]\ndir-name = \"far\"\n[profile.bench]\ndir-name = \"b\"\n"),
        text("/w/.cargo/config", "[profile.dev]\ndir-name = \"mid\"\n"),
        text("/w/.cargo/config.toml", "[profile.dev]\ndir-name = \"near\"\n"),
    ];
    let overrides = load_overrides(&files).unwrap_or_else(|_| panic!("load failed"));
    assert_eq!(overrides.get("dev"), Some(&"near".to_owned()));
    assert_eq!(overrides.get("bench"), Some(&"b".to_owned()));
    assert_eq!(overrides.get("release"), None);
}

#[test]
fn load_fails_on_first_malformed_file() {
    let files = vec![
        text("/.cargo/config", "[profile.dev]\ndir-name = \"far\"\n"),
        text("/w/.cargo/config", "not = = toml"),
    ];
    match load_overrides(&files) {
        Err(e) => assert_eq!(e.path, "/w/.cargo/config"),
        Ok(_) => panic!("malformed file accepted"),
    }
}

#[test]
fn extracts_string_dir_names_only() {
    let dev = TomlItem::Table(vec![
        ("dir-name".to_owned(), TomlItem::Str("d".to_owned())),
        ("opt-level".to_owned(), TomlItem::Other),
    ]);
    let rel = TomlItem::Table(vec![("dir-name".to_owned(), TomlItem::Other)]);
    let doc = TomlItem::Table(vec![
        ("build".to_owned(), TomlItem::Table(vec![("dir-name".to_owned(), TomlItem::Str("x".to_owned()))])),
        ("profile".to_owned(), TomlItem::Table(vec![("dev".to_owned(), dev), ("release".to_owned(), rel)])),
    ]);
    assert_eq!(profile_dir_name_entries(&doc), vec![("dev".to_owned(), "d".to_owned())]);
    assert!(profile_dir_name_entries(&TomlItem::Other).is_empty());
}

#[test]
fn discovery_without_profile_filter() {
    let mut cli = Cli::default();
    assert!(cli.uses_discovery());
    cli.profiles.push("dev".to_owned());
    assert!(!cli.uses_discovery());
}
