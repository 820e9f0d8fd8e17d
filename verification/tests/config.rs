//! Configuration: defaults, loading, validation.
use reclaim::config::{
    Config, DeleteMode, FileOutcome, ProviderConfig, ScanConfig, ScheduleConfig, ThresholdConfig,
};
use reclaim::disk::{DirTree, Disk, Entry};
use reclaim::error::Error;
use reclaim::model::Tier;
use reclaim::platform::{Os, Paths, Variable};

fn set(name: &str, value: &str) -> Variable {
    Variable { name: name.to_string(), value: value.to_string() }
}

#[test]
fn defaults_are_valid() {
    Config::default().validate().unwrap();
}

#[test]
fn a_missing_file_yields_defaults_rather_than_an_error() {
    let cfg =
        Config::load_from(FileOutcome::Missing, "/nonexistent/reclaim.toml", &Vec::new()).unwrap();
    assert_eq!(cfg.thresholds.min_size, "50MB");
}

#[test]
fn a_malformed_file_is_an_error_not_a_silent_default() {
    let err = Config::load_from(
        FileOutcome::Malformed("this is not = = toml".to_string()),
        "/c/config.toml",
        &Vec::new(),
    )
    .unwrap_err();
    assert!(matches!(err, Error::ConfigParse { .. }), "got {err:?}");
    assert_eq!(err.message(), "config error in /c/config.toml: this is not = = toml");
}

#[test]
fn an_unreadable_file_is_an_error() {
    let err = Config::load_from(
        FileOutcome::Unreadable("denied".to_string()),
        "/c/config.toml",
        &Vec::new(),
    )
    .unwrap_err();
    assert_eq!(err.message(), "io error at /c/config.toml: denied");
}

#[test]
fn the_environment_overrides_the_file() {
    let env = vec![
        set("RECLAIM_MIN_SIZE", "1GB"),
        set("RECLAIM_DELETE_MODE", "purge"),
        set("RECLAIM_PROJECT_ROOTS", "/a:/b"),
    ];
    let cfg =
        Config::load_from(FileOutcome::Parsed(Config::default()), "/c/config.toml", &env).unwrap();
    assert_eq!(cfg.thresholds.min_size, "1GB");
    assert_eq!(cfg.delete.mode, DeleteMode::Purge);
    assert_eq!(cfg.scan.project_roots, vec!["/a", "/b"]);
}

#[test]
fn an_unusable_override_is_an_error_too() {
    let env = vec![set("RECLAIM_MIN_SIZE", "50 bananas")];
    assert!(Config::load_from(FileOutcome::Missing, "/c", &env).is_err());
}

#[test]
fn schedule_refuses_to_include_the_caution_tier() {
    let cfg = Config {
        schedule: ScheduleConfig { tiers: vec![Tier::Safe, Tier::Caution], ..Default::default() },
        ..Default::default()
    };
    let err = cfg.validate().unwrap_err().message();
    assert!(err.contains("caution"), "{err}");
}

#[test]
fn an_invalid_min_size_is_caught_at_load_time() {
    let cfg = Config {
        thresholds: ThresholdConfig { min_size: "50 bananas".into(), ..Default::default() },
        ..Default::default()
    };
    assert!(cfg.validate().is_err());
}

#[test]
fn a_bad_exclude_pattern_is_caught_at_load_time() {
    let cfg = Config {
        scan: ScanConfig { exclude: vec!["a[".into()], ..Default::default() },
        ..Default::default()
    };
    let err = cfg.validate().unwrap_err().message();
    assert!(err.contains("a["), "{err}");
    let fine = Config {
        scan: ScanConfig { exclude: vec!["**/x*".into()], ..Default::default() },
        ..Default::default()
    };
    assert!(fine.validate().is_ok());
}

#[test]
fn an_unknown_theme_is_caught_at_load_time() {
    let mut cfg = Config::default();
    cfg.ui.theme = "beige".to_string();
    assert!(cfg.validate().is_err());
    cfg.ui.theme = "dark".to_string();
    assert!(cfg.validate().is_ok());
}

#[test]
fn a_depth_of_zero_is_caught_at_load_time() {
    let mut cfg = Config::default();
    cfg.scan.max_depth = 0;
    assert!(cfg.validate().is_err());
}

#[test]
fn tiered_mode_purges_safe_and_trashes_the_rest() {
    let m = DeleteMode::Tiered;
    assert!(!m.uses_trash(Tier::Safe), "safe items must free space immediately");
    assert!(m.uses_trash(Tier::Review));
    assert!(m.uses_trash(Tier::Caution));
}

#[test]
fn trash_and_purge_modes_are_absolute() {
    assert!(DeleteMode::Trash.uses_trash(Tier::Safe));
    assert!(!DeleteMode::Purge.uses_trash(Tier::Caution));
}

#[test]
fn provider_filtering_matches_ids_and_group_prefixes() {
    let cfg = ProviderConfig {
        enabled: vec!["*".into()],
        disabled: vec!["node".into(), "apple.archives".into()],
        ..Default::default()
    };
    assert!(cfg.is_enabled("rust.target"));
    assert!(!cfg.is_enabled("node.npm-cache"), "group prefix disables all its providers");
    assert!(!cfg.is_enabled("apple.archives"));
    assert!(cfg.is_enabled("apple.derived-data"));
}

#[test]
fn provider_prefix_matching_does_not_catch_similar_names() {
    let cfg = ProviderConfig { disabled: vec!["node".into()], ..Default::default() };
    assert!(cfg.is_enabled("nodejs-extra.cache"), "`node` must not match `nodejs-extra`");
}

#[test]
fn threads_resolve_from_zero_and_stay_within_bounds() {
    let auto = ScanConfig::default().threads();
    assert!((1..=16).contains(&auto), "auto concurrency was {auto}");
    let explicit = ScanConfig { concurrency: 4, ..Default::default() }.threads();
    assert_eq!(explicit, 4);
}

#[test]
fn partial_files_keep_defaults_for_everything_else() {
    let mut parsed = Config::default();
    parsed.thresholds.min_size = "1GB".to_string();
    let cfg = Config::load_from(FileOutcome::Parsed(parsed), "/c", &Vec::new()).unwrap();
    assert_eq!(cfg.thresholds.min_size, "1GB");
    assert_eq!(cfg.thresholds.stale_after_days, 60, "untouched keys keep their defaults");
    assert_eq!(cfg.delete.mode, DeleteMode::Tiered);
}

#[test]
fn project_roots_are_expanded_and_listed_once() {
    let paths = Paths::with_home("/home/t", Os::Linux);
    let mut cfg = Config::default();
    cfg.scan.project_roots =
        vec!["~/dev".to_string(), "/home/t/dev".to_string(), "~/gone".to_string(), "$X".to_string()];
    let dir = |path: &str| Entry {
        path: path.to_string(),
        is_dir: true,
        is_file: false,
        children: Vec::new(),
    };
    let disk = Disk {
        entries: vec![dir("/home/t/dev"), dir("/srv/src")],
        commands: Vec::new(),
        daemons: Vec::new(),
        ports: Vec::new(),
        maven: DirTree { names: None, subdirs: Vec::new() },
    };
    let env = vec![set("X", "/srv/src")];
    assert_eq!(cfg.resolved_project_roots(&paths, &env, &disk), vec!["/home/t/dev", "/srv/src"]);
}

#[test]
fn delete_modes_parse_by_name() {
    assert_eq!(DeleteMode::from_str("TRASH").unwrap(), DeleteMode::Trash);
    assert_eq!(DeleteMode::from_str("tiered").unwrap(), DeleteMode::Tiered);
    assert!(DeleteMode::from_str("shred").is_err());
}
