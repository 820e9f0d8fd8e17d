//! The application and its command-line decisions.
use reclaim::cli::app::{config_path, resolve_paths, App, Machine, Purpose};
use reclaim::cli::args::{
    CleanArgs, ConfigAction, FilterArgs, GlobalArgs, HistoryReportArgs, ScanArgs,
};
use reclaim::cli::commands::{
    begin, clean_filter, clean_options, confirm_caution_items, delete_mode, exit_code, is_dry_run,
    is_yes, may_init, providers, questions, report_limit, report_path, scan_purpose,
    skipped_note, Step,
};
use reclaim::cli::render::Style;
use reclaim::config::{Config, DeleteMode, FileOutcome};
use reclaim::format::{parse_bytes, parse_days};
use reclaim::journal::{Disposition, ItemOutcome, RunRecord, Trigger};
use reclaim::model::{Candidate, CandidateBuilder, CandidateId, Group, Tier};
use reclaim::platform::{Os, Variable};

const HOME: &str = "/sandbox/home";

fn global() -> GlobalArgs {
    GlobalArgs {
        config: None,
        root: Some(HOME.to_string()),
        concurrency: Some(2),
        verbose: 0,
        no_color: true,
    }
}

fn machine(root: Option<&str>) -> Machine {
    Machine {
        env: Vec::new(),
        system_home: None,
        os: Os::Linux,
        root: root.map(|r| r.to_string()),
    }
}

fn app() -> App {
    let paths = resolve_paths(&global(), &machine(Some(HOME))).unwrap();
    App::new(&global(), paths, FileOutcome::Missing, &Vec::new()).unwrap()
}

#[test]
fn a_root_override_scopes_everything_to_that_directory() {
    let app = app();
    assert_eq!(app.paths.home(), HOME);
    assert!(app.journal.dir().starts_with(HOME));
    assert!(app.guard.home().starts_with(HOME));
}

#[test]
fn a_missing_root_is_a_clear_error_rather_than_a_panic() {
    let global = GlobalArgs { root: Some("/definitely/not/here".to_string()), ..global() };
    let err = resolve_paths(&global, &machine(None))
        .err()
        .expect("a missing root must be an error")
        .message();
    assert!(err.contains("does not exist"), "{err}");
}

#[test]
fn clean_defaults_to_the_safe_tier_only() {
    // `reclaim clean --yes` with no tier must not be able to touch Caution items.
    let app = app();
    assert_eq!(app.effective_tier(None), Tier::Safe);
    assert_eq!(app.effective_tier(Some(Tier::Caution)), Tier::Caution);
    let args = clean_args();
    assert_eq!(clean_filter(&app, &args).tier, Some(Tier::Safe));
}

#[test]
fn naming_a_tier_applies_that_tiers_configured_age_threshold() {
    let app = app();
    let with = |tier| {
        let args = FilterArgs { tier: Some(tier), ..Default::default() };
        app.filter(&args, Purpose::Delete).unwrap()
    };
    assert_eq!(with(Tier::Safe).min_age_days, Some(14));
    assert_eq!(
        with(Tier::Caution).min_age_days,
        Some(180),
        "riskier items wait longer by default"
    );
}

#[test]
fn an_explicit_age_overrides_the_tier_default() {
    let args =
        FilterArgs { tier: Some(Tier::Safe), older_than: Some(365), ..Default::default() };
    let filter = app().filter(&args, Purpose::Delete).unwrap();
    assert_eq!(filter.min_age_days, Some(365));
}

#[test]
fn the_all_flag_drops_the_size_threshold() {
    let app = app();
    let normal = app.filter(&FilterArgs::default(), Purpose::Report).unwrap();
    let all = app.filter(&FilterArgs::default(), Purpose::ShowEverything).unwrap();
    assert!(normal.min_size > 0);
    assert_eq!(all.min_size, 0);
    let shown = |all| ScanArgs { filter: FilterArgs::default(), json: false, all };
    assert_eq!(scan_purpose(&shown(true)), Purpose::ShowEverything);
    assert_eq!(scan_purpose(&shown(false)), Purpose::Report);
}

#[test]
fn reporting_shows_actively_used_items_but_deleting_does_not() {
    // A tool for finding disk space must never hide space; a tool for deleting must not touch
    // what a build is writing to right now.
    let app = app();
    let active = |purpose| app.filter(&FilterArgs::default(), purpose).unwrap().include_active;
    assert!(active(Purpose::Report));
    assert!(active(Purpose::ShowEverything));
    assert!(!active(Purpose::Delete));
}

#[test]
fn the_include_active_flag_overrides_the_delete_default() {
    let args = FilterArgs { include_active: true, ..Default::default() };
    assert!(app().filter(&args, Purpose::Delete).unwrap().include_active);
}

#[test]
fn a_bad_threshold_in_the_config_is_an_error() {
    let mut config = Config::default();
    config.thresholds.min_size = "bananas".to_string();
    let paths = resolve_paths(&global(), &machine(Some(HOME))).unwrap();
    assert!(App::new(&global(), paths, FileOutcome::Parsed(config), &Vec::new()).is_err());
}

#[test]
fn the_config_file_can_be_named() {
    let app = app();
    assert_eq!(config_path(&global(), &app.paths), app.paths.config_file());
    let named = GlobalArgs { config: Some("/x/y.toml".to_string()), ..global() };
    assert_eq!(config_path(&named, &app.paths), "/x/y.toml");
}

fn clean_args() -> CleanArgs {
    CleanArgs {
        filter: FilterArgs { min_size: Some(0), ..Default::default() },
        dry_run: true,
        yes: false,
        trash: false,
        purge: false,
        json: false,
        scheduled: false,
    }
}

#[test]
fn delete_mode_flags_override_the_config() {
    let configured = app().config.delete.mode;
    assert_eq!(delete_mode(configured, &clean_args()), DeleteMode::Tiered);
    assert_eq!(
        delete_mode(configured, &CleanArgs { trash: true, ..clean_args() }),
        DeleteMode::Trash
    );
    assert_eq!(
        delete_mode(configured, &CleanArgs { purge: true, ..clean_args() }),
        DeleteMode::Purge
    );
}

#[test]
fn commands_config_init_refuses_to_clobber_without_force() {
    let path = app().paths.config_file();
    let init = |present, action| match action {
        ConfigAction::Init { force } => may_init(&path, present, force),
        _ => panic!("expected init"),
    };
    init(false, ConfigAction::Init { force: false }).unwrap();
    let err = init(true, ConfigAction::Init { force: false }).unwrap_err();
    assert!(err.contains("--force"), "{err}");
    init(true, ConfigAction::Init { force: true }).unwrap();
}

#[test]
fn without_consent_a_run_stays_dry() {
    let asked = CleanArgs { dry_run: false, ..clean_args() };
    let agreed = CleanArgs { yes: true, dry_run: false, ..clean_args() };
    assert!(is_dry_run(&asked, false), "nobody is there to agree");
    assert!(!is_dry_run(&asked, true), "a person is asked instead");
    assert!(!is_dry_run(&agreed, false));
    assert!(is_dry_run(&CleanArgs { dry_run: true, ..agreed }, true));

    let chosen = vec![item(Tier::Safe)];
    assert_eq!(begin(&asked, true, &Vec::new()), Step::NothingMatches);
    assert_eq!(begin(&asked, true, &chosen), Step::AskToProceed);
    assert_eq!(begin(&asked, false, &chosen), Step::Settle);
    for (answer, yes) in [("y", true), ("YES\n", true), ("n", false), ("", false)] {
        assert_eq!(is_yes(answer), yes, "{answer:?}");
    }
}

fn item(tier: Tier) -> Candidate {
    item_at("/x", tier)
}

fn item_at(path: &str, tier: Tier) -> Candidate {
    CandidateBuilder::new("x.y", Group::Node, "thing").path(path).tier(tier).build()
}

#[test]
fn caution_items_are_asked_about_one_by_one() {
    let chosen = vec![
        item_at("/a", Tier::Safe),
        item_at("/b", Tier::Caution),
        item_at("/c", Tier::Caution),
    ];
    assert_eq!(questions(&chosen, false, true, true), vec![false, true, true]);
    let kept =
        confirm_caution_items(&chosen, false, true, true, &vec![false, true, false]);
    assert_eq!(kept.len(), 2);
    // With nobody to ask, they are left alone.
    let kept =
        confirm_caution_items(&chosen, false, true, false, &vec![true, true, true]);
    assert_eq!(kept.len(), 1);
}

#[test]
fn the_options_follow_the_arguments() {
    let app = app();
    let agreed = CleanArgs { yes: true, dry_run: false, trash: true, ..clean_args() };
    let options = clean_options(&app, &agreed, false);
    assert!(!options.dry_run);
    assert_eq!(options.mode, DeleteMode::Trash);
    assert_eq!(options.trigger, Trigger::Cli);
    let background = CleanArgs { scheduled: true, ..agreed };
    assert_eq!(clean_options(&app, &background, false).trigger, Trigger::Scheduled);
}

#[test]
fn a_failed_item_fails_the_command() {
    let mut record = RunRecord::new(Trigger::Cli, false, 0);
    assert_eq!(exit_code(&record), 0);
    record.items = vec![ItemOutcome {
        id: CandidateId("a".into()),
        provider: "x.y".into(),
        group: Group::Node,
        label: "thing".into(),
        tier: Tier::Safe,
        paths: vec!["/x".into()],
        expected_bytes: 10,
        freed_bytes: 0,
        disposition: Disposition::Failed,
        error: Some("no".into()),
    }];
    assert_ne!(exit_code(&record), 0);
}

#[test]
fn a_history_report_lands_beside_the_journal() {
    let args = |out: Option<&str>| HistoryReportArgs {
        last: 0,
        out: out.map(|p| p.to_string()),
        open: false,
    };
    assert!(report_path(&args(None), "/j").starts_with("/j"));
    assert_eq!(report_path(&args(Some("/tmp/r.html")), "/j"), "/tmp/r.html");
    assert_eq!(report_limit(0), usize::MAX);
    assert_eq!(report_limit(7), 7);
}

#[test]
fn providers_lists_every_ecosystem_and_its_status() {
    let text = providers(&app(), &Style::plain());
    for expected in ["node.caches", "enabled", "rust.caches", "ml.models", "disabled"] {
        assert!(text.contains(expected), "{expected}:\n{text}");
    }
}

#[test]
fn age_filters_accept_human_durations() {
    assert_eq!(parse_days("6w"), Ok(42));
}

#[test]
fn size_filters_accept_human_sizes() {
    assert_eq!(parse_bytes("500MB"), Ok(500 * 1024 * 1024));
}

#[test]
fn an_unparseable_duration_is_rejected_at_the_boundary() {
    assert!(parse_days("soon").is_err());
    assert!(parse_bytes("huge").is_err());
}

#[test]
fn tiers_parse_by_name() {
    assert_eq!(Tier::from_str("review").ok(), Some(Tier::Review));
    assert!(Tier::from_str("reckless").is_err());
}

#[test]
fn the_closest_setting_is_the_one_that_counts() {
    let concurrency = |file: usize, env: Option<&str>, flag: Option<usize>| {
        let mut config = Config::default();
        config.scan.concurrency = file;
        let env = env
            .map(|value| Variable { name: "RECLAIM_CONCURRENCY".into(), value: value.into() })
            .into_iter()
            .collect();
        let global = GlobalArgs { concurrency: flag, ..global() };
        let paths = resolve_paths(&global, &machine(Some(HOME))).unwrap();
        App::new(&global, paths, FileOutcome::Parsed(config), &env).unwrap().config.scan.concurrency
    };
    assert_eq!(concurrency(3, None, None), 3);
    assert_eq!(concurrency(3, Some("5"), None), 5);
    assert_eq!(concurrency(3, Some("many"), None), 3);
    assert_eq!(concurrency(3, Some("5"), Some(7)), 7);
}

#[test]
fn a_cleanup_without_a_set_worker_count_takes_a_few() {
    let mut app = app();
    assert_eq!(clean_options(&app, &clean_args(), false).concurrency, 2);
    app.config.scan.concurrency = 0;
    let workers = clean_options(&app, &clean_args(), false).concurrency;
    assert!((2..=16).contains(&workers), "{workers}");
}

#[test]
fn skipped_items_are_counted_by_their_id() {
    let chosen = vec![
        item_at("/a", Tier::Caution),
        item_at("/b", Tier::Safe),
        item_at("/a", Tier::Caution),
    ];
    let note = |dry_run, confirm, interactive| {
        skipped_note(&chosen, dry_run, confirm, interactive, &Style::plain())
    };
    assert_eq!(
        note(false, true, false).unwrap(),
        "Skipping 1 caution-tier item(s): they require an interactive confirmation."
    );
    assert_eq!(note(true, true, false), None);
    assert_eq!(note(false, false, false), None);
    assert_eq!(note(false, true, true), None);
}
