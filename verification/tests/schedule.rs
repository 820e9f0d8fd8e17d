//! Background schedules.
use reclaim::cli::args::ScheduleInstallArgs;
use reclaim::cli::render::Style;
use reclaim::cli::schedule::{
    escape_xml, may_install, plan, render_unit, run_now, scheduled_command, status, systemd_service,
    uninstalled, unit_path, Cadence,
};
use reclaim::config::ScheduleConfig;
use reclaim::model::Tier;
use reclaim::platform::{Os, Paths};

#[test]
fn cadences_parse_and_describe_themselves() {
    assert_eq!(Cadence::parse("weekly").unwrap().weekday, Some(0));
    assert!(Cadence::parse("biweekly").unwrap().biweekly);
    assert_eq!(Cadence::parse("monthly").unwrap().day, Some(1));
    assert_eq!(Cadence::parse("daily").unwrap().weekday, None);

    assert!(Cadence::parse("weekly").unwrap().describe().contains("Sunday"));
    assert!(Cadence::parse("monthly").unwrap().describe().contains("monthly"));
}

#[test]
fn an_unknown_cadence_is_rejected_with_the_valid_options() {
    let err = Cadence::parse("occasionally").unwrap_err().to_string();
    assert!(err.contains("weekly"), "the error must list what is accepted: {err}");
}

#[test]
fn scheduled_runs_default_to_the_safe_tier_only() {
    let cmd = scheduled_command("/usr/local/bin/reclaim", &vec![Tier::Safe], 60, false);
    assert!(cmd.contains(&"--tier".to_string()));
    assert!(cmd.contains(&"safe".to_string()));
    assert!(cmd.contains(&"--scheduled".to_string()));
    assert!(cmd.contains(&"60d".to_string()));
}

#[test]
fn the_first_scheduled_run_can_be_a_dry_run() {
    let cmd = scheduled_command("/x/reclaim", &vec![Tier::Safe], 60, true);
    assert!(cmd.contains(&"--dry-run".to_string()));
}

#[test]
fn installing_with_the_caution_tier_is_refused() {
    // Nobody is watching when a background job runs.
    let args = ScheduleInstallArgs {
        cadence: Some("weekly".into()),
        tier: vec![Tier::Safe, Tier::Caution],
        older_than: None,
        force: false,
    };
    let err = plan(&ScheduleConfig::default(), &args).unwrap_err();
    assert!(err.contains("caution"), "{err}");
}

#[test]
fn status_on_a_clean_machine_says_nothing_is_installed() {
    let config = ScheduleConfig::default();
    let text = status("/x/unit", false, &config, &vec![], &Style::plain()).unwrap();
    assert!(text.contains("No scheduled cleanup"), "{text}");
    let text = status("/x/unit", true, &config, &vec![], &Style::plain()).unwrap();
    assert!(text.contains("/x/unit"), "{text}");
}

#[test]
fn uninstalling_when_nothing_is_installed_is_not_an_error() {
    let text = uninstalled("/x/unit", false, &Style::plain());
    assert!(text.contains("Nothing to uninstall"), "{text}");
}

#[test]
fn a_unit_is_not_replaced_unasked() {
    assert!(may_install("/x/unit", false, false).is_ok());
    assert!(may_install("/x/unit", true, true).is_ok());
    let err = may_install("/x/unit", true, false).unwrap_err();
    assert!(err.contains("--force"), "{err}");
}

#[test]
fn systemd_calendar_expressions_are_well_formed() {
    assert_eq!(Cadence::parse("weekly").unwrap().to_systemd(), "Sun 03:00:00");
    assert_eq!(Cadence::parse("monthly").unwrap().to_systemd(), "*-*-01 03:00:00");
    assert_eq!(Cadence::parse("daily").unwrap().to_systemd(), "*-*-* 03:00:00");
}

#[test]
fn the_launchd_plist_is_well_formed_and_low_priority() {
    let paths = Paths::with_home("/Users/tester", Os::MacOs);
    let command = scheduled_command("/x/reclaim", &vec![Tier::Safe], 60, true);
    let units = render_unit(&paths, &command, Cadence::parse("weekly").unwrap(), 30).unwrap();
    assert_eq!(units.len(), 1);
    assert_eq!(units[0].path, unit_path(&paths).unwrap());
    let plist = &units[0].contents;

    assert!(plist.starts_with("<?xml"));
    assert!(plist.contains("<key>Label</key>"));
    assert!(plist.contains("dev.reclaim.cleanup"));
    assert!(plist.contains("<key>Weekday</key><integer>0</integer>"));
    // Must never fight an interactive build for IO.
    assert!(plist.contains("<string>Background</string>"));
    assert!(plist.contains("<key>LowPriorityIO</key>"));
    assert_eq!(
        plist.matches("<dict>").count(),
        plist.matches("</dict>").count(),
        "unbalanced plist"
    );
}

#[test]
fn plist_arguments_are_xml_escaped() {
    // A home directory containing `&` would otherwise produce invalid XML.
    assert_eq!(escape_xml("a & b <c>"), "a &amp; b &lt;c&gt;");
}

#[test]
fn a_systemd_machine_gets_a_service_and_a_timer() {
    let paths = Paths::with_home("/home/tester", Os::Linux);
    let command = scheduled_command("/x/reclaim", &vec![Tier::Safe, Tier::Review], 60, false);
    let units = render_unit(&paths, &command, Cadence::parse("daily").unwrap(), 30).unwrap();
    assert_eq!(units.len(), 2);
    assert!(units.iter().any(|u| u.path.ends_with(".service")));
    assert!(units.iter().any(|u| u.contents.contains("OnCalendar=*-*-* 03:00:00")));
    assert!(systemd_service(&command, 30).contains("/x/reclaim"));
}

#[test]
fn a_scheduled_run_now_spares_the_caution_tier() {
    let config = ScheduleConfig { tiers: vec![Tier::Safe, Tier::Review], ..Default::default() };
    let args = run_now(&config, true);
    assert!(args.scheduled);
    assert!(args.dry_run);
    assert_ne!(args.filter.tier, Some(Tier::Caution));
}
