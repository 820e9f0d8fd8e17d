//! Reports for the terminal and the history page.
use reclaim::cli::render::{
    clean_preview, history_report, is_reportable, run_report, scan_report, Style,
};
use reclaim::cli::report_html::{esc, highest_running_total, is_drawable, render, thousands, PlotPoint};
use reclaim::journal::{Disposition, ItemOutcome, RunRecord, Trigger};
use reclaim::model::{
    Candidate, CandidateBuilder, CandidateId, Group, Severity, Signals, Size, Tier, Warning,
};
use reclaim::pipeline::ScanResult;
use reclaim::platform::{Os, Paths};
use reclaim::report::HistoryReport;

fn paths() -> Paths {
    Paths::with_home("/home/tester", Os::Linux)
}

fn candidate(tier: Tier, on_disk: u64, days: u32, warnings: Vec<Warning>) -> Candidate {
    let mut builder = CandidateBuilder::new("test.thing", Group::Node, "npm cache")
        .path("/home/tester/.npm")
        .tier(tier);
    for warning in warnings {
        builder = builder.warn(warning);
    }
    builder.build().with_measurement(
        Size { on_disk, logical: on_disk, ..Size::default() },
        Signals {
            artifact_mtime: 0,
            artifact_atime: None,
            source_mtime: None,
            vcs_activity: None,
            last_used_days: days,
            active_now: false,
        },
    )
}

fn result(candidates: Vec<Candidate>) -> ScanResult {
    ScanResult {
        all: candidates.clone(),
        candidates,
        projects_scanned: 3,
        elapsed_ms: 1500,
        unreadable: Vec::new(),
    }
}

fn report(result: &ScanResult) -> String {
    assert!(is_reportable(result));
    scan_report(result, &paths(), &Style::plain())
}

#[test]
fn a_scan_row_carries_size_tier_age_and_regeneration_cost() {
    let text = report(&result(vec![candidate(Tier::Safe, 2 * 1024 * 1024 * 1024, 120, vec![])]));

    assert!(text.contains("2.00 GB"), "{text}");
    assert!(text.contains("safe"), "{text}");
    assert!(text.contains("4 months ago"), "{text}");
    assert!(text.contains("~/.npm"), "paths must be shown relative to home: {text}");
    assert!(text.contains("auto on"), "regeneration cost must be shown: {text}");
}

#[test]
fn warnings_are_printed_not_truncated_away() {
    // The whole point of the tool is the evidence, so it must never be elided.
    let text = report(&result(vec![candidate(
        Tier::Caution,
        1024,
        400,
        vec![Warning::danger("Contains dSYMs for shipped builds.")],
    )]));
    assert!(text.contains("Contains dSYMs for shipped builds."), "{text}");
}

#[test]
fn each_ecosystem_heading_is_printed_exactly_once() {
    // The ranked list interleaves ecosystems.
    let mut rust_big = candidate(Tier::Safe, 20 * 1024 * 1024 * 1024, 300, vec![]);
    rust_big.group = Group::Rust;
    rust_big.id = CandidateId("rust:1".into());

    let mut node = candidate(Tier::Safe, 10 * 1024 * 1024 * 1024, 300, vec![]);
    node.group = Group::Node;
    node.id = CandidateId("node:1".into());

    let mut rust_small = candidate(Tier::Safe, 1024 * 1024 * 1024, 300, vec![]);
    rust_small.group = Group::Rust;
    rust_small.id = CandidateId("rust:2".into());

    let text = report(&result(vec![rust_big, node, rust_small]));

    assert_eq!(text.matches("Rust").count(), 1, "duplicate Rust heading:\n{text}");
    assert_eq!(text.matches("Node.js").count(), 1, "duplicate Node heading:\n{text}");
    // Biggest ecosystem first.
    assert!(
        text.find("Rust").unwrap() < text.find("Node.js").unwrap(),
        "groups should be ordered by size:\n{text}"
    );
}

#[test]
fn an_empty_result_says_so_plainly() {
    let text = report(&result(vec![]));
    assert!(text.contains("Nothing to reclaim"), "{text}");
}

#[test]
fn hidden_items_are_accounted_for_rather_than_dropped() {
    let shown = candidate(Tier::Safe, 5 * 1024 * 1024 * 1024, 100, vec![]);
    let mut hidden = candidate(Tier::Safe, 1024, 100, vec![]);
    hidden.id = CandidateId("other:1".into());

    let result = ScanResult {
        candidates: vec![shown.clone()],
        all: vec![shown, hidden],
        projects_scanned: 1,
        elapsed_ms: 100,
        unreadable: Vec::new(),
    };

    let text = report(&result);
    assert!(text.contains("1 more item"), "{text}");
    assert!(text.contains("--all"), "the user must be told how to see them: {text}");
}

#[test]
fn a_partial_walk_is_reported_as_a_lower_bound() {
    let mut r = result(vec![candidate(Tier::Safe, 1024, 100, vec![])]);
    r.unreadable = vec!["/home/tester/.locked".into()];
    let text = report(&r);
    assert!(text.contains("lower bound"), "totals must not look exact: {text}");
}

#[test]
fn shared_bytes_are_surfaced_on_the_row() {
    let mut c = candidate(Tier::Review, 1024 * 1024, 100, vec![]);
    c.size = Some(Size {
        on_disk: 1024 * 1024,
        shared: 8 * 1024 * 1024,
        ..Size::default()
    });
    let text = report(&result(vec![c]));
    assert!(text.contains("shared"), "hardlinked bytes must be visible: {text}");
}

fn outcome(label: &str, bytes: u64, disposition: Disposition, error: Option<&str>) -> ItemOutcome {
    ItemOutcome {
        id: CandidateId(label.into()),
        provider: "x.y".into(),
        group: Group::Node,
        label: label.into(),
        tier: Tier::Safe,
        paths: vec!["/x".into()],
        expected_bytes: 10,
        freed_bytes: bytes,
        disposition,
        error: error.map(|e| e.to_string()),
    }
}

#[test]
fn a_run_report_separates_trashed_from_freed() {
    let mut record = RunRecord::new(Trigger::Cli, false, 0);
    record.items = vec![
        ItemOutcome {
            id: CandidateId("a".into()),
            provider: "node.npm-cache".into(),
            group: Group::Node,
            label: "npm cache".into(),
            tier: Tier::Safe,
            paths: vec!["/home/t/.npm".into()],
            expected_bytes: 1000,
            freed_bytes: 1000,
            disposition: Disposition::Purged,
            error: None,
        },
        ItemOutcome {
            id: CandidateId("b".into()),
            provider: "apple.archives".into(),
            group: Group::Apple,
            label: "Xcode Archives".into(),
            tier: Tier::Caution,
            paths: vec!["/home/t/Archives".into()],
            expected_bytes: 5000,
            freed_bytes: 5000,
            disposition: Disposition::Trashed,
            error: None,
        },
    ];

    let text = run_report(&record, &Style::plain());
    assert!(text.contains("removed"), "{text}");
    assert!(text.contains("trashed"), "{text}");
    assert!(
        text.contains("still occupies disk"),
        "trashed bytes must not be presented as freed: {text}"
    );
}

#[test]
fn failures_show_their_error_text() {
    let mut record = RunRecord::new(Trigger::Cli, false, 0);
    record.items =
        vec![outcome("thing", 0, Disposition::Failed, Some("permission denied"))];
    let text = run_report(&record, &Style::plain());
    assert!(text.contains("FAILED"), "{text}");
    assert!(text.contains("permission denied"), "{text}");
}

#[test]
fn styling_is_inert_when_disabled() {
    let plain = Style::plain();
    assert_eq!(plain.red("x"), "x");
    assert_eq!(plain.tier(Tier::Caution), "caution");
}

#[test]
fn styling_wraps_the_text_on_a_terminal() {
    let style = Style::new(false, false, true);
    assert_eq!(style.red("x"), "\u{1b}[31mx\u{1b}[0m");
    assert!(style.severity(Severity::Danger, "x").contains('x'));
    for off in [Style::new(true, false, true), Style::new(false, true, true), Style::new(false, false, false)] {
        assert_eq!(off.bold("x"), "x");
    }
}

#[test]
fn history_is_readable_when_empty() {
    assert!(history_report(&vec![], 0, &Style::plain()).contains("No runs recorded"));
}

#[test]
fn a_preview_names_every_candidate() {
    let text = clean_preview(
        &vec![candidate(Tier::Review, 2048, 3, vec![Warning::info("mind this")])],
        &paths(),
        &Style::plain(),
    );
    assert!(text.contains("npm cache"), "{text}");
    assert!(text.contains("2.00 KB"), "{text}");
}

#[test]
fn a_history_page_escapes_what_it_quotes() {
    assert_eq!(esc("<a href='x'>&\"</a>"), "&lt;a href=&#39;x&#39;&gt;&amp;&quot;&lt;/a&gt;");
    assert_eq!(esc("plain"), "plain");

    let mut record = RunRecord::new(Trigger::Cli, false, 0);
    record.items = vec![
        outcome("<script>", 4096, Disposition::Purged, None),
        outcome("bad", 0, Disposition::Failed, Some("<b>no</b>")),
    ];
    let records = vec![record];
    assert!(HistoryReport::can_build(&records));
    let report = HistoryReport::build(&records, 0);
    assert!(is_drawable(&report));
    assert_eq!(highest_running_total(&report.timeline), 4096);
    let plot: Vec<PlotPoint> = report
        .timeline
        .iter()
        .map(|_| PlotPoint { x: "10.0".into(), y: "20.0".into() })
        .collect();
    let page = render(&report, "1.2.3", &plot, 0);
    assert!(page.contains("&lt;script&gt;"));
    assert!(!page.contains("<script>"));
    assert!(!page.contains("<b>no</b>"));
    assert!(page.contains("1.2.3"));
}

#[test]
fn an_empty_history_page_still_renders() {
    let report = HistoryReport::build(&vec![], 0);
    let page = render(&report, "1.2.3", &vec![], 0);
    assert!(page.contains("<html"), "{page}");
}

#[test]
fn thousands_are_separated() {
    assert_eq!(thousands(0), "0");
    assert_eq!(thousands(999), "999");
    assert_eq!(thousands(1000), "1,000");
    assert_eq!(thousands(1_234_567), "1,234,567");
}

#[test]
fn a_hostile_history_adds_no_tag_to_the_page() {
    let hostile = [
        "<script src=x>",
        "<img src=x onerror=y>",
        "<link rel=stylesheet>",
        "<iframe>",
        "<object>",
        "<embed>",
    ];
    let mut record = RunRecord::new(Trigger::Cli, false, 0);
    record.items = hostile
        .iter()
        .map(|label| outcome(label, 4096, Disposition::Failed, Some(label)))
        .chain(hostile.iter().map(|label| outcome(label, 4096, Disposition::Purged, None)))
        .collect();
    let report = HistoryReport::build(&vec![record], 0);
    let plot = vec![PlotPoint { x: "10.0".into(), y: "20.0".into() }];
    assert!(is_drawable(&report));
    let page = render(&report, "<script>", &plot, 0);
    for tag in ["<script", "<img", "<link", "<iframe", "<object", "<embed"] {
        assert!(!page.contains(tag), "{tag}");
    }
    assert!(page.contains("&lt;img src=x onerror=y&gt;"));
}
