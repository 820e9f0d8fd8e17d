//! History reports.
use reclaim::journal::{Disposition, ItemOutcome, RunRecord, Trigger};
use reclaim::model::{CandidateId, Group, Tier};
use reclaim::report::HistoryReport;

fn secs(n: i128) -> i128 {
    n * 1_000_000_000
}

fn item(group: Group, tier: Tier, disposition: Disposition, bytes: u64) -> ItemOutcome {
    ItemOutcome {
        id: CandidateId("t:1".into()),
        provider: format!("{}.thing", group.as_str()),
        group,
        label: format!("{} cache", group.as_str()),
        tier,
        paths: vec!["/home/t/.cache".to_string()],
        expected_bytes: bytes,
        freed_bytes: bytes,
        disposition,
        error: None,
    }
}

fn failed_item(label: &str, error: &str) -> ItemOutcome {
    let mut i = item(Group::Node, Tier::Safe, Disposition::Failed, 0);
    i.label = label.to_string();
    i.error = Some(error.to_string());
    i
}

fn run_at(n: i128, trigger: Trigger, dry_run: bool, items: Vec<ItemOutcome>) -> RunRecord {
    let mut r = RunRecord::new(trigger, dry_run, 0);
    r.started_at = secs(n);
    r.finished_at = r.started_at;
    r.candidates_found = items.len();
    r.items = items;
    r
}

#[test]
fn lifetime_totals_exclude_dry_runs_and_trashed_items() {
    let records = vec![
        run_at(
            1,
            Trigger::Cli,
            false,
            vec![
                item(Group::Node, Tier::Safe, Disposition::Purged, 1000),
                item(Group::Jvm, Tier::Review, Disposition::Trashed, 5000),
            ],
        ),
        run_at(
            2,
            Trigger::Cli,
            true,
            vec![item(Group::Rust, Tier::Safe, Disposition::DryRun, 9_000_000)],
        ),
    ];

    let report = HistoryReport::build(&records, 0);
    assert_eq!(report.runs, 2);
    assert_eq!(report.real_runs, 1);
    assert_eq!(report.dry_runs, 1);
    assert_eq!(report.lifetime_freed, 1000, "trashed and dry-run bytes must not count as freed");
    assert_eq!(report.lifetime_trashed, 5000);
}

#[test]
fn by_group_ranks_the_largest_ecosystem_first() {
    let records = vec![run_at(
        1,
        Trigger::Cli,
        false,
        vec![
            item(Group::Node, Tier::Safe, Disposition::Purged, 1_000),
            item(Group::Jvm, Tier::Safe, Disposition::Purged, 50_000),
        ],
    )];

    let report = HistoryReport::build(&records, 0);
    assert_eq!(report.by_group[0].group, Group::Jvm);
    assert_eq!(report.by_group[0].freed, 50_000);
    assert_eq!(report.by_group[1].group, Group::Node);
}

#[test]
fn timeline_is_chronological_with_a_running_total() {
    let records = vec![
        run_at(
            200,
            Trigger::Cli,
            false,
            vec![item(Group::Node, Tier::Safe, Disposition::Purged, 100)],
        ),
        run_at(
            100,
            Trigger::Cli,
            false,
            vec![item(Group::Node, Tier::Safe, Disposition::Purged, 50)],
        ),
    ];

    // Passed in reverse, as a journal hands them out.
    let report = HistoryReport::build(&records, 0);
    assert_eq!(report.timeline.len(), 2);
    assert_eq!(report.timeline[0].started_at, records[1].started_at, "oldest first");
    assert_eq!(report.timeline[0].cumulative_freed, 50);
    assert_eq!(report.timeline[1].cumulative_freed, 150);
}

#[test]
fn failures_are_collected_across_runs_newest_first() {
    let records = vec![
        run_at(1, Trigger::Scheduled, false, vec![failed_item("a", "permission denied")]),
        run_at(2, Trigger::Scheduled, false, vec![failed_item("b", "not found")]),
    ];

    let report = HistoryReport::build(&records, 0);
    assert_eq!(report.failed_items, 2);
    assert_eq!(report.failures.len(), 2);
    assert_eq!(report.failures[0].label, "b", "most recent failure first");
    assert_eq!(report.failures[0].error, "not found");
}

#[test]
fn top_items_are_capped_and_sorted_descending() {
    let items: Vec<ItemOutcome> =
        (0..20).map(|i| item(Group::Node, Tier::Safe, Disposition::Purged, i * 10)).collect();
    let records = vec![run_at(1, Trigger::Cli, false, items)];

    let report = HistoryReport::build(&records, 0);
    assert_eq!(report.top_items.len(), reclaim::report::TOP_ITEMS_LIMIT);
    assert_eq!(report.top_items[0].bytes, 190, "largest first");
    assert!(report.top_items.windows(2).all(|w| w[0].bytes >= w[1].bytes));
}

#[test]
fn an_empty_journal_produces_a_zeroed_report_not_a_panic() {
    let report = HistoryReport::build(&Vec::new(), 0);
    assert_eq!(report.runs, 0);
    assert_eq!(report.lifetime_freed, 0);
    assert!(report.by_group.is_empty());
    assert!(report.timeline.is_empty());
}

#[test]
fn the_order_of_records_does_not_change_the_figures() {
    let make = |n: i128, bytes: u64| {
        run_at(
            n,
            Trigger::Cli,
            false,
            vec![item(Group::Go, Tier::Safe, Disposition::Purged, bytes)],
        )
    };
    let forward = HistoryReport::build(&vec![make(1, 5), make(2, 7)], 0);
    let backward = HistoryReport::build(&vec![make(2, 7), make(1, 5)], 0);
    assert_eq!(forward.lifetime_freed, backward.lifetime_freed);
    assert_eq!(forward.timeline, backward.timeline);
    assert_eq!(forward.timeline[1].cumulative_freed, forward.lifetime_freed);
}

#[test]
fn triggers_are_counted_with_what_they_freed() {
    let records = vec![
        run_at(1, Trigger::Cli, false, vec![item(Group::Go, Tier::Safe, Disposition::Purged, 5)]),
        run_at(2, Trigger::Scheduled, false, vec![]),
        run_at(3, Trigger::Scheduled, false, vec![]),
    ];
    let report = HistoryReport::build(&records, 0);
    assert_eq!(report.by_trigger[0].label, "scheduled");
    assert_eq!(report.by_trigger[0].runs, 2);
    assert_eq!(report.by_trigger[1].freed, 5);
}

#[test]
fn an_overflowing_history_cannot_be_built() {
    let big = |n| {
        run_at(n, Trigger::Cli, false, vec![item(Group::Go, Tier::Safe, Disposition::Purged, u64::MAX)])
    };
    assert!(HistoryReport::can_build(&vec![big(1)]));
    assert!(!HistoryReport::can_build(&vec![big(1), big(2)]));
}

#[test]
fn the_groups_and_triggers_account_for_every_run() {
    let records = vec![
        run_at(1, Trigger::Cli, false, vec![item(Group::Node, Tier::Safe, Disposition::Purged, 100)]),
        run_at(2, Trigger::Web, false, vec![item(Group::Jvm, Tier::Safe, Disposition::CommandRun, 30)]),
        run_at(3, Trigger::Cli, true, vec![item(Group::Go, Tier::Safe, Disposition::DryRun, 0)]),
    ];
    let report = HistoryReport::build(&records, 0);
    assert_eq!(report.by_group.iter().map(|g| g.freed).sum::<u64>(), report.lifetime_freed);
    assert_eq!(report.lifetime_freed, 130);
    assert_eq!(report.by_trigger.iter().map(|t| t.runs).sum::<usize>(), report.runs);
}

#[test]
fn a_shuffled_journal_gives_the_same_report() {
    let records = vec![
        run_at(4, Trigger::Cli, false, vec![item(Group::Node, Tier::Safe, Disposition::Purged, 100)]),
        run_at(1, Trigger::Web, false, vec![failed_item("a", "busy"), failed_item("b", "gone")]),
        run_at(3, Trigger::Scheduled, true, vec![item(Group::Go, Tier::Safe, Disposition::DryRun, 9)]),
        run_at(2, Trigger::Cli, false, vec![item(Group::Jvm, Tier::Review, Disposition::Trashed, 100)]),
    ];
    let report = HistoryReport::build(&records, 7);
    for order in [[3, 2, 1, 0], [1, 3, 2, 0], [2, 0, 3, 1]] {
        let shuffled: Vec<RunRecord> = order.iter().map(|i| records[*i].clone()).collect();
        assert_eq!(HistoryReport::build(&shuffled, 7), report);
    }
    assert_eq!(report.failures[0].label, "a");
    assert_eq!(report.by_trigger[0].label, "cli");
}

#[test]
fn a_report_forms_no_sum_of_what_was_expected() {
    let mut big = item(Group::Go, Tier::Safe, Disposition::Purged, 8);
    big.expected_bytes = u64::MAX;
    let records = vec![run_at(1, Trigger::Cli, false, vec![big.clone(), big])];
    assert!(HistoryReport::can_build(&records));
    assert_eq!(HistoryReport::build(&records, 0).lifetime_freed, 16);
}
