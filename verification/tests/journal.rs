//! Records of runs.
use reclaim::journal::{Disposition, ItemOutcome, Journal, RunRecord, Trigger};
use reclaim::model::{CandidateId, Group, Tier};

fn secs(n: i128) -> i128 {
    n * 1_000_000_000
}

fn item(disposition: Disposition, bytes: u64) -> ItemOutcome {
    ItemOutcome {
        id: CandidateId("test:1".into()),
        provider: "node.npm-cache".into(),
        group: Group::Node,
        label: "npm cache".into(),
        tier: Tier::Safe,
        paths: vec!["/home/t/.npm".into()],
        expected_bytes: bytes,
        freed_bytes: bytes,
        disposition,
        error: None,
    }
}

#[test]
fn trashed_bytes_are_not_counted_as_freed() {
    // A tool that says "freed 40 GB" while the disk is unchanged is lying.
    let mut record = RunRecord::new(Trigger::Cli, false, 0);
    record.items = vec![item(Disposition::Purged, 1000), item(Disposition::Trashed, 5000)];
    assert_eq!(record.bytes_freed(), 1000);
    assert_eq!(record.bytes_trashed(), 5000);
}

#[test]
fn dry_runs_report_what_would_have_happened() {
    let mut record = RunRecord::new(Trigger::Cli, true, 0);
    record.items = vec![item(Disposition::DryRun, 2048)];
    assert_eq!(record.bytes_freed(), 0);
    assert!(record.summary().starts_with("dry run"), "{}", record.summary());
    assert_eq!(record.summary(), "dry run: 1 items, 2.00 KB would be freed");
}

#[test]
fn failures_are_surfaced_in_the_summary() {
    let mut record = RunRecord::new(Trigger::Cli, false, 0);
    let mut failed = item(Disposition::Failed, 0);
    failed.error = Some("permission denied".into());
    record.items = vec![item(Disposition::Purged, 100), failed];
    assert!(!record.succeeded());
    assert_eq!(record.failures().len(), 1);
    assert!(record.summary().contains("1 failed"), "{}", record.summary());
}

#[test]
fn records_roundtrip_through_the_journal() {
    // What a journal holds is handed back as it was read.
    let journal = Journal::new("/state/history");
    let mut record = RunRecord::new(Trigger::Scheduled, false, secs(5));
    record.items = vec![item(Disposition::Purged, 4096)];
    record.candidates_found = 7;
    let id = record.id.clone();

    let path = journal.write(&record);
    assert!(path.starts_with("/state/history/"), "{path}");
    assert!(path.ends_with(".json"), "{path}");
    let read = journal.last(&vec![Some(record)]).unwrap();
    assert_eq!(read.id, id);
    assert_eq!(read.trigger, Trigger::Scheduled);
    assert_eq!(read.candidates_found, 7);
    assert_eq!(read.bytes_freed(), 4096);
}

fn record_at(n: i128) -> RunRecord {
    let mut r = RunRecord::new(Trigger::Cli, false, 0);
    r.started_at = secs(1000 + n);
    r.candidates_found = n as usize;
    r
}

fn file_name(path: &str) -> String {
    path.rsplit('/').next().unwrap().to_string()
}

#[test]
fn recent_runs_come_back_newest_first() {
    let journal = Journal::new("/state/history");
    let records: Vec<RunRecord> = (0..3).map(record_at).collect();
    let names: Vec<String> = records.iter().map(|r| file_name(&journal.write(r))).collect();
    let ordered = journal.newest_first(&names);
    let found: Vec<Option<RunRecord>> = ordered
        .iter()
        .map(|name| {
            let at = names.iter().position(|n| n == name).unwrap();
            Some(records[at].clone())
        })
        .collect();
    let recent = journal.read_recent(&found, 10);
    assert_eq!(recent.len(), 3);
    assert_eq!(recent[0].candidates_found, 2, "newest first");
    assert_eq!(journal.read_recent(&found, 2).len(), 2);
}

#[test]
fn a_corrupt_record_does_not_break_reading_the_others() {
    let journal = Journal::new("/state/history");
    let found = vec![None, Some(record_at(1))];
    assert_eq!(journal.read_recent(&found, 10).len(), 1);
}

#[test]
fn reading_a_missing_journal_directory_is_empty_not_an_error() {
    let journal = Journal::new("/nonexistent/reclaim/history");
    assert!(journal.read_recent(&Vec::new(), 5).is_empty());
    assert!(journal.last(&Vec::new()).is_none());
}

#[test]
fn prune_keeps_the_newest_records() {
    let journal = Journal::new("/state/history");
    let names: Vec<String> = (0..5).map(|n| file_name(&journal.write(&record_at(n)))).collect();
    let doomed = journal.prune(&names, 2);
    assert_eq!(doomed.len(), 3);
    for name in &names[..3] {
        assert!(doomed.iter().any(|d| d.ends_with(name.as_str())), "{name} is old");
    }
    for name in &names[3..] {
        assert!(!doomed.iter().any(|d| d.ends_with(name.as_str())), "{name} is new");
    }
}

#[test]
fn other_files_are_no_records() {
    let journal = Journal::new("/state/history");
    let names = vec!["report.html".to_string(), "x.json".to_string()];
    assert_eq!(journal.newest_first(&names).len(), 1);
}

#[test]
fn every_run_has_an_identifier_of_its_own() {
    let a = RunRecord::new(Trigger::Web, false, 0);
    let b = RunRecord::new(Trigger::Web, false, 0);
    assert_ne!(a.id, b.id);
    assert_eq!(a.id.len(), 36);
    assert_eq!(a.id.as_bytes()[14], b'4');
}

#[test]
fn sums_are_formed_only_while_they_fit() {
    let mut record = RunRecord::new(Trigger::Cli, false, 0);
    record.items = vec![item(Disposition::Purged, u64::MAX), item(Disposition::Purged, 1)];
    assert!(!record.sums_fit());
    record.items.pop();
    assert!(record.sums_fit());
    assert_eq!(record.bytes_freed(), u64::MAX);
}

#[test]
fn names_sort_as_the_runs_started() {
    let journal = Journal::new("/h");
    let early = file_name(&journal.write(&record_at(0)));
    let late = file_name(&journal.write(&record_at(9_000_000)));
    assert!(early < late, "{early} {late}");
}

#[test]
fn what_was_freed_adds_up_whatever_was_expected() {
    let mut record = RunRecord::new(Trigger::Cli, false, 0);
    let mut big = item(Disposition::Purged, 5);
    big.expected_bytes = u64::MAX;
    record.items = vec![big.clone(), big, item(Disposition::Trashed, u64::MAX)];
    assert!(record.sums_fit());
    record.dry_run = true;
    assert!(!record.sums_fit(), "the line of a dry run adds up what was expected");
    assert_eq!(record.bytes_freed(), 10);
    assert_eq!(record.bytes_trashed(), u64::MAX);
}

#[test]
fn a_first_record_is_the_last_one() {
    let journal = Journal::new("/state/history");
    let mut names = vec!["report.html".to_string()];
    assert!(journal.newest_first(&names).is_empty());
    let record = record_at(3);
    let name = file_name(&journal.write(&record));
    names.push(name.clone());
    assert_eq!(journal.newest_first(&names), vec![name]);
    assert_eq!(journal.last(&vec![Some(record.clone())]), Some(record));
}
