//! What a cleanup orders, and what it records.
use reclaim::config::DeleteMode;
use reclaim::error::Error;
use reclaim::exec::{
    clean, events, needs_explicit_confirmation, order, CleanEvent, CleanOptions, CommandReport,
    Order, Work,
};
use reclaim::journal::{Disposition, RunRecord, Trigger};
use reclaim::model::{Action, Candidate, CandidateBuilder, Group, Signals, Size, Tier};
use reclaim::platform::{Os, Paths};
use reclaim::safety::{PathFacts, PathGuard};

const HOME: &str = "/home/tester";

fn guard() -> PathGuard {
    PathGuard::new(&Paths::with_home(HOME, Os::Linux))
}

fn at(rel: &str) -> String {
    format!("{HOME}/{rel}")
}

fn signals(days: u32) -> Signals {
    Signals {
        artifact_mtime: 0,
        artifact_atime: None,
        source_mtime: None,
        vcs_activity: None,
        last_used_days: days,
        active_now: false,
    }
}

fn measured(path: &str, tier: Tier, on_disk: u64) -> Candidate {
    CandidateBuilder::new("test.thing", Group::Node, "test cache")
        .path(path)
        .tier(tier)
        .build()
        .with_measurement(Size { on_disk, logical: on_disk, ..Size::default() }, signals(400))
}

fn purge_opts() -> CleanOptions {
    CleanOptions {
        dry_run: false,
        mode: DeleteMode::Purge,
        trigger: Trigger::Cli,
        concurrency: 2,
    }
}

fn present(path: &str) -> PathFacts {
    PathFacts { exists: true, symlink: Ok(false), canonical: Ok(path.to_string()) }
}

fn gone() -> PathFacts {
    PathFacts { exists: false, symlink: Err("gone".into()), canonical: Err("gone".into()) }
}

fn done(facts: PathFacts) -> Work {
    Work { facts: vec![facts], errors: Vec::new(), command: CommandReport::Succeeded }
}

/// Runs a cleanup over candidates with one path each, and tells what was removed.
fn run(candidates: &Vec<Candidate>, facts: Vec<PathFacts>, opts: &CleanOptions) -> (RunRecord, Vec<String>) {
    let g = guard();
    let mut removed = Vec::new();
    let mut work = Vec::new();
    for (candidate, fact) in candidates.iter().zip(facts) {
        let facts = vec![fact];
        if let Order::Remove { paths, .. } = order(candidate, &g, opts, &facts) {
            removed.extend(paths);
        }
        work.push(Work { facts, errors: Vec::new(), command: CommandReport::Succeeded });
    }
    (clean(candidates, &g, opts, &work, 0, 1), removed)
}

#[test]
fn a_dry_run_leaves_everything_on_disk() {
    let path = at(".cache/thing");
    let (record, removed) = run(
        &vec![measured(&path, Tier::Safe, 1024)],
        vec![present(&path)],
        &CleanOptions::default(),
    );

    assert!(removed.is_empty(), "dry run must not delete");
    assert_eq!(record.items[0].disposition, Disposition::DryRun);
    assert_eq!(record.bytes_freed(), 0);
    assert!(record.dry_run);
}

#[test]
fn the_default_options_are_a_dry_run() {
    // Deleting must always be an explicit opt-in, including for library callers.
    assert!(CleanOptions::default().dry_run);
}

#[test]
fn purging_removes_the_tree_and_reports_the_bytes() {
    let path = at(".cache/thing");
    let (record, removed) =
        run(&vec![measured(&path, Tier::Safe, 4096)], vec![present(&path)], &purge_opts());

    assert_eq!(removed, vec![path], "purge must remove the tree");
    assert_eq!(record.items[0].disposition, Disposition::Purged);
    assert_eq!(record.bytes_freed(), 4096);
    assert!(record.succeeded());
}

#[test]
fn a_refused_path_fails_that_item_without_touching_it() {
    let path = at(".ssh");
    let (record, removed) =
        run(&vec![measured(&path, Tier::Safe, 512)], vec![present(&path)], &purge_opts());

    assert!(removed.is_empty(), "the guard must have stopped this");
    assert_eq!(record.items[0].disposition, Disposition::Failed);
    assert_eq!(record.bytes_freed(), 0);
    assert!(!record.succeeded());
}

#[test]
fn one_refusal_does_not_stop_the_other_items() {
    let good = at(".cache/good");
    let bad = at(".ssh");
    let (record, removed) = run(
        &vec![measured(&good, Tier::Safe, 2048), measured(&bad, Tier::Safe, 512)],
        vec![present(&good), present(&bad)],
        &purge_opts(),
    );

    assert_eq!(removed, vec![good], "the safe item must still have been reclaimed");
    assert_eq!(record.bytes_freed(), 2048);
    assert_eq!(record.failures().len(), 1);
}

#[test]
fn an_already_missing_path_is_skipped_not_failed() {
    let path = at(".cache/gone");
    let (record, _) = run(&vec![measured(&path, Tier::Safe, 1024)], vec![gone()], &purge_opts());
    assert_eq!(record.items[0].disposition, Disposition::Skipped);
    assert!(record.succeeded(), "already-gone is success for a cleanup tool");
}

#[test]
fn tiered_mode_purges_safe_items() {
    let path = at(".cache/safe-thing");
    let opts = CleanOptions { mode: DeleteMode::Tiered, ..purge_opts() };
    let (record, removed) =
        run(&vec![measured(&path, Tier::Safe, 1024)], vec![present(&path)], &opts);
    assert_eq!(record.items[0].disposition, Disposition::Purged);
    assert_eq!(removed, vec![path]);
}

#[test]
fn tiered_mode_trashes_riskier_items() {
    let path = at(".cache/archives");
    let opts = CleanOptions { mode: DeleteMode::Tiered, ..purge_opts() };
    let c = measured(&path, Tier::Caution, 1024);
    match order(&c, &guard(), &opts, &vec![present(&path)]) {
        Order::Remove { paths, to_trash } => {
            assert!(to_trash);
            assert_eq!(paths, vec![path.clone()]);
        }
        other => panic!("{other:?}"),
    }
    let (record, _) = run(&vec![c], vec![present(&path)], &opts);
    assert_eq!(record.items[0].disposition, Disposition::Trashed);
    assert_eq!(record.bytes_freed(), 0);
    assert_eq!(record.bytes_trashed(), 1024);
}

#[test]
fn a_swapped_symlink_is_refused_at_delete_time() {
    // Valid at scan time, replaced while the user deliberates.
    let path = at(".cache/target");
    let swapped = PathFacts {
        exists: true,
        symlink: Ok(true),
        canonical: Ok(at(".cache/precious")),
    };
    let (record, removed) =
        run(&vec![measured(&path, Tier::Safe, 1024)], vec![swapped], &purge_opts());
    assert_eq!(record.items[0].disposition, Disposition::Failed);
    assert!(removed.is_empty(), "deletion must not have followed the swapped link");
}

fn command(program: &str) -> Candidate {
    CandidateBuilder::new("test.cmd", Group::System, "bogus")
        .path("/nonexistent-marker")
        .action(Action::Shell { program: program.into(), args: vec![] })
        .build()
}

#[test]
fn a_failing_command_is_recorded_rather_than_panicking() {
    let c = command("definitely-not-a-real-program-xyz");
    let work = Work {
        facts: vec![gone()],
        errors: Vec::new(),
        command: CommandReport::NotStarted { error: "no such file".into() },
    };
    let record = clean(&vec![c], &guard(), &purge_opts(), &vec![work], 0, 0);
    assert_eq!(record.items[0].disposition, Disposition::Failed);
    assert!(record.items[0].error.as_ref().unwrap().contains("could not run"));
}

#[test]
fn a_command_that_fails_says_why() {
    let work = Work {
        facts: vec![gone()],
        errors: Vec::new(),
        command: CommandReport::Failed { stderr: "first\nsecond\nthird\nfourth".into() },
    };
    let record = clean(&vec![command("brew")], &guard(), &purge_opts(), &vec![work], 0, 0);
    assert_eq!(record.items[0].disposition, Disposition::Failed);
    let error = record.items[0].error.clone().unwrap();
    assert!(error.contains("first"), "{error}");
    assert!(!error.contains("fourth"), "{error}");
}

#[test]
fn a_successful_command_is_recorded_as_run() {
    let c = command("true")
        .with_measurement(Size { on_disk: 999, ..Size::default() }, signals(100));
    match order(&c, &guard(), &purge_opts(), &vec![gone()]) {
        Order::Run { program, .. } => assert_eq!(program, "true"),
        other => panic!("{other:?}"),
    }
    let record = clean(&vec![c], &guard(), &purge_opts(), &vec![done(gone())], 0, 0);
    assert_eq!(record.items[0].disposition, Disposition::CommandRun);
    assert_eq!(record.bytes_freed(), 999);
}

#[test]
fn an_error_of_removal_fails_the_item() {
    let path = at(".cache/thing");
    let work = Work {
        facts: vec![present(&path)],
        errors: vec![Error::io(&path, false, "denied")],
        command: CommandReport::Succeeded,
    };
    let record =
        clean(&vec![measured(&path, Tier::Safe, 7)], &guard(), &purge_opts(), &vec![work], 3, 4);
    assert_eq!(record.items[0].disposition, Disposition::Failed);
    assert_eq!(record.bytes_freed() + record.bytes_trashed(), 0, "a failure is credited nothing");
    assert!(record.items[0].error.as_ref().unwrap().contains("denied"));
    assert_eq!((record.started_at, record.finished_at), (3, 4));
}

#[test]
fn caution_items_are_flagged_for_confirmation() {
    let safe = measured("/tmp/a", Tier::Safe, 1);
    let caution = measured("/tmp/b", Tier::Caution, 1);
    let items = vec![safe, caution];
    assert_eq!(needs_explicit_confirmation(&items, true).len(), 1);
    assert_eq!(needs_explicit_confirmation(&items, false).len(), 0);
}

#[test]
fn nothing_outside_the_sandbox_is_touched() {
    let victim = "/data/important";
    let (record, removed) =
        run(&vec![measured(victim, Tier::Safe, 1024)], vec![present(victim)], &purge_opts());
    assert_eq!(record.items[0].disposition, Disposition::Failed);
    assert!(removed.is_empty());
}

#[test]
fn every_candidate_gets_an_outcome() {
    let paths = [at(".cache/a"), at(".cache/b"), at(".ssh")];
    let candidates: Vec<Candidate> = paths.iter().map(|p| measured(p, Tier::Safe, 5)).collect();
    let facts = paths.iter().map(|p| present(p)).collect();
    let (record, _) = run(&candidates, facts, &purge_opts());
    assert_eq!(record.items.len(), 3);
    assert_eq!(record.candidates_found, 3);
    assert_eq!(record.bytes_found, 15);
}

#[test]
fn progress_events_describe_the_whole_run() {
    let path = at(".cache/thing");
    let (record, _) =
        run(&vec![measured(&path, Tier::Safe, 1024)], vec![present(&path)], &purge_opts());
    let events = events(&record);
    assert!(matches!(events.first(), Some(CleanEvent::Started { total: 1, .. })));
    assert!(matches!(events.last(), Some(CleanEvent::Finished(_))));
    assert!(events.iter().any(|e| matches!(e, CleanEvent::ItemFinished(_))));
}
