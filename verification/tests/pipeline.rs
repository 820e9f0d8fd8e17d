//! The scan from discovery to the filtered list.
use reclaim::config::{Config, ScanConfig};
use reclaim::model::{CandidateBuilder, Group, Kind};
use reclaim::pipeline::{
    dedupe, discover, events, filter_from_config, measure_candidate, measure_candidates, scan,
    walk_options, walks_add_up, CandidateWalk, ScanContext, ScanEvent, ScanResult,
};
use reclaim::platform::{Os, Paths, Variable};
use reclaim::providers::containers::Docker;
use reclaim::providers::jvm::JvmProjects;
use reclaim::providers::rust::RustTargets;
use reclaim::providers::testing::TestHome;
use reclaim::providers::AnyProvider;
use reclaim::staleness::Filter;
use reclaim::walk::{LinkTracker, Stat, WalkEntry, Walked};

const HOME: &str = "/home/tester";

/// A home with one Rust project for each name, built at some time.
fn built(names: &[&str]) -> TestHome {
    let mut home = TestHome::new();
    for name in names {
        home.project(&format!("dev/{name}"), &["Cargo.toml"]);
        home.dir(&format!("dev/{name}/target"));
    }
    home
}

fn targets() -> Vec<AnyProvider> {
    vec![AnyProvider::RustTargets(RustTargets)]
}

fn file(ino: u64, nlink: u64, len: u64) -> WalkEntry {
    WalkEntry::Seen(Stat {
        is_dir: false,
        dev: 1,
        ino,
        nlink,
        len,
        allocated: len,
        modified: Some(0),
        accessed: None,
    })
}

fn walk_of(entries: Vec<WalkEntry>) -> CandidateWalk {
    let root = Stat {
        is_dir: true,
        dev: 1,
        ino: 1,
        nlink: 2,
        len: 0,
        allocated: 0,
        modified: Some(0),
        accessed: None,
    };
    CandidateWalk {
        walked: vec![Walked { root: Some(root), entries }],
        source_mtime: None,
        vcs_activity: None,
    }
}

fn no_filter() -> Filter {
    Filter { min_size: 0, include_active: true, ..Filter::default() }
}

/// A scan of what the providers offer, with one walk for each candidate.
fn scanned(
    providers: &Vec<AnyProvider>,
    ctx: &ScanContext,
    walks: Vec<CandidateWalk>,
    filter: &Filter,
) -> ScanResult {
    let found = discover(providers, ctx);
    assert_eq!(found.len(), walks.len());
    let options = walk_options(&ctx.config.scan);
    let measured = measure_candidates(&found, &walks, &options, 1_000_000_000);
    let scores = measured.iter().map(|c| (c.reclaimable() as f64).to_bits()).collect();
    scan(&measured, &scores, filter, 0, 5, Vec::new())
}

#[test]
fn scan_measures_and_ranks_discovered_candidates() {
    let home = built(&["small", "big"]);
    let walks = vec![walk_of(vec![file(10, 1, 1024)]), walk_of(vec![file(11, 1, 512 * 1024)])];
    let result = scanned(&targets(), &home.ctx, walks, &no_filter());

    assert_eq!(result.candidates.len(), 2);
    assert!(result.candidates.iter().all(|c| c.size.is_some()), "all must be measured");
    assert!(result.candidates.iter().all(|c| c.score.is_some()), "all must be scored");
    assert!(result.total_reclaimable() >= 512 * 1024);
    assert!(result.candidates[0].paths[0].ends_with("big/target"), "the best comes first");
}

#[test]
fn shell_candidates_are_dropped_when_pointed_at_a_sandbox() {
    // A sandboxed run must not clean up against the real machine.
    let mut home = TestHome::new();
    home.ctx.disk.commands.push("docker".to_string());
    home.ctx.disk.daemons.push("docker".to_string());
    let providers = vec![AnyProvider::Docker(Docker)];
    assert!(home.ctx.paths.is_sandboxed());
    assert!(
        discover(&providers, &home.ctx).is_empty(),
        "a sandboxed run must not offer machine-global commands"
    );

    let env = vec![Variable { name: "HOME".to_string(), value: HOME.to_string() }];
    home.ctx.paths = Paths::from_env(&env, None, Os::Linux).unwrap();
    assert!(!discover(&providers, &home.ctx).is_empty());
}

#[test]
fn missing_paths_produce_no_candidates() {
    let mut home = TestHome::new();
    home.project("dev/nope", &["Cargo.toml"]);
    let result = scanned(&targets(), &home.ctx, Vec::new(), &no_filter());
    assert!(result.candidates.is_empty());
}

#[test]
fn disabled_providers_are_never_asked() {
    let mut home = built(&["thing"]);
    home.ctx.config.providers.disabled = vec!["rust".into()];
    let result = scanned(&targets(), &home.ctx, Vec::new(), &no_filter());
    assert!(result.candidates.is_empty());
}

#[test]
fn duplicate_paths_from_two_providers_are_offered_once() {
    let mut home = TestHome::new();
    home.project("dev/shared", &["Cargo.toml", "pom.xml"]);
    home.dir("dev/shared/target");
    let providers =
        vec![AnyProvider::RustTargets(RustTargets), AnyProvider::JvmProjects(JvmProjects)];
    assert_eq!(home.discover_all(&providers).len(), 2, "both claim it");
    let walks = vec![walk_of(vec![file(10, 1, 2048)])];
    let result = scanned(&providers, &home.ctx, walks, &no_filter());
    assert_eq!(result.candidates.len(), 1, "the same directory must not be offered twice");
    assert_eq!(result.candidates[0].provider, "rust.target", "the first to claim it keeps it");
}

#[test]
fn the_filter_hides_items_but_the_result_still_accounts_for_them() {
    let home = built(&["small", "big"]);
    let walks = vec![walk_of(vec![file(10, 1, 512)]), walk_of(vec![file(11, 1, 256 * 1024)])];
    let filter = Filter { min_size: 100 * 1024, include_active: true, ..Filter::default() };
    let result = scanned(&targets(), &home.ctx, walks, &filter);

    assert_eq!(result.candidates.len(), 1, "only the big one is offered");
    assert_eq!(result.all.len(), 2, "but both are still accounted for");
    let (count, bytes) = result.hidden();
    assert_eq!(count, 1);
    assert_eq!(bytes, 512, "hidden bytes must be reported, not silently dropped");
    let hidden = &result.all[1].id;
    assert!(result.find(hidden).is_some(), "what is hidden can be found");
}

#[test]
fn a_shared_link_tracker_prevents_double_counting_across_candidates() {
    let home = built(&["store", "project"]);
    let walks =
        vec![walk_of(vec![file(10, 2, 128 * 1024)]), walk_of(vec![file(10, 2, 128 * 1024)])];
    let result = scanned(&targets(), &home.ctx, walks, &no_filter());

    let total = result.total_reclaimable();
    assert!(
        total < 256 * 1024,
        "hardlinked bytes must be counted once across candidates, got {total}"
    );
    assert!(result.candidates.iter().any(|c| c.size.unwrap().shared > 0));
}

#[test]
fn project_artifacts_inherit_staleness_from_their_project() {
    let candidate = CandidateBuilder::new("node.modules", Group::Node, "node_modules")
        .path("/home/tester/dev/app/node_modules")
        .kind(Kind::ProjectArtifact)
        .project("/home/tester/dev/app")
        .build();
    let now = 1_000_000 * 1_000_000_000;
    let walk = CandidateWalk { source_mtime: Some(now), ..walk_of(vec![file(10, 1, 8192)]) };
    let options = walk_options(&ScanConfig::default());
    let measured = measure_candidates(&vec![candidate], &vec![walk], &options, now);
    let signals = measured[0].signals.as_ref().unwrap();

    assert!(signals.source_mtime.is_some(), "project source mtime must be read");
    assert!(signals.active_now, "a project written just now is active");
}

#[test]
fn candidates_without_a_path_are_kept_apart() {
    let bare = || CandidateBuilder::new("x.y", Group::Go, "bare").build();
    assert_eq!(dedupe(vec![bare(), bare()]).len(), 2);
}

#[test]
fn one_thread_walks_serially() {
    let one = ScanConfig { concurrency: 1, ..Default::default() };
    assert_eq!(walk_options(&one).threads, 1);
    assert_eq!(walk_options(&ScanConfig::default()).threads, 0);
}

#[test]
fn the_configured_threshold_becomes_the_filter() {
    assert_eq!(filter_from_config(&Config::default()).min_size, 50 * 1024 * 1024);
    let mut broken = Config::default();
    broken.thresholds.min_size = "bananas".to_string();
    assert_eq!(filter_from_config(&broken).min_size, 0);
}

#[test]
fn groups_are_totalled_largest_first() {
    let home = built(&["a"]);
    let walks = vec![walk_of(vec![file(10, 1, 100)])];
    let result = scanned(&targets(), &home.ctx, walks, &no_filter());
    let totals = result.by_group();
    assert_eq!(totals.len(), 1);
    assert_eq!(totals[0].0, Group::Rust);
    assert_eq!(totals[0].1.on_disk, 100);
}

#[test]
fn progress_events_arrive_in_pipeline_order() {
    let home = built(&["thing"]);
    let found = discover(&targets(), &home.ctx);
    let walks = vec![walk_of(vec![file(10, 1, 4096)])];
    let options = walk_options(&home.ctx.config.scan);
    let measured = measure_candidates(&found, &walks, &options, 0);
    let result = scan(&measured, &vec![0], &no_filter(), 1, 5, Vec::new());
    let events = events(1, 2, found, &measured, result);

    assert!(matches!(events[0], ScanEvent::ProjectsFound { count: 1, .. }));
    assert!(matches!(events[1], ScanEvent::Discovered(_)));
    assert!(matches!(events[2], ScanEvent::Measured { done: 1, total: 1, .. }));
    assert!(matches!(events.last(), Some(ScanEvent::Complete(_))));
}

#[test]
fn one_thread_measures_the_same_bytes_as_many() {
    let home = built(&["thing"]);
    let found = discover(&targets(), &home.ctx);
    let walks = vec![walk_of(vec![file(10, 1, 4096), file(11, 2, 100)])];
    let with = |concurrency| {
        let config = ScanConfig { concurrency, ..Default::default() };
        measure_candidates(&found, &walks, &walk_options(&config), 0)[0].size
    };
    assert_eq!(with(1), with(0));
    assert_eq!(with(1).unwrap().on_disk, 4196);
}

#[test]
fn sizes_that_cannot_be_summed_are_noticed() {
    let options = walk_options(&ScanConfig::default());
    let mut walk = walk_of(vec![file(10, 1, u64::MAX)]);
    assert!(walks_add_up(&vec![walk_of(vec![file(10, 1, 5)])], &options));
    walk.walked.extend(walk_of(vec![file(11, 1, 1)]).walked);
    assert!(!walks_add_up(&vec![walk], &options));
}

#[test]
fn the_thread_count_changes_no_scan() {
    let walks = || vec![walk_of(vec![file(10, 2, 4096)]), walk_of(vec![file(10, 2, 4096)])];
    let result = |concurrency: usize| {
        let mut home = built(&["one", "two"]);
        home.ctx.config.scan.concurrency = concurrency;
        scanned(&targets(), &home.ctx, walks(), &no_filter())
    };
    let serial = result(1);
    assert_eq!(serial.candidates.iter().map(|c| c.reclaimable()).max(), Some(4096));
    for concurrency in [0, 2, 16] {
        assert_eq!(result(concurrency).candidates, serial.candidates);
    }
}

#[test]
fn candidates_measured_one_by_one_are_those_measured_together() {
    let home = built(&["one", "two"]);
    let found = discover(&targets(), &home.ctx);
    let walks = vec![walk_of(vec![file(10, 2, 4096)]), walk_of(vec![file(10, 2, 4096)])];
    let options = walk_options(&home.ctx.config.scan);
    let mut links = LinkTracker::new();
    let singly: Vec<_> = found
        .iter()
        .zip(&walks)
        .map(|(c, w)| measure_candidate(c, w, &mut links, &options, 1_000_000_000).unwrap())
        .collect();
    assert_eq!(measure_candidates(&found, &walks, &options, 1_000_000_000), singly);
    assert_eq!(singly[1].size.unwrap().shared, 4096);
}
