//! Whole commands against a home directory in memory: scan, decide, clean, report.
use reclaim::cli::app::{resolve_paths, App, Machine, Purpose};
use reclaim::cli::args::{CleanArgs, FilterArgs, GlobalArgs, ScanArgs, ScheduleInstallArgs};
use reclaim::cli::commands::{
    announcement, begin, clean_filter, clean_options, closing, confirm_caution_items, exit_code,
    is_dry_run, may_init, questions, scan_purpose, Step,
};
use reclaim::cli::render::{clean_preview, history_report, scan_report, Style};
use reclaim::cli::schedule::{plan, status, unit_path};
use reclaim::config::{Config, FileOutcome};
use reclaim::exec::{clean, order, CommandReport, Order, Work};
use reclaim::format::parse_bytes;
use reclaim::journal::RunRecord;
use reclaim::model::{Candidate, Group, Tier};
use reclaim::pipeline::{
    discover, measure_candidates, scan, walk_options, CandidateWalk, ScanResult,
};
use reclaim::platform::Os;
use reclaim::providers::testing::TestHome;
use reclaim::safety::PathFacts;
use reclaim::walk::{Stat, WalkEntry, Walked};

const HOME: &str = "/home/tester";
const NOW: i128 = 1_700_000_000_000_000_000;

struct File {
    path: String,
    ino: u64,
    nlink: u64,
    len: u64,
}

/// A home with a realistic set of caches and projects.
struct Sandbox {
    home: TestHome,
    files: Vec<File>,
}

impl Sandbox {
    fn new() -> Self {
        Sandbox { home: TestHome::new(), files: Vec::new() }
    }

    fn file(&mut self, rel: &str, len: u64) {
        let ino = 100 + self.files.len() as u64;
        self.linked_file(rel, len, ino, 1);
    }

    fn linked_file(&mut self, rel: &str, len: u64, ino: u64, nlink: u64) {
        self.home.file(rel);
        self.files.push(File { path: self.home.path(rel), ino, nlink, len });
    }

    fn project(&mut self, rel: &str, markers: &[&str]) {
        self.home.project(rel, markers);
        for marker in markers {
            self.file(&format!("{rel}/{marker}"), 32);
        }
    }

    /// A populated home: global caches plus a project with a lockfile.
    fn populated() -> Self {
        let mut sandbox = Self::new();
        sandbox.file(".npm/_cacache/blob", 2_000_000);
        sandbox.file(".gradle/caches/modules-2/lib.jar", 3_000_000);
        sandbox.project("dev/app", &["package.json", "package-lock.json"]);
        sandbox.file("dev/app/node_modules/pkg/index.js", 4_000_000);
        sandbox
    }

    fn has(&self, rel: &str) -> bool {
        let path = self.home.path(rel);
        let under = format!("{path}/");
        self.files.iter().any(|f| f.path == path || f.path.starts_with(&under))
    }

    fn app(&self) -> App {
        let global = GlobalArgs {
            config: None,
            root: Some(HOME.to_string()),
            concurrency: Some(2),
            verbose: 0,
            no_color: true,
        };
        let machine = Machine {
            env: Vec::new(),
            system_home: None,
            os: Os::Linux,
            root: Some(HOME.to_string()),
        };
        let paths = resolve_paths(&global, &machine).unwrap();
        App::new(&global, paths, FileOutcome::Parsed(self.home.ctx.config.clone()), &Vec::new()).unwrap()
    }

    fn walk(&self, candidate: &Candidate) -> CandidateWalk {
        let stat = |f: &File| Stat {
            is_dir: false,
            dev: 1,
            ino: f.ino,
            nlink: f.nlink,
            len: f.len,
            allocated: f.len,
            modified: Some(NOW),
            accessed: None,
        };
        let walked = candidate
            .paths
            .iter()
            .map(|path| {
                let under = format!("{path}/");
                Walked {
                    root: Some(Stat {
                        is_dir: true,
                        dev: 1,
                        ino: 1,
                        nlink: 2,
                        len: 0,
                        allocated: 0,
                        modified: Some(NOW),
                        accessed: None,
                    }),
                    entries: self
                        .files
                        .iter()
                        .filter(|f| f.path.starts_with(&under))
                        .map(|f| WalkEntry::Seen(stat(f)))
                        .collect(),
                }
            })
            .collect();
        CandidateWalk { walked, source_mtime: None, vcs_activity: None }
    }

    fn scan(&self, args: &FilterArgs, purpose: Purpose) -> ScanResult {
        let app = self.app();
        let filter = app.filter(args, purpose).unwrap();
        let found = discover(&app.providers, &self.home.ctx);
        let walks = found.iter().map(|c| self.walk(c)).collect();
        let options = walk_options(&self.home.ctx.config.scan);
        let measured = measure_candidates(&found, &walks, &options, NOW);
        let scores = measured.iter().map(|c| (c.reclaimable() as f64).to_bits()).collect();
        scan(&measured, &scores, &filter, self.home.ctx.projects.len(), 1, Vec::new())
    }

    fn scan_all(&self) -> ScanResult {
        let args = ScanArgs { filter: FilterArgs::default(), json: false, all: true };
        self.scan(&args.filter, scan_purpose(&args))
    }

    /// `reclaim clean` with nobody at the terminal: what it printed, and the record of the run.
    fn clean(&mut self, args: &CleanArgs) -> (String, Option<RunRecord>) {
        let app = self.app();
        let style = Style::plain();
        let chosen = self.scan(&clean_filter(&app, args), Purpose::Delete).candidates;
        let dry_run = is_dry_run(args, false);
        let mut text = match begin(args, false, &chosen) {
            Step::NothingMatches => return ("Nothing matches".to_string(), None),
            Step::AskToProceed => panic!("nobody is there to be asked"),
            Step::Settle => announcement(&chosen, &app.paths, &style),
        };
        text.push_str(&clean_preview(&chosen, &app.paths, &style));
        let answers = questions(&chosen, dry_run, true, false);
        let chosen = confirm_caution_items(&chosen, dry_run, true, false, &answers);
        let options = clean_options(&app, args, false);
        let mut work = Vec::new();
        for candidate in &chosen {
            let facts: Vec<PathFacts> = candidate
                .paths
                .iter()
                .map(|p| PathFacts {
                    exists: true,
                    symlink: Ok(false),
                    canonical: Ok(p.clone()),
                })
                .collect();
            match order(candidate, &app.guard, &options, &facts) {
                Order::Remove { paths, .. } => {
                    for path in paths {
                        let under = format!("{path}/");
                        self.files.retain(|f| f.path != path && !f.path.starts_with(&under));
                    }
                }
                Order::Run { .. } => panic!("a sandbox runs no commands"),
                _ => {}
            }
            work.push(Work { facts, errors: Vec::new(), command: CommandReport::Succeeded });
        }
        let record = clean(&chosen, &app.guard, &options, &work, NOW, NOW);
        text.push_str(&closing(&record, dry_run, &style));
        (text, Some(record))
    }
}

/// Arguments that relax the size, age and in-use filters: the files are small and just written.
fn permissive() -> CleanArgs {
    CleanArgs {
        filter: FilterArgs {
            min_size: Some(0),
            older_than: Some(0),
            include_active: true,
            ..Default::default()
        },
        dry_run: false,
        yes: false,
        trash: false,
        purge: false,
        json: false,
        scheduled: false,
    }
}

fn consenting() -> CleanArgs {
    CleanArgs { yes: true, purge: true, ..permissive() }
}

fn report(result: &ScanResult, sandbox: &Sandbox) -> String {
    scan_report(result, &sandbox.app().paths, &Style::plain())
}

#[test]
fn scan_reports_candidates_and_deletes_nothing() {
    let sandbox = Sandbox::populated();
    let text = report(&sandbox.scan_all(), &sandbox);
    for expected in ["npm cache", "node_modules", "Total reclaimable"] {
        assert!(text.contains(expected), "{expected}:\n{text}");
    }
    assert!(sandbox.has(".npm/_cacache/blob"), "scan must never delete");
}

#[test]
fn scan_on_an_empty_home_succeeds_and_says_so() {
    let sandbox = Sandbox::new();
    let text = report(&sandbox.scan(&FilterArgs::default(), Purpose::Report), &sandbox);
    assert!(text.contains("Nothing to reclaim"), "{text}");
}

#[test]
fn scanning_an_empty_home_finds_nothing_and_does_not_fail() {
    assert_eq!(Sandbox::new().scan_all().total_reclaimable(), 0);
}

#[test]
fn cleaning_an_empty_home_succeeds_and_deletes_nothing() {
    let (text, record) = Sandbox::new().clean(&CleanArgs { dry_run: true, ..permissive() });
    assert!(text.contains("Nothing matches"));
    assert!(record.is_none());
}

#[test]
fn a_dry_run_reports_but_removes_nothing() {
    let mut sandbox = Sandbox::populated();
    let (text, _) = sandbox.clean(&CleanArgs { dry_run: true, ..permissive() });
    assert!(text.contains("would remove"), "{text}");
    assert!(text.contains("dry run"), "{text}");

    assert!(sandbox.has(".npm/_cacache/blob"));
    assert!(sandbox.has("dev/app/node_modules"));
}

#[test]
fn clean_without_yes_is_a_dry_run_when_not_interactive() {
    // Piped or in CI there is nobody to answer a prompt, so the run must report rather than
    // assume consent.
    let mut sandbox = Sandbox::populated();
    let (text, _) = sandbox.clean(&permissive());
    assert!(text.contains("dry run"), "{text}");
    assert!(sandbox.has(".npm/_cacache/blob"), "must not delete without consent");
}

#[test]
fn clean_with_yes_removes_and_reports_the_bytes() {
    let mut sandbox = Sandbox::populated();
    let (text, record) = sandbox.clean(&consenting());
    assert!(text.contains("removed"), "{text}");
    assert!(text.contains("freed"), "{text}");
    assert_eq!(exit_code(&record.unwrap()), 0);

    assert!(!sandbox.has(".npm/_cacache"));
    assert!(!sandbox.has("dev/app/node_modules"));
    // The project itself must survive; only its artifacts go.
    assert!(sandbox.has("dev/app/package.json"));
}

#[test]
fn a_group_filter_restricts_what_is_touched() {
    let mut sandbox = Sandbox::populated();
    let mut args = consenting();
    args.filter.group = vec![Group::Node];
    sandbox.clean(&args);

    assert!(!sandbox.has(".npm/_cacache"), "node was selected");
    assert!(sandbox.has(".gradle/caches"), "jvm was not selected");
}

#[test]
fn recently_used_items_are_protected_from_cleaning_by_default() {
    // The files are just written. Without include_active, a clean must decline to touch them even
    // though a scan happily lists them.
    let mut sandbox = Sandbox::populated();
    let mut args = consenting();
    args.filter.include_active = false;
    let (text, _) = sandbox.clean(&args);
    assert!(text.contains("Nothing matches"), "{text}");
    assert!(sandbox.has(".npm/_cacache/blob"));
}

#[test]
fn a_run_is_journalled_and_visible_in_history() {
    let mut sandbox = Sandbox::populated();
    let (_, record) = sandbox.clean(&consenting());
    let record = record.unwrap();
    let journal = sandbox.app().journal;
    assert!(journal.write(&record).ends_with(".json"));
    let recent = journal.read_recent(&vec![Some(record)], 20);
    let text = history_report(&recent, NOW, &Style::plain());
    assert!(text.contains("cli"), "{text}");
    assert!(text.contains("FREED"), "{text}");
}

#[test]
fn end_to_end_config_init_refuses_to_clobber_without_force() {
    let path = Sandbox::new().app().paths.config_file();
    assert!(may_init(&path, false, false).is_ok());
    assert!(may_init(&path, true, false).unwrap_err().contains("--force"));
    assert!(may_init(&path, true, true).is_ok());
}

#[test]
fn a_broken_config_fails_loudly_rather_than_being_ignored() {
    let global = GlobalArgs {
        config: None,
        root: Some(HOME.to_string()),
        concurrency: None,
        verbose: 0,
        no_color: true,
    };
    let paths = Sandbox::new().app().paths;
    let broken = FileOutcome::Malformed("unknown field `min_sise`".to_string());
    let err = match App::new(&global, paths, broken, &Vec::new()) {
        Ok(_) => panic!("a broken config must not load"),
        Err(err) => err.message(),
    };
    assert!(err.contains("config"), "{err}");
    assert!(err.contains("min_sise"), "{err}");
}

#[test]
fn an_invalid_size_on_the_command_line_is_rejected_at_the_boundary() {
    assert!(parse_bytes("enormous").is_err());
}

#[test]
fn a_missing_root_is_a_clear_error() {
    let global = GlobalArgs {
        config: None,
        root: Some("/definitely/not/here".to_string()),
        concurrency: None,
        verbose: 0,
        no_color: true,
    };
    let machine =
        Machine { env: Vec::new(), system_home: None, os: Os::Linux, root: None };
    let err = match resolve_paths(&global, &machine) {
        Ok(_) => panic!("there is no such directory"),
        Err(err) => err.message(),
    };
    assert!(err.contains("does not exist"), "{err}");
}

#[test]
fn a_disabled_provider_produces_no_candidates() {
    let mut sandbox = Sandbox::populated();
    sandbox.home.ctx.config.providers.disabled = vec!["node".to_string()];
    let result = sandbox.scan_all();
    let providers: Vec<&str> = result.candidates.iter().map(|c| c.provider.as_str()).collect();
    assert!(!providers.iter().any(|p| p.starts_with("node.")), "got {providers:?}");
    assert!(providers.iter().any(|p| p.starts_with("jvm.")), "jvm should remain");
}

#[test]
fn protected_paths_from_config_are_refused() {
    let mut sandbox = Sandbox::new();
    sandbox.file(".npm/_cacache/blob", 2_000_000);
    sandbox.home.ctx.config.delete.protected_paths = vec!["~/.npm".to_string()];
    sandbox.clean(&consenting());
    assert!(
        sandbox.has(".npm/_cacache/blob"),
        "a configured protected path must never be removed"
    );
}

#[test]
fn a_sandboxed_run_never_executes_machine_wide_commands() {
    // Shell actions act on global state (brew, docker, simctl) that no sandbox can represent.
    let mut sandbox = Sandbox::populated();
    for program in ["brew", "docker", "go", "xcrun"] {
        sandbox.home.ctx.disk.commands.push(program.to_string());
        sandbox.home.ctx.disk.daemons.push(program.to_string());
    }
    let result = sandbox.scan_all();
    assert!(!result.candidates.is_empty());
    for candidate in &result.candidates {
        assert!(
            !candidate.action.is_shell(),
            "sandboxed run offered a machine-wide command: {candidate:?}"
        );
    }
}

#[test]
fn the_schedule_refuses_a_caution_tier_background_job() {
    let args = ScheduleInstallArgs {
        cadence: None,
        tier: vec![Tier::Caution],
        older_than: None,
        force: false,
    };
    let err = plan(&Config::default().schedule, &args).unwrap_err();
    assert!(err.contains("caution"), "{err}");
}

#[test]
fn schedule_status_on_a_clean_machine_reports_nothing_installed() {
    let app = Sandbox::new().app();
    let path = unit_path(&app.paths).unwrap();
    let text =
        status(&path, false, &app.config.schedule, &Vec::new(), &Style::plain()).unwrap();
    assert!(text.contains("No scheduled cleanup"), "{text}");
}

#[test]
fn piped_output_falls_back_to_a_plain_scan() {
    let sandbox = Sandbox::populated();
    let text = report(&sandbox.scan(&FilterArgs::default(), Purpose::Report), &sandbox);
    assert!(text.contains("reclaimable") || text.contains("Nothing to reclaim"), "{text}");
}

#[test]
fn hardlinked_content_is_not_double_counted_in_the_total() {
    let mut sandbox = Sandbox::new();
    sandbox.linked_file(".npm/_cacache/blob", 4_000_000, 7, 2);
    sandbox.project("dev/app", &["package.json", "package-lock.json"]);
    sandbox.linked_file("dev/app/node_modules/pkg/blob", 4_000_000, 7, 2);

    let result = sandbox.scan_all();
    assert!(
        result.total_reclaimable() < 8_000_000,
        "hardlinked bytes counted twice: total was {}",
        result.total_reclaimable()
    );
    let shared: u64 = result.candidates.iter().map(|c| c.size.unwrap().shared).sum();
    assert!(shared > 0, "the duplicate bytes must be reported as shared");
}

#[test]
fn nothing_outside_the_root_is_ever_touched() {
    let mut sandbox = Sandbox::populated();
    let victim = "/elsewhere/precious/data.bin".to_string();
    sandbox.files.push(File { path: victim.clone(), ino: 9, nlink: 1, len: 1_000_000 });
    sandbox.clean(&consenting());
    assert!(
        sandbox.files.iter().any(|f| f.path == victim && f.len == 1_000_000),
        "a file outside the root must be untouched"
    );
}
