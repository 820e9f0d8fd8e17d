//! Command-line surface, as plain values.
use vstd::prelude::*;
use vstd::string::*;
use crate::model::{Group, Tier};
use crate::text::{dup_all, views};

verus! {

#[derive(Debug)]
pub struct Cli {
    /// None means the interactive terminal UI.
    pub command: Option<Command>,
    pub global: GlobalArgs,
}

#[derive(Debug, Clone)]
pub struct GlobalArgs {
    /// Use this config file instead of ~/.config/reclaim/config.toml.
    pub config: Option<String>,
    /// Treat this directory as the home directory. Everything is scoped to it.
    pub root: Option<String>,
    /// Worker threads. 0 means auto.
    pub concurrency: Option<usize>,
    /// Print more detail about what is happening.
    pub verbose: u8,
    /// Never use colour, even on a terminal.
    pub no_color: bool,
}

#[derive(Debug)]
pub enum Command {
    /// Scan and report. Never deletes anything.
    Scan(ScanArgs),
    /// Scan, then remove what matches the filters.
    Clean(CleanArgs),
    /// Open the web UI on localhost.
    Ui(UiArgs),
    /// Show what previous runs did.
    History(HistoryArgs),
    /// Inspect and manage the config file.
    Config(ConfigAction),
    /// Manage scheduled background cleanups.
    Schedule(ScheduleAction),
    /// List every provider and whether it is enabled.
    Providers,
    /// Print a completion script for the shell of that name.
    Completions { shell: String },
}

/// Filters shared by `scan` and `clean`.
#[derive(Debug, Clone)]
pub struct FilterArgs {
    /// Only this tier and safer. `safe` is the most conservative.
    pub tier: Option<Tier>,
    /// Only items untouched for at least this many days.
    pub older_than: Option<u32>,
    /// Hide items smaller than this.
    pub min_size: Option<u64>,
    /// Only these ecosystems.
    pub group: Vec<Group>,
    /// Only these providers, e.g. node.npm-cache, rust
    pub provider: Vec<String>,
    /// Also items modified in the last 24 hours. Left out by default because a build or dev
    /// server may be writing to them right now.
    pub include_active: bool,
}

impl Default for FilterArgs {
    fn default() -> (args: FilterArgs)
        ensures
            args.tier is None,
            args.older_than is None,
            args.min_size is None,
            args.group@.len() == 0,
            args.provider@.len() == 0,
            !args.include_active,
    {
        FilterArgs {
            tier: None,
            older_than: None,
            min_size: None,
            group: Vec::new(),
            provider: Vec::new(),
            include_active: false,
        }
    }
}

impl FilterArgs {
    /// The same filters with a tier.
    pub fn with_tier(&self, tier: Tier) -> (args: FilterArgs)
        ensures
            args.tier == Some(tier),
            args.older_than == self.older_than,
            args.min_size == self.min_size,
            args.group@ == self.group@,
            views(args.provider@) == views(self.provider@),
            args.include_active == self.include_active,
    {
        FilterArgs {
            tier: Some(tier),
            older_than: self.older_than,
            min_size: self.min_size,
            group: copy_groups(&self.group),
            provider: dup_all(&self.provider),
            include_active: self.include_active,
        }
    }
}

/// A copy of a list of groups.
pub fn copy_groups(groups: &Vec<Group>) -> (copy: Vec<Group>)
    ensures
        copy@ == groups@,
{
    let mut copy: Vec<Group> = Vec::new();
    let mut i: usize = 0;
    while i < groups.len()
        invariant
            i <= groups@.len(),
            copy@ == groups@.take(i as int),
        decreases groups@.len() - i,
    {
        copy.push(groups[i]);
        i += 1;
        assert(groups@.take(i as int) =~= groups@.take(i - 1).push(groups@[i - 1]));
    }
    assert(groups@.take(groups@.len() as int) =~= groups@);
    copy
}

#[derive(Debug)]
pub struct ScanArgs {
    pub filter: FilterArgs,
    /// Emit JSON instead of a table.
    pub json: bool,
    /// Show every item, ignoring the configured size threshold.
    pub all: bool,
}

#[derive(Debug)]
pub struct CleanArgs {
    pub filter: FilterArgs,
    /// Report what would be removed, then stop. This is the default unless consent is given, so a
    /// mistyped filter can never delete anything.
    pub dry_run: bool,
    /// Proceed without prompting. Caution-tier items still prompt unless
    /// `delete.confirm_caution` is false in the config.
    pub yes: bool,
    /// Move everything to the Trash rather than deleting.
    pub trash: bool,
    /// Delete everything permanently rather than using the Trash.
    pub purge: bool,
    /// Emit a JSON run record instead of human output.
    pub json: bool,
    /// Marks a run started by the scheduler.
    pub scheduled: bool,
}

#[derive(Debug)]
pub struct UiArgs {
    /// Port to listen on. 0 picks a free one.
    pub port: Option<u16>,
    /// Do not open a browser automatically.
    pub no_open: bool,
    /// Proxy the frontend to a dev server instead of the embedded assets.
    pub dev: bool,
}

#[derive(Debug)]
pub struct HistoryArgs {
    /// How many runs to show.
    pub last: usize,
    /// Emit JSON instead of a table.
    pub json: bool,
    pub action: Option<HistoryAction>,
}

#[derive(Debug)]
pub enum HistoryAction {
    /// Write a self-contained HTML report.
    Report(HistoryReportArgs),
}

#[derive(Debug)]
pub struct HistoryReportArgs {
    /// How many runs to report on. 0 means every run.
    pub last: usize,
    /// Where to write the report.
    pub out: Option<String>,
    /// Open the report in a browser.
    pub open: bool,
}

#[derive(Debug, Clone, Copy, PartialEq, Eq, Structural)]
pub enum ConfigAction {
    /// Print the path to the config file.
    Path,
    /// Write a commented default config file, over an existing one where forced.
    Init { force: bool },
    /// Print the effective config, after env and defaults are applied.
    Show,
    /// Check the config file for errors.
    Validate,
}

#[derive(Debug)]
pub enum ScheduleAction {
    /// Install a background job (launchd on macOS, systemd user timer on Linux).
    Install(ScheduleInstallArgs),
    /// Show whether a job is installed and what it last did.
    Status,
    /// Remove the background job.
    Uninstall,
    /// Run the scheduled cleanup once, right now.
    RunNow { dry_run: bool },
}

#[derive(Debug)]
pub struct ScheduleInstallArgs {
    /// daily, weekly, biweekly or monthly.
    pub cadence: Option<String>,
    /// Tiers a background run may touch. `caution` is refused.
    pub tier: Vec<Tier>,
    /// Only remove items untouched for at least this many days.
    pub older_than: Option<u32>,
    /// Overwrite an existing installed job.
    pub force: bool,
}

} // verus!
