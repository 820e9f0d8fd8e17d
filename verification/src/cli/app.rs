//! Shared wiring: config, paths and filters are resolved once, so that every subcommand and both
//! front-ends see exactly the same view of the machine.
use vstd::prelude::*;
use vstd::string::*;
use crate::cli::args::{FilterArgs, GlobalArgs, copy_groups};
use crate::config::{Config, FileOutcome, ScanConfig, expanded_all, loaded};
use crate::error::{Error, ErrorModel};
use crate::format::parse_bytes_spec;
use crate::journal::Journal;
use crate::model::{CandidateModel, Tier};
use crate::path::join;
use crate::platform::{Os, Paths, PathsModel, Variable, overridden, under_home, value_of};
use crate::providers::{AnyProvider, all, every_provider};
use crate::safety::{GuardModel, PathGuard, guard_of};
use crate::staleness::{Filter, FilterModel};
use crate::text::{dup_all, dup_option, option_text, unsigned, views};

verus! {

broadcast use crate::text::lemma_views_push;

/// What a filter is being built for. Reporting and deleting want different defaults, and
/// conflating them either hides space from the user or deletes something a build is using.
#[derive(Debug, Clone, Copy, PartialEq, Eq, Structural)]
pub enum Purpose {
    /// Reports and UIs: apply the size threshold, show active items.
    Report,
    /// A full listing: no size threshold either.
    ShowEverything,
    /// Cleaning: apply the size threshold and leave out actively-used items.
    Delete,
}

impl Purpose {
    pub fn is_reporting(self) -> (r: bool)
        ensures
            r == (self != Purpose::Delete),
    {
        match self {
            Purpose::Report | Purpose::ShowEverything => true,
            Purpose::Delete => false,
        }
    }
}

/// What the machine says of itself.
#[derive(Debug)]
pub struct Machine {
    pub env: Vec<Variable>,
    /// The home directory as the system knows it.
    pub system_home: Option<String>,
    pub os: Os,
    /// The directory that stands in for the home directory, resolved, where it exists.
    pub root: Option<String>,
}

/// Everything a subcommand needs, resolved once.
pub struct App {
    pub paths: Paths,
    pub config: Config,
    pub guard: PathGuard,
    pub journal: Journal,
    pub providers: Vec<AnyProvider>,
}

/// Where things are. A root makes the whole engine operate on a different home.
pub fn resolve_paths(global: &GlobalArgs, machine: &Machine) -> (r: Result<Paths, Error>)
    ensures
        match (global.root, machine.root) {
            (Some(root), Some(resolved)) => r matches Ok(paths) && paths@ == under_home(
                resolved@,
                machine.os,
            ),
            (Some(root), None) => r matches Err(e) && e@ == ErrorModel::Other(
                "--root "@ + root@ + " does not exist"@,
            ),
            (None, _) => match (
                value_of(views(machine.env@), "HOME"@),
                option_text(machine.system_home),
            ) {
                (Some(home), _) => r matches Ok(paths) && paths@ == overridden(
                    home,
                    views(machine.env@),
                    machine.os,
                ),
                (None, Some(home)) => r matches Ok(paths) && paths@ == overridden(
                    home,
                    views(machine.env@),
                    machine.os,
                ),
                (None, None) => r matches Err(e) && e@ == ErrorModel::NoHome,
            },
        },
{
    match &global.root {
        Some(root) => match &machine.root {
            Some(resolved) => Ok(Paths::with_home(resolved.as_str(), machine.os)),
            None => Err(
                Error::Other(
                    "--root ".to_owned().concat(root.as_str()).concat(" does not exist"),
                ),
            ),
        },
        None => Paths::from_env(&machine.env, dup_option(&machine.system_home), machine.os),
    }
}

/// The config file in use.
pub open spec fn config_path_of(global: GlobalArgs, paths: PathsModel) -> Seq<char> {
    match global.config {
        Some(path) => path@,
        None => join(paths.config_dir, "reclaim/config.toml"@),
    }
}

/// The config file in use.
pub fn config_path(global: &GlobalArgs, paths: &Paths) -> (p: String)
    ensures
        p@ == config_path_of(*global, paths@),
{
    match &global.config {
        Some(path) => path.clone(),
        None => paths.config_file(),
    }
}

/// The configuration, with the number of threads that the command line asks for.
pub open spec fn with_concurrency(config: Config, asked: Option<usize>) -> Config {
    match asked {
        Some(n) => Config { scan: ScanConfig { concurrency: n, ..config.scan }, ..config },
        None => config,
    }
}

/// The filter that arguments and configured thresholds make for a purpose.
pub open spec fn filter_of(
    config: Config,
    min_size: u64,
    args: FilterArgs,
    purpose: Purpose,
) -> FilterModel {
    FilterModel {
        min_size: if purpose == Purpose::ShowEverything {
            0
        } else {
            match args.min_size {
                Some(n) => n,
                None => min_size,
            }
        },
        max_tier: args.tier,
        min_age_days: match (args.older_than, args.tier) {
            (Some(days), _) => Some(days),
            (None, Some(tier)) => Some(config.thresholds.per_tier.days(tier)),
            (None, None) => None,
        },
        groups: if args.group@.len() == 0 {
            None
        } else {
            Some(args.group@)
        },
        providers: if args.provider@.len() == 0 {
            None
        } else {
            Some(views(args.provider@))
        },
        include_active: args.include_active || purpose != Purpose::Delete,
    }
}

impl App {
    /// Puts together what was resolved and read.
    pub fn new(global: &GlobalArgs, paths: Paths, file: FileOutcome, env: &Vec<Variable>) -> (r:
        Result<Self, Error>)
        ensures
            match r {
                Ok(app) => {
                    &&& app.paths == paths
                    &&& exists|config: Config| #[trigger]
                        loaded(
                            Ok(config),
                            file,
                            config_path_of(*global, paths@),
                            views(env@),
                        ) && app.config == with_concurrency(config, global.concurrency)
                    &&& app.guard@ == (GuardModel {
                        protected: guard_of(paths@).protected + expanded_all(
                            paths@.home,
                            views(app.config.delete.protected_paths@),
                            views(env@),
                        ),
                        ..guard_of(paths@)
                    })
                    &&& app.journal@ == join(paths@.state_dir, "reclaim/history"@)
                    &&& app.providers@ == every_provider()
                },
                Err(e) => loaded(
                    Err(e),
                    file,
                    config_path_of(*global, paths@),
                    views(env@),
                ),
            },
    {
        let path = config_path(global, &paths);
        let mut config = match Config::load_from(file, path.as_str(), env) {
            Ok(config) => config,
            Err(e) => return Err(e),
        };
        let ghost as_loaded = config;
        match global.concurrency {
            Some(n) => {
                config.scan.concurrency = n;
            },
            None => {},
        }
        assert(config == with_concurrency(as_loaded, global.concurrency));
        let guard = PathGuard::new(&paths).protect(
            config.resolved_protected_paths(&paths, env),
        );
        let journal = Journal::new(paths.journal_dir().as_str());
        Ok(App { paths, config, guard, journal, providers: all() })
    }

    /// Build a filter from config defaults plus command-line overrides.
    pub fn filter(&self, args: &FilterArgs, purpose: Purpose) -> (r: Result<Filter, Error>)
        ensures
            match (r, parse_bytes_spec(self.config.thresholds.min_size@)) {
                (Ok(filter), Ok(min_size)) => filter@ == filter_of(
                    self.config,
                    min_size as u64,
                    *args,
                    purpose,
                ),
                (Err(e), Err(text)) => e@ == ErrorModel::Config("thresholds.min_size: "@ + text),
                _ => false,
            },
    {
        let configured_min: u64 = match self.config.thresholds.min_size_bytes() {
            Ok(n) => n,
            Err(e) => return Err(e),
        };
        let min_size: u64 = if purpose == Purpose::ShowEverything {
            0
        } else {
            match args.min_size {
                Some(n) => n,
                None => configured_min,
            }
        };
        // An explicit age wins; otherwise a named tier brings its configured threshold, since
        // "safe" and "caution" warrant very different waiting periods.
        let min_age_days = match args.older_than {
            Some(days) => Some(days),
            None => match args.tier {
                Some(tier) => Some(self.config.thresholds.per_tier.for_tier(tier)),
                None => None,
            },
        };
        Ok(
            Filter {
                min_size,
                max_tier: args.tier,
                min_age_days,
                groups: if args.group.len() == 0 {
                    None
                } else {
                    Some(copy_groups(&args.group))
                },
                providers: if args.provider.len() == 0 {
                    None
                } else {
                    Some(dup_all(&args.provider))
                },
                // Reporting shows everything, what is in use included: a tool for finding disk
                // space must never hide space. Deleting leaves it out, because removing a cache
                // that a build is writing to produces confusing failures.
                include_active: args.include_active || purpose.is_reporting(),
            },
        )
    }

    /// The tier ceiling of a clean run. Without a request it is the safe one: an unqualified run
    /// must never be able to remove something irreplaceable.
    pub fn effective_tier(&self, requested: Option<Tier>) -> (tier: Tier)
        ensures
            tier == ceiling_of(requested),
    {
        match requested {
            Some(tier) => tier,
            None => Tier::Safe,
        }
    }
}

/// The tier ceiling of a clean run.
pub open spec fn ceiling_of(requested: Option<Tier>) -> Tier {
    match requested {
        Some(tier) => tier,
        None => Tier::Safe,
    }
}

/// Cleaning without a named tier lets nothing pass that is not safe.
pub proof fn unqualified_cleaning_is_safe(
    config: Config,
    min_size: u64,
    args: FilterArgs,
    c: CandidateModel,
)
    requires
        args.tier == Some(ceiling_of(None)),
        filter_of(config, min_size, args, Purpose::Delete).passes(c),
    ensures
        c.tier == Tier::Safe,
{
}

/// Reporting hides nothing for being in use, and a full listing hides nothing for its size.
pub proof fn reporting_hides_no_space(
    config: Config,
    min_size: u64,
    args: FilterArgs,
    c: CandidateModel,
)
    requires
        args.tier is None,
        args.older_than is None,
        args.group@.len() == 0,
        args.provider@.len() == 0,
    ensures
        filter_of(config, min_size, args, Purpose::ShowEverything).passes(c),
        filter_of(config, min_size, args, Purpose::Report).include_active,
{
}

/// A flag wins over the environment, the environment over the file.
pub proof fn the_closest_setting_wins(
    parsed: Config,
    config: Config,
    path: Seq<char>,
    env: Seq<(Seq<char>, Seq<char>)>,
    asked: Option<usize>,
)
    requires
        loaded(Ok(config), FileOutcome::Parsed(parsed), path, env),
    ensures
        with_concurrency(config, asked).scan.concurrency == match asked {
            Some(flag) => flag,
            None => match value_of(env, "RECLAIM_CONCURRENCY"@) {
                Some(text) => match unsigned(text, usize::MAX as nat) {
                    Some(n) => n as usize,
                    None => parsed.scan.concurrency,
                },
                None => parsed.scan.concurrency,
            },
        },
        with_concurrency(config, asked).thresholds.min_size@ == match value_of(
            env,
            "RECLAIM_MIN_SIZE"@,
        ) {
            Some(text) => text,
            None => parsed.thresholds.min_size@,
        },
{
}

/// What the arguments ask for becomes the filter: the size asked for over the configured one, and
/// none where everything is shown; the ceiling as it is named; the age asked for, or the age of the
/// named tier; the groups and providers where any is named. What is in use is left out of a
/// deletion unless that is asked for, and never of a report.
pub proof fn a_filter_is_what_was_asked_for(
    config: Config,
    min_size: u64,
    args: FilterArgs,
    purpose: Purpose,
)
    ensures
        ({
            let f = filter_of(config, min_size, args, purpose);
            &&& purpose == Purpose::ShowEverything ==> f.min_size == 0
            &&& purpose != Purpose::ShowEverything && args.min_size is Some ==> f.min_size
                == args.min_size->0
            &&& purpose != Purpose::ShowEverything && args.min_size is None ==> f.min_size
                == min_size
            &&& f.max_tier == args.tier
            &&& args.older_than is Some ==> f.min_age_days == args.older_than
            &&& args.older_than is None && args.tier is None ==> f.min_age_days is None
            &&& args.older_than is None && args.tier == Some(Tier::Safe) ==> f.min_age_days == Some(
                config.thresholds.per_tier.safe,
            )
            &&& args.older_than is None && args.tier == Some(Tier::Review) ==> f.min_age_days
                == Some(config.thresholds.per_tier.review)
            &&& args.older_than is None && args.tier == Some(Tier::Caution) ==> f.min_age_days
                == Some(config.thresholds.per_tier.caution)
            &&& args.group@.len() == 0 ==> f.groups is None
            &&& args.group@.len() > 0 ==> f.groups == Some(args.group@)
            &&& args.provider@.len() == 0 ==> f.providers is None
            &&& args.provider@.len() > 0 ==> f.providers == Some(views(args.provider@))
            &&& purpose == Purpose::Delete ==> f.include_active == args.include_active
            &&& purpose != Purpose::Delete ==> f.include_active
        }),
{
}

/// A ceiling that is not named is the safe tier, a named one is itself; a flag names the
/// configuration file, else it stands in the configuration directory; a flag sets the workers.
pub proof fn a_flag_wins_over_the_default(
    requested: Option<Tier>,
    global: GlobalArgs,
    paths: PathsModel,
    config: Config,
    asked: Option<usize>,
)
    ensures
        requested is None ==> ceiling_of(requested) == Tier::Safe,
        requested is Some ==> ceiling_of(requested) == requested->0,
        global.config matches Some(path) ==> config_path_of(global, paths) == path@,
        global.config is None ==> config_path_of(global, paths) == join(
            paths.config_dir,
            "reclaim/config.toml"@,
        ),
        asked matches Some(n) ==> with_concurrency(config, asked).scan.concurrency == n,
        asked is None ==> with_concurrency(config, asked) == config,
        with_concurrency(config, asked).scan.max_depth == config.scan.max_depth,
        with_concurrency(config, asked).delete == config.delete,
        with_concurrency(config, asked).providers == config.providers,
        with_concurrency(config, asked).thresholds == config.thresholds,
{
}

} // verus!
