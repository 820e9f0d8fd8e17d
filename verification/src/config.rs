//! User configuration.
//!
//! Layering, lowest precedence first: built-in defaults, then the file, then
//! `RECLAIM_*` environment variables, then command-line flags. Every field has
//! a working default.
use vstd::prelude::*;
use vstd::string::*;
use crate::disk::{Disk, DiskModel};
use crate::error::{Error, ErrorModel};
use crate::format::{parse_bytes, parse_bytes_spec};
use crate::globbing::{pattern_problem, problem_of};
use crate::model::Tier;
use crate::path::{components, join, same_path};
use crate::platform::{Paths, Variable, expanded_path, or_else, value_of, variable};
use crate::text::{
    chars_of, has_prefix, lowered, nonempty, nonempty_texts, parse_unsigned, pieces, same,
    split_text, starts_with, to_ascii_lower, unsigned, views,
};

verus! {

broadcast use crate::text::lemma_views_push;

#[derive(Debug, Clone, PartialEq)]
pub struct Config {
    pub scan: ScanConfig,
    pub thresholds: ThresholdConfig,
    pub delete: DeleteConfig,
    pub providers: ProviderConfig,
    pub ui: UiConfig,
    pub schedule: ScheduleConfig,
}

impl Default for Config {
    fn default() -> (c: Config)
        ensures
            c.is_default(),
    {
        Config {
            scan: ScanConfig::default(),
            thresholds: ThresholdConfig::default(),
            delete: DeleteConfig::default(),
            providers: ProviderConfig::default(),
            ui: UiConfig::default(),
            schedule: ScheduleConfig::default(),
        }
    }
}

#[derive(Debug, Clone, PartialEq)]
pub struct ScanConfig {
    /// Directories crawled to find projects. Empty means known caches only.
    pub project_roots: Vec<String>,
    /// Glob patterns pruned during the project walk.
    pub exclude: Vec<String>,
    /// How deep the project walk descends below each root.
    pub max_depth: usize,
    /// Worker threads. 0 means twice the processors, at most 16.
    pub concurrency: usize,
    pub follow_symlinks: bool,
    /// Whether the walk may cross onto another filesystem.
    pub cross_device: bool,
}

/// What the project walk passes over unless told otherwise.
pub open spec fn default_excludes() -> Seq<Seq<char>> {
    seq![
        "**/Library/**"@,
        "**/.Trash/**"@,
        "**/.git/**"@,
        "**/node_modules/**"@,
        "**/.venv/**"@,
        "**/Applications/**"@,
    ]
}

impl ScanConfig {
    pub open spec fn is_default(&self) -> bool {
        &&& views(self.project_roots@) == Seq::<Seq<char>>::empty()
        &&& views(self.exclude@) == default_excludes()
        &&& self.max_depth == 8
        &&& self.concurrency == 0
        &&& !self.follow_symlinks
        &&& !self.cross_device
    }
}

impl Default for ScanConfig {
    fn default() -> (c: ScanConfig)
        ensures
            c.is_default(),
    {
        let c = ScanConfig {
            project_roots: Vec::new(),
            exclude: vec![
                "**/Library/**".to_owned(),
                "**/.Trash/**".to_owned(),
                "**/.git/**".to_owned(),
                "**/node_modules/**".to_owned(),
                "**/.venv/**".to_owned(),
                "**/Applications/**".to_owned(),
            ],
            max_depth: 8,
            concurrency: 0,
            follow_symlinks: false,
            cross_device: false,
        };
        assert(views(c.project_roots@) =~= Seq::empty());
        assert(views(c.exclude@) =~= default_excludes());
        c
    }
}

/// `num_cpus::get` counts the processors that this process may use, and finds at least one.
pub assume_specification[ num_cpus::get ]() -> (n: usize)
    ensures
        n >= 1,
;

/// Twice the processors, at least 1 and at most 16.
pub open spec fn auto_threads(cpus: nat) -> nat {
    if cpus == 0 {
        1
    } else if 2 * cpus > 16 {
        16
    } else {
        2 * cpus
    }
}

impl ScanConfig {
    /// The number of threads on a machine with that many processors.
    ///
    /// Capped because the work is bound by metadata: more threads only queue.
    pub fn threads_for(&self, cpus: usize) -> (n: usize)
        ensures
            n == if self.concurrency > 0 {
                self.concurrency as nat
            } else {
                auto_threads(cpus as nat)
            },
    {
        if self.concurrency > 0 {
            self.concurrency
        } else if cpus == 0 {
            1
        } else if cpus > 8 {
            16
        } else {
            2 * cpus
        }
    }

    /// The number of threads on this machine.
    pub fn threads(&self) -> (n: usize)
        ensures
            self.concurrency > 0 ==> n == self.concurrency,
            self.concurrency == 0 ==> 2 <= n <= 16,
    {
        self.threads_for(num_cpus::get())
    }
}

#[derive(Debug, Clone, PartialEq)]
pub struct ThresholdConfig {
    /// Candidates smaller than this are hidden, to keep the list readable.
    pub min_size: String,
    /// Baseline for the staleness factor in the reclaim score.
    pub stale_after_days: u32,
    pub per_tier: PerTierDays,
}

impl ThresholdConfig {
    pub open spec fn is_default(&self) -> bool {
        &&& self.min_size@ == "50MB"@
        &&& self.stale_after_days == 60
        &&& self.per_tier == (PerTierDays { safe: 14, review: 60, caution: 180 })
    }

    pub fn min_size_bytes(&self) -> (r: Result<u64, Error>)
        ensures
            match (r, parse_bytes_spec(self.min_size@)) {
                (Ok(n), Ok(v)) => n == v,
                (Err(e), Err(text)) => e@ == ErrorModel::Config("thresholds.min_size: "@ + text),
                _ => false,
            },
    {
        match parse_bytes(self.min_size.as_str()) {
            Ok(n) => Ok(n),
            Err(e) => Err(
                Error::Config("thresholds.min_size: ".to_owned().concat(e.as_str())),
            ),
        }
    }
}

impl Default for ThresholdConfig {
    fn default() -> (c: ThresholdConfig)
        ensures
            c.is_default(),
    {
        ThresholdConfig {
            min_size: "50MB".to_owned(),
            stale_after_days: 60,
            per_tier: PerTierDays::default(),
        }
    }
}

/// Default age threshold per tier: the riskier the item, the longer the wait.
#[derive(Debug, Clone, Copy, PartialEq, Eq, Structural)]
pub struct PerTierDays {
    pub safe: u32,
    pub review: u32,
    pub caution: u32,
}

impl Default for PerTierDays {
    fn default() -> (c: PerTierDays)
        ensures
            c == (PerTierDays { safe: 14, review: 60, caution: 180 }),
    {
        PerTierDays { safe: 14, review: 60, caution: 180 }
    }
}

impl PerTierDays {
    pub open spec fn days(self, tier: Tier) -> u32 {
        match tier {
            Tier::Safe => self.safe,
            Tier::Review => self.review,
            Tier::Caution => self.caution,
        }
    }

    pub fn for_tier(&self, tier: Tier) -> (days: u32)
        ensures
            days == self.days(tier),
    {
        match tier {
            Tier::Safe => self.safe,
            Tier::Review => self.review,
            Tier::Caution => self.caution,
        }
    }
}

#[derive(Debug, Clone, Copy, PartialEq, Eq, Structural)]
pub enum DeleteMode {
    /// Purge safe items so that space is freed at once; trash everything else.
    Tiered,
    /// Everything goes to the trash. Recoverable, but frees nothing until it is emptied.
    Trash,
    /// Everything is removed permanently.
    Purge,
}

impl DeleteMode {
    pub open spec fn trashes(self, tier: Tier) -> bool {
        match self {
            DeleteMode::Trash => true,
            DeleteMode::Purge => false,
            DeleteMode::Tiered => tier != Tier::Safe,
        }
    }

    /// Whether an item of this tier goes to the trash rather than being unlinked.
    pub fn uses_trash(self, tier: Tier) -> (r: bool)
        ensures
            r == self.trashes(tier),
    {
        match self {
            DeleteMode::Trash => true,
            DeleteMode::Purge => false,
            DeleteMode::Tiered => tier != Tier::Safe,
        }
    }

    pub open spec fn name(self) -> Seq<char> {
        match self {
            DeleteMode::Tiered => "tiered"@,
            DeleteMode::Trash => "trash"@,
            DeleteMode::Purge => "purge"@,
        }
    }

    /// The mode of a name, in any ASCII case.
    pub fn from_str(s: &str) -> (r: Result<DeleteMode, String>)
        ensures
            match r {
                Ok(mode) => lowered(s@) == mode.name(),
                Err(e) => lowered(s@) != "tiered"@ && lowered(s@) != "trash"@ && lowered(s@)
                    != "purge"@ && e@ == "unknown delete mode `"@ + lowered(s@)
                    + "` (expected tiered|trash|purge)"@,
            },
    {
        let name = to_ascii_lower(s);
        if same(name.as_str(), "tiered") {
            Ok(DeleteMode::Tiered)
        } else if same(name.as_str(), "trash") {
            Ok(DeleteMode::Trash)
        } else if same(name.as_str(), "purge") {
            Ok(DeleteMode::Purge)
        } else {
            Err(
                "unknown delete mode `".to_owned().concat(name.as_str()).concat(
                    "` (expected tiered|trash|purge)",
                ),
            )
        }
    }
}

#[derive(Debug, Clone, PartialEq)]
pub struct DeleteConfig {
    pub mode: DeleteMode,
    /// Prompt for caution items even when everything else is confirmed.
    pub confirm_caution: bool,
    /// Additive to the built-in protected list; nothing can subtract from that.
    pub protected_paths: Vec<String>,
}

impl DeleteConfig {
    pub open spec fn is_default(&self) -> bool {
        &&& self.mode == DeleteMode::Tiered
        &&& self.confirm_caution
        &&& views(self.protected_paths@) == seq!["~/Documents"@, "~/Desktop"@, "~/.ssh"@]
    }
}

impl Default for DeleteConfig {
    fn default() -> (c: DeleteConfig)
        ensures
            c.is_default(),
    {
        let c = DeleteConfig {
            mode: DeleteMode::Tiered,
            confirm_caution: true,
            protected_paths: vec![
                "~/Documents".to_owned(),
                "~/Desktop".to_owned(),
                "~/.ssh".to_owned(),
            ],
        };
        assert(views(c.protected_paths@) =~= seq!["~/Documents"@, "~/Desktop"@, "~/.ssh"@]);
        c
    }
}

#[derive(Debug, Clone, PartialEq)]
pub struct ProviderConfig {
    /// `["*"]` enables everything.
    pub enabled: Vec<String>,
    pub disabled: Vec<String>,
    pub apple: AppleOptions,
    pub node: NodeOptions,
    pub containers: ContainerOptions,
    pub ai: AiOptions,
}

impl ProviderConfig {
    pub open spec fn is_default(&self) -> bool {
        &&& views(self.enabled@) == seq!["*"@]
        &&& views(self.disabled@) == seq!["ml"@]
        &&& self.apple == (AppleOptions {
            keep_latest_simulator_runtimes: 2,
            offer_non_ios_runtimes: true,
        })
        &&& self.node == (NodeOptions { keep_pnpm_store: true, offer_node_modules: true })
        &&& self.containers == (ContainerOptions { include_volumes: false })
        &&& self.ai == (AiOptions { check_running: true })
    }
}

impl Default for ProviderConfig {
    fn default() -> (c: ProviderConfig)
        ensures
            c.is_default(),
    {
        let c = ProviderConfig {
            enabled: vec!["*".to_owned()],
            disabled: vec!["ml".to_owned()],
            apple: AppleOptions::default(),
            node: NodeOptions::default(),
            containers: ContainerOptions::default(),
            ai: AiOptions::default(),
        };
        assert(views(c.enabled@) =~= seq!["*"@]);
        assert(views(c.disabled@) =~= seq!["ml"@]);
        c
    }
}

/// `pattern` is the id itself, or the dotted prefix that the id starts with.
pub open spec fn names_provider(pattern: Seq<char>, id: Seq<char>) -> bool {
    pattern == id || (has_prefix(id, pattern) && id.len() > pattern.len() && id[pattern.len() as int]
        == '.')
}

/// Whether a pattern is the id itself, or the dotted prefix that the id starts with.
pub fn is_named_by(id: &str, pattern: &str) -> (r: bool)
    ensures
        r == names_provider(pattern@, id@),
{
    if same(pattern, id) {
        return true;
    }
    if !starts_with(id, pattern) {
        return false;
    }
    let chars = chars_of(id);
    let n: usize = pattern.unicode_len();
    chars.len() > n && chars[n] == '.'
}

/// A pattern of the enabled and disabled lists: `*` stands for every provider.
pub open spec fn covers_provider(pattern: Seq<char>, id: Seq<char>) -> bool {
    pattern == "*"@ || names_provider(pattern, id)
}

pub open spec fn any_covers(patterns: Seq<Seq<char>>, id: Seq<char>) -> bool {
    exists|i: int| 0 <= i < patterns.len() && covers_provider(#[trigger] patterns[i], id)
}

fn covered(patterns: &Vec<String>, id: &str) -> (r: bool)
    ensures
        r == any_covers(views(patterns@), id@),
{
    let mut i: usize = 0;
    while i < patterns.len()
        invariant
            i <= patterns@.len(),
            forall|k: int| 0 <= k < i ==> !covers_provider(#[trigger] views(patterns@)[k], id@),
        decreases patterns@.len() - i,
    {
        let pattern = patterns[i].as_str();
        if same(pattern, "*") || is_named_by(id, pattern) {
            assert(covers_provider(views(patterns@)[i as int], id@));
            return true;
        }
        i += 1;
    }
    false
}

impl ProviderConfig {
    pub open spec fn enables(&self, id: Seq<char>) -> bool {
        any_covers(views(self.enabled@), id) && !any_covers(views(self.disabled@), id)
    }

    /// A provider is active if it is enabled and not disabled. Matching is by exact id or by
    /// the group prefix, so `node` disables all `node.*` providers.
    pub fn is_enabled(&self, provider_id: &str) -> (r: bool)
        ensures
            r == self.enables(provider_id@),
    {
        covered(&self.enabled, provider_id) && !covered(&self.disabled, provider_id)
    }
}

#[derive(Debug, Clone, Copy, PartialEq, Eq, Structural)]
pub struct AppleOptions {
    /// Simulator runtimes to keep, newest first.
    pub keep_latest_simulator_runtimes: usize,
    /// Offer runtimes of other platforms than iOS for removal.
    pub offer_non_ios_runtimes: bool,
}

impl Default for AppleOptions {
    fn default() -> (c: AppleOptions)
        ensures
            c == (AppleOptions { keep_latest_simulator_runtimes: 2, offer_non_ios_runtimes: true }),
    {
        AppleOptions { keep_latest_simulator_runtimes: 2, offer_non_ios_runtimes: true }
    }
}

#[derive(Debug, Clone, Copy, PartialEq, Eq, Structural)]
pub struct NodeOptions {
    /// Keep the pnpm content-addressable store out of the candidate list.
    pub keep_pnpm_store: bool,
    /// Offer `node_modules` directories found in projects.
    pub offer_node_modules: bool,
}

impl Default for NodeOptions {
    fn default() -> (c: NodeOptions)
        ensures
            c == (NodeOptions { keep_pnpm_store: true, offer_node_modules: true }),
    {
        NodeOptions { keep_pnpm_store: true, offer_node_modules: true }
    }
}

#[derive(Debug, Clone, Copy, PartialEq, Eq, Structural)]
pub struct ContainerOptions {
    /// Offer named volumes, which hold state that exists nowhere else.
    pub include_volumes: bool,
}

impl Default for ContainerOptions {
    fn default() -> (c: ContainerOptions)
        ensures
            c == (ContainerOptions { include_volumes: false }),
    {
        ContainerOptions { include_volumes: false }
    }
}

#[derive(Debug, Clone, Copy, PartialEq, Eq, Structural)]
pub struct AiOptions {
    /// Probe the ports of local tools, to warn when one of them is running.
    pub check_running: bool,
}

impl Default for AiOptions {
    fn default() -> (c: AiOptions)
        ensures
            c == (AiOptions { check_running: true }),
    {
        AiOptions { check_running: true }
    }
}

#[derive(Debug, Clone, PartialEq)]
pub struct UiConfig {
    /// 0 picks a free port.
    pub port: u16,
    pub open_browser: bool,
    /// `auto`, `light` or `dark`.
    pub theme: String,
}

impl UiConfig {
    pub open spec fn is_default(&self) -> bool {
        &&& self.port == 0
        &&& self.open_browser
        &&& self.theme@ == "auto"@
    }
}

impl Default for UiConfig {
    fn default() -> (c: UiConfig)
        ensures
            c.is_default(),
    {
        UiConfig { port: 0, open_browser: true, theme: "auto".to_owned() }
    }
}

#[derive(Debug, Clone, PartialEq)]
pub struct ScheduleConfig {
    pub enabled: bool,
    /// `daily`, `weekly`, `biweekly` or `monthly`.
    pub cadence: String,
    /// Tiers a background run may touch, never `caution`.
    pub tiers: Vec<Tier>,
    pub older_than_days: u32,
    /// The first scheduled run only reports what it would have done.
    pub dry_run_first: bool,
    pub notify: bool,
    pub max_runtime_minutes: u32,
}

impl ScheduleConfig {
    pub open spec fn is_default(&self) -> bool {
        &&& !self.enabled
        &&& self.cadence@ == "weekly"@
        &&& self.tiers@ == seq![Tier::Safe]
        &&& self.older_than_days == 60
        &&& self.dry_run_first
        &&& self.notify
        &&& self.max_runtime_minutes == 30
    }
}

impl Default for ScheduleConfig {
    fn default() -> (c: ScheduleConfig)
        ensures
            c.is_default(),
    {
        let c = ScheduleConfig {
            enabled: false,
            cadence: "weekly".to_owned(),
            tiers: vec![Tier::Safe],
            older_than_days: 60,
            dry_run_first: true,
            notify: true,
            max_runtime_minutes: 30,
        };
        assert(c.tiers@ =~= seq![Tier::Safe]);
        c
    }
}

/// The first pattern that does not compile, with what is wrong with it.
pub open spec fn first_bad_pattern(patterns: Seq<Seq<char>>) -> Option<(Seq<char>, Seq<char>)>
    decreases patterns.len(),
{
    if patterns.len() == 0 {
        None
    } else {
        match pattern_problem(patterns[0]) {
            Some(problem) => Some((patterns[0], problem)),
            None => first_bad_pattern(patterns.skip(1)),
        }
    }
}

pub open spec fn is_theme(theme: Seq<char>) -> bool {
    theme == "auto"@ || theme == "light"@ || theme == "dark"@
}

/// What is wrong with the settings that can be wrong, the first of them first.
pub open spec fn problem_with(
    min_size: Seq<char>,
    max_depth: nat,
    exclude: Seq<Seq<char>>,
    tiers: Seq<Tier>,
    theme: Seq<char>,
) -> Option<Seq<char>> {
    match parse_bytes_spec(min_size) {
        Err(text) => Some("thresholds.min_size: "@ + text),
        Ok(_) => if max_depth == 0 {
            Some("scan.max_depth must be at least 1"@)
        } else {
            match first_bad_pattern(exclude) {
                Some((pattern, problem)) => Some("scan.exclude `"@ + pattern + "`: "@ + problem),
                None => if tiers.contains(Tier::Caution) {
                    Some(
                        "schedule.tiers may not include `caution`: background runs never remove irreplaceable data"@,
                    )
                } else if !is_theme(theme) {
                    Some("ui.theme `"@ + theme + "` is not one of auto|light|dark"@)
                } else {
                    None
                },
            }
        },
    }
}

/// `after` is `before` with the overrides of the environment. A value that does not parse
/// overrides nothing.
pub open spec fn overrides(before: Config, after: Config, env: Seq<(Seq<char>, Seq<char>)>) -> bool {
    &&& after.scan.concurrency == match value_of(env, "RECLAIM_CONCURRENCY"@) {
        Some(text) => match unsigned(text, usize::MAX as nat) {
            Some(n) => n as usize,
            None => before.scan.concurrency,
        },
        None => before.scan.concurrency,
    }
    &&& after.thresholds.min_size@ == or_else(
        value_of(env, "RECLAIM_MIN_SIZE"@),
        before.thresholds.min_size@,
    )
    &&& match value_of(env, "RECLAIM_DELETE_MODE"@) {
        Some(text) => if lowered(text) == "tiered"@ || lowered(text) == "trash"@ || lowered(text)
            == "purge"@ {
            lowered(text) == after.delete.mode.name()
        } else {
            after.delete.mode == before.delete.mode
        },
        None => after.delete.mode == before.delete.mode,
    }
    &&& views(after.scan.project_roots@) == match value_of(env, "RECLAIM_PROJECT_ROOTS"@) {
        Some(text) => nonempty(pieces(text, ':')),
        None => views(before.scan.project_roots@),
    }
    &&& after.scan.exclude == before.scan.exclude
    &&& after.scan.max_depth == before.scan.max_depth
    &&& after.scan.follow_symlinks == before.scan.follow_symlinks
    &&& after.scan.cross_device == before.scan.cross_device
    &&& after.thresholds.stale_after_days == before.thresholds.stale_after_days
    &&& after.thresholds.per_tier == before.thresholds.per_tier
    &&& after.delete.confirm_caution == before.delete.confirm_caution
    &&& after.delete.protected_paths == before.delete.protected_paths
    &&& after.providers == before.providers
    &&& after.ui == before.ui
    &&& after.schedule == before.schedule
}

/// The outcome of reading the configuration file.
pub enum FileOutcome {
    /// The values of the file, with defaults for what it leaves out.
    Parsed(Config),
    /// There is no such file.
    Missing,
    /// The text is no configuration.
    Malformed(String),
    /// The file is there and could not be read.
    Unreadable(String),
}

impl Config {
    /// Nothing but defaults.
    pub open spec fn is_default(&self) -> bool {
        &&& self.scan.is_default()
        &&& self.thresholds.is_default()
        &&& self.delete.is_default()
        &&& self.providers.is_default()
        &&& self.ui.is_default()
        &&& self.schedule.is_default()
    }

    /// What is wrong with the configuration, or `None` where it is usable.
    pub open spec fn problem(&self) -> Option<Seq<char>> {
        problem_with(
            self.thresholds.min_size@,
            self.scan.max_depth as nat,
            views(self.scan.exclude@),
            self.schedule.tiers@,
            self.ui.theme@,
        )
    }

    /// Reject configurations that would misbehave later, at load time.
    pub fn validate(&self) -> (r: Result<(), Error>)
        ensures
            match r {
                Ok(_) => self.problem() is None,
                Err(e) => self.problem() matches Some(text) && e@ == ErrorModel::Config(text),
            },
    {
        match self.thresholds.min_size_bytes() {
            Ok(_) => {},
            Err(e) => {
                return Err(e);
            },
        }
        if self.scan.max_depth == 0 {
            return Err(Error::Config("scan.max_depth must be at least 1".to_owned()));
        }
        let ghost patterns = views(self.scan.exclude@);
        let mut i: usize = 0;
        assert(patterns.skip(0) =~= patterns);
        while i < self.scan.exclude.len()
            invariant
                i <= self.scan.exclude@.len(),
                patterns == views(self.scan.exclude@),
                parse_bytes_spec(self.thresholds.min_size@) is Ok,
                self.scan.max_depth > 0,
                first_bad_pattern(patterns) == first_bad_pattern(patterns.skip(i as int)),
            decreases self.scan.exclude@.len() - i,
        {
            let pattern = self.scan.exclude[i].as_str();
            assert(patterns.skip(i as int)[0] == pattern@);
            assert(patterns.skip(i as int).skip(1) =~= patterns.skip(i + 1));
            match problem_of(pattern) {
                Some(problem) => {
                    return Err(
                        Error::Config(
                            "scan.exclude `".to_owned().concat(pattern).concat("`: ").concat(
                                problem.as_str(),
                            ),
                        ),
                    );
                },
                None => {},
            }
            i += 1;
        }
        let mut k: usize = 0;
        while k < self.schedule.tiers.len()
            invariant
                k <= self.schedule.tiers@.len(),
                parse_bytes_spec(self.thresholds.min_size@) is Ok,
                self.scan.max_depth > 0,
                first_bad_pattern(views(self.scan.exclude@)) is None,
                forall|j: int| 0 <= j < k ==> self.schedule.tiers@[j] != Tier::Caution,
            decreases self.schedule.tiers@.len() - k,
        {
            if self.schedule.tiers[k] == Tier::Caution {
                return Err(
                    Error::Config(
                        "schedule.tiers may not include `caution`: background runs never remove irreplaceable data".to_owned(),
                    ),
                );
            }
            k += 1;
        }
        let theme = self.ui.theme.as_str();
        if !(same(theme, "auto") || same(theme, "light") || same(theme, "dark")) {
            return Err(
                Error::Config(
                    "ui.theme `".to_owned().concat(theme).concat(
                        "` is not one of auto|light|dark",
                    ),
                ),
            );
        }
        Ok(())
    }

    /// Apply `RECLAIM_*` overrides. A value that does not parse changes nothing.
    pub fn apply_env(&mut self, env: &Vec<Variable>)
        ensures
            overrides(*old(self), *final(self), views(env@)),
    {
        match variable(env, "RECLAIM_CONCURRENCY") {
            Some(v) => match parse_unsigned(v.as_str(), usize::MAX as u64) {
                Some(n) => {
                    self.scan.concurrency = n as usize;
                },
                None => {},
            },
            None => {},
        }
        match variable(env, "RECLAIM_MIN_SIZE") {
            Some(v) => {
                self.thresholds.min_size = v;
            },
            None => {},
        }
        match variable(env, "RECLAIM_DELETE_MODE") {
            Some(v) => match DeleteMode::from_str(v.as_str()) {
                Ok(mode) => {
                    self.delete.mode = mode;
                },
                Err(_) => {},
            },
            None => {},
        }
        match variable(env, "RECLAIM_PROJECT_ROOTS") {
            Some(v) => {
                self.scan.project_roots = nonempty_texts(&split_text(v.as_str(), ':'));
            },
            None => {},
        }
    }

    /// Load what was read from the standard location.
    pub fn load(file: FileOutcome, paths: &Paths, env: &Vec<Variable>) -> (r: Result<Self, Error>)
        ensures
            loaded(r, file, join(paths@.config_dir, "reclaim/config.toml"@), views(env@)),
    {
        Self::load_from(file, paths.config_file().as_str(), env)
    }

    /// Load what was read from an explicit file. A missing file yields defaults; an unreadable
    /// or malformed one is an error, and so is a configuration that is not usable.
    pub fn load_from(file: FileOutcome, path: &str, env: &Vec<Variable>) -> (r: Result<Self, Error>)
        ensures
            loaded(r, file, path@, views(env@)),
    {
        let mut config = match file {
            FileOutcome::Parsed(config) => config,
            FileOutcome::Missing => Config::default(),
            FileOutcome::Malformed(source) => {
                return Err(Error::ConfigParse { path: path.to_owned(), source });
            },
            FileOutcome::Unreadable(source) => {
                return Err(Error::io(path, false, source.as_str()));
            },
        };
        config.apply_env(env);
        match config.validate() {
            Ok(_) => Ok(config),
            Err(e) => Err(e),
        }
    }

    /// Where the configured project roots point, with `~` and `$VAR` expanded: those that are
    /// directories, without repetitions.
    pub fn resolved_project_roots(
        &self,
        paths: &Paths,
        env: &Vec<Variable>,
        disk: &Disk,
    ) -> (roots: Vec<String>)
        ensures
            views(roots@) == distinct_dirs(
                expanded_all(paths@.home, views(self.scan.project_roots@), views(env@)),
                disk@,
            ),
    {
        let expanded = expand_all(paths, &self.scan.project_roots, env);
        let ghost all = views(expanded@);
        let mut roots: Vec<String> = Vec::new();
        let mut i: usize = 0;
        assert(views(roots@) =~= distinct_dirs(all.take(0), disk@));
        while i < expanded.len()
            invariant
                i <= expanded@.len(),
                all == views(expanded@),
                views(roots@) == distinct_dirs(all.take(i as int), disk@),
            decreases expanded@.len() - i,
        {
            assert(all.take(i + 1).drop_last() =~= all.take(i as int));
            assert(all.take(i + 1).last() == expanded@[i as int]@);
            if disk.is_dir(expanded[i].as_str()) && !holds_path(&roots, expanded[i].as_str()) {
                roots.push(expanded[i].clone());
            }
            i += 1;
        }
        assert(all.take(all.len() as int) =~= all);
        roots
    }

    pub fn resolved_protected_paths(&self, paths: &Paths, env: &Vec<Variable>) -> (out: Vec<String>)
        ensures
            views(out@) == expanded_all(
                paths@.home,
                views(self.delete.protected_paths@),
                views(env@),
            ),
    {
        expand_all(paths, &self.delete.protected_paths, env)
    }
}

/// The outcome of loading: an error of the file, an error of the settings, or the settings of
/// the file under the environment's overrides.
pub open spec fn loaded(
    r: Result<Config, Error>,
    file: FileOutcome,
    path: Seq<char>,
    env: Seq<(Seq<char>, Seq<char>)>,
) -> bool {
    match file {
        FileOutcome::Malformed(source) => r matches Err(e) && e@ == (ErrorModel::ConfigParse {
            path,
            source: source@,
        }),
        FileOutcome::Unreadable(source) => r matches Err(e) && e@ == (ErrorModel::Io {
            path,
            missing: false,
            source: source@,
        }),
        FileOutcome::Missing => match problem_with(
            or_else(value_of(env, "RECLAIM_MIN_SIZE"@), "50MB"@),
            8,
            default_excludes(),
            seq![Tier::Safe],
            "auto"@,
        ) {
            Some(text) => r matches Err(e) && e@ == ErrorModel::Config(text),
            None => r matches Ok(c) && c.problem() is None && exists|base: Config|
                base.is_default() && #[trigger] overrides(base, c, env),
        },
        FileOutcome::Parsed(parsed) => match problem_with(
            or_else(value_of(env, "RECLAIM_MIN_SIZE"@), parsed.thresholds.min_size@),
            parsed.scan.max_depth as nat,
            views(parsed.scan.exclude@),
            parsed.schedule.tiers@,
            parsed.ui.theme@,
        ) {
            Some(text) => r matches Err(e) && e@ == ErrorModel::Config(text),
            None => r matches Ok(c) && c.problem() is None && overrides(parsed, c, env),
        },
    }
}

pub open spec fn expanded_all(
    home: Seq<char>,
    raw: Seq<Seq<char>>,
    env: Seq<(Seq<char>, Seq<char>)>,
) -> Seq<Seq<char>> {
    Seq::new(raw.len(), |i: int| expanded_path(home, raw[i], env))
}

fn expand_all(paths: &Paths, raw: &Vec<String>, env: &Vec<Variable>) -> (out: Vec<String>)
    ensures
        views(out@) == expanded_all(paths@.home, views(raw@), views(env@)),
{
    let mut out: Vec<String> = Vec::new();
    let mut i: usize = 0;
    while i < raw.len()
        invariant
            i <= raw@.len(),
            out@.len() == i,
            forall|k: int|
                0 <= k < i ==> (#[trigger] out@[k])@ == expanded_path(
                    paths@.home,
                    raw@[k]@,
                    views(env@),
                ),
        decreases raw@.len() - i,
    {
        out.push(paths.expand(raw[i].as_str(), env));
        i += 1;
    }
    assert(views(out@) =~= expanded_all(paths@.home, views(raw@), views(env@)));
    out
}

/// One of the listed texts names the path.
pub open spec fn lists_path(list: Seq<Seq<char>>, path: Seq<char>) -> bool {
    exists|i: int| 0 <= i < list.len() && components(#[trigger] list[i]) == components(path)
}

pub fn holds_path(list: &Vec<String>, path: &str) -> (r: bool)
    ensures
        r == lists_path(views(list@), path@),
{
    let mut i: usize = 0;
    while i < list.len()
        invariant
            i <= list@.len(),
            forall|k: int|
                0 <= k < i ==> components(#[trigger] views(list@)[k]) != components(path@),
        decreases list@.len() - i,
    {
        if same_path(list[i].as_str(), path) {
            assert(components(views(list@)[i as int]) == components(path@));
            return true;
        }
        i += 1;
    }
    false
}

/// The paths that are directories, each once.
pub open spec fn distinct_dirs(paths: Seq<Seq<char>>, disk: DiskModel) -> Seq<Seq<char>>
    decreases paths.len(),
{
    if paths.len() == 0 {
        Seq::empty()
    } else {
        let before = distinct_dirs(paths.drop_last(), disk);
        if disk.is_dir(paths.last()) && !lists_path(before, paths.last()) {
            before.push(paths.last())
        } else {
            before
        }
    }
}

/// A configuration that passes never lets a background run touch the caution tier.
pub proof fn schedules_never_touch_caution(config: Config)
    requires
        config.problem() is None,
    ensures
        !config.schedule.tiers@.contains(Tier::Caution),
{
}

/// A disabled group disables every provider of the group, whatever is enabled.
pub proof fn a_disabled_group_disables_its_providers(
    config: ProviderConfig,
    group: Seq<char>,
    name: Seq<char>,
)
    requires
        views(config.disabled@).contains(group),
    ensures
        !config.enables(group + seq!['.'] + name),
        !config.enables(group),
{
    let list = views(config.disabled@);
    let i = choose|i: int| 0 <= i < list.len() && list[i] == group;
    let id = group + seq!['.'] + name;
    assert(id.take(group.len() as int) =~= group);
    assert(covers_provider(list[i], id));
    assert(covers_provider(list[i], group));
}

/// A name that merely starts with the letters of a group is not of the group.
pub proof fn a_similar_name_is_another_group(group: Seq<char>, more: Seq<char>)
    requires
        more.len() > 0,
        more[0] != '.',
        group != "*"@,
    ensures
        !covers_provider(group, group + more),
{
    assert((group + more).len() != group.len());
    assert((group + more)[group.len() as int] == more[0]);
}

/// A provider is enabled exactly where a pattern enables it and none disables it: a pattern is `*`,
/// its id, or all of its id that stands before one of its dots.
pub proof fn a_provider_is_enabled_by_name(config: ProviderConfig, id: Seq<char>)
    ensures
        config.enables(id) == ({
            &&& exists|i: int|
                0 <= i < views(config.enabled@).len() && is_pattern_for(
                    #[trigger] views(config.enabled@)[i],
                    id,
                )
            &&& forall|i: int|
                0 <= i < views(config.disabled@).len() ==> !is_pattern_for(
                    #[trigger] views(config.disabled@)[i],
                    id,
                )
        }),
{
    let enabled = views(config.enabled@);
    let disabled = views(config.disabled@);
    assert forall|p: Seq<char>| #[trigger] is_pattern_for(p, id) == covers_provider(p, id) by {
        if names_provider(p, id) && p != id {
            assert(id =~= p + seq!['.'] + id.skip(p.len() as int + 1));
        }
        if exists|rest: Seq<char>| id == p + seq!['.'] + rest {
            let rest = choose|rest: Seq<char>| id == p + seq!['.'] + rest;
            assert(id.take(p.len() as int) =~= p);
            assert(id[p.len() as int] == '.');
        }
    }
    if any_covers(enabled, id) {
        let i = choose|i: int| 0 <= i < enabled.len() && covers_provider(#[trigger] enabled[i], id);
        assert(is_pattern_for(enabled[i], id));
    }
    if exists|i: int| 0 <= i < enabled.len() && is_pattern_for(#[trigger] enabled[i], id) {
        let i = choose|i: int| 0 <= i < enabled.len() && is_pattern_for(#[trigger] enabled[i], id);
        assert(covers_provider(enabled[i], id));
    }
    if any_covers(disabled, id) {
        let i = choose|i: int| 0 <= i < disabled.len() && covers_provider(#[trigger] disabled[i], id);
        assert(is_pattern_for(disabled[i], id));
    }
    if exists|i: int| 0 <= i < disabled.len() && is_pattern_for(#[trigger] disabled[i], id) {
        let i = choose|i: int| 0 <= i < disabled.len() && is_pattern_for(#[trigger] disabled[i], id);
        assert(covers_provider(disabled[i], id));
    }
}

/// Everything, an id, or all of an id that stands before one of its dots.
pub open spec fn is_pattern_for(pattern: Seq<char>, id: Seq<char>) -> bool {
    pattern == "*"@ || pattern == id || exists|rest: Seq<char>| id == pattern + seq!['.'] + rest
}

/// A configuration is usable exactly where its size can be read, its depth is at least one, each of
/// its patterns compiles, its schedule spares the caution tier, and its theme is known.
pub proof fn a_usable_configuration_has_no_problem(config: Config)
    ensures
        config.problem() is None <==> {
            &&& parse_bytes_spec(config.thresholds.min_size@) is Ok
            &&& config.scan.max_depth >= 1
            &&& forall|i: int|
                0 <= i < views(config.scan.exclude@).len() ==> pattern_problem(
                    #[trigger] views(config.scan.exclude@)[i],
                ) is None
            &&& !config.schedule.tiers@.contains(Tier::Caution)
            &&& config.ui.theme@ == "auto"@ || config.ui.theme@ == "light"@ || config.ui.theme@
                == "dark"@
        },
{
    the_first_bad_pattern_is_named(views(config.scan.exclude@));
}

/// The pattern that is named as bad is the first that does not compile.
pub proof fn the_first_bad_pattern_is_named(patterns: Seq<Seq<char>>)
    ensures
        first_bad_pattern(patterns) is None <==> forall|i: int|
            0 <= i < patterns.len() ==> pattern_problem(#[trigger] patterns[i]) is None,
        first_bad_pattern(patterns) matches Some((pattern, problem)) ==> pattern_problem(pattern)
            == Some(problem) && exists|i: int|
            0 <= i < patterns.len() && #[trigger] patterns[i] == pattern && forall|k: int|
                0 <= k < i ==> pattern_problem(#[trigger] patterns[k]) is None,
    decreases patterns.len(),
{
    if patterns.len() > 0 {
        let rest = patterns.skip(1);
        the_first_bad_pattern_is_named(rest);
        if pattern_problem(patterns[0]) is None {
            if let Some((pattern, problem)) = first_bad_pattern(rest) {
                let i = choose|i: int|
                    0 <= i < rest.len() && #[trigger] rest[i] == pattern && forall|k: int|
                        0 <= k < i ==> pattern_problem(#[trigger] rest[k]) is None;
                assert(patterns[i + 1] == pattern);
                assert forall|k: int| 0 <= k < i + 1 implies pattern_problem(
                    #[trigger] patterns[k],
                ) is None by {
                    if k > 0 {
                        assert(patterns[k] == rest[k - 1]);
                    }
                }
            } else {
                assert forall|i: int| 0 <= i < patterns.len() implies pattern_problem(
                    #[trigger] patterns[i],
                ) is None by {
                    if i > 0 {
                        assert(patterns[i] == rest[i - 1]);
                    }
                }
            }
        } else {
            let first = patterns[0];
            assert(first_bad_pattern(patterns) == Some((first, pattern_problem(first)->0)));
        }
    }
}

/// The environment overrides the file in four settings and leaves every other as it is. A delete
/// mode that is not known changes nothing, and neither does a count that is no number.
pub proof fn the_environment_overrides_the_file(
    before: Config,
    after: Config,
    env: Seq<(Seq<char>, Seq<char>)>,
)
    requires
        overrides(before, after, env),
    ensures
        value_of(env, "RECLAIM_CONCURRENCY"@) is None ==> after.scan.concurrency
            == before.scan.concurrency,
        value_of(env, "RECLAIM_MIN_SIZE"@) matches Some(text) ==> after.thresholds.min_size@ == text,
        value_of(env, "RECLAIM_MIN_SIZE"@) is None ==> after.thresholds.min_size@
            == before.thresholds.min_size@,
        value_of(env, "RECLAIM_DELETE_MODE"@) matches Some(text) ==> {
            &&& lowered(text) == "trash"@ ==> after.delete.mode == DeleteMode::Trash
            &&& lowered(text) == "purge"@ ==> after.delete.mode == DeleteMode::Purge
            &&& lowered(text) == "tiered"@ ==> after.delete.mode == DeleteMode::Tiered
            &&& lowered(text) != "trash"@ && lowered(text) != "purge"@ && lowered(text)
                != "tiered"@ ==> after.delete.mode == before.delete.mode
        },
        value_of(env, "RECLAIM_DELETE_MODE"@) is None ==> after.delete.mode == before.delete.mode,
        value_of(env, "RECLAIM_PROJECT_ROOTS"@) is None ==> views(after.scan.project_roots@)
            == views(before.scan.project_roots@),
        after.scan.exclude == before.scan.exclude,
        after.scan.max_depth == before.scan.max_depth,
        after.scan.follow_symlinks == before.scan.follow_symlinks,
        after.scan.cross_device == before.scan.cross_device,
        after.thresholds.stale_after_days == before.thresholds.stale_after_days,
        after.thresholds.per_tier == before.thresholds.per_tier,
        after.delete.confirm_caution == before.delete.confirm_caution,
        after.delete.protected_paths == before.delete.protected_paths,
        after.providers == before.providers,
        after.ui == before.ui,
        after.schedule == before.schedule,
{
    reveal_strlit("trash");
    reveal_strlit("purge");
    reveal_strlit("tiered");
    assert("trash"@[0] != "purge"@[0]);
    assert("tiered"@.len() != "trash"@.len() && "tiered"@.len() != "purge"@.len());
}

/// What could not be read or parsed is an error that names the file, never a default; a file that is
/// not there leaves the defaults.
pub proof fn a_broken_file_is_never_ignored(
    r: Result<Config, Error>,
    file: FileOutcome,
    path: Seq<char>,
    env: Seq<(Seq<char>, Seq<char>)>,
)
    requires
        loaded(r, file, path, env),
    ensures
        file is Malformed || file is Unreadable ==> r is Err,
        file matches FileOutcome::Malformed(source) ==> r->Err_0@ == (ErrorModel::ConfigParse {
            path,
            source: source@,
        }),
        r matches Ok(c) ==> c.problem() is None && (file is Missing || file is Parsed),
        r is Ok && file is Missing ==> exists|base: Config|
            base.is_default() && #[trigger] overrides(base, r->Ok_0, env),
        r is Ok && file is Parsed ==> overrides(file->Parsed_0, r->Ok_0, env),
{
}

/// Workers are twice the processors, and never more than sixteen.
pub proof fn workers_are_capped(cpus: nat)
    requires
        cpus > 0,
    ensures
        cpus <= 8 ==> auto_threads(cpus) == 2 * cpus,
        cpus >= 8 ==> auto_threads(cpus) == 16,
{
}

/// The trash is used in trash mode, never in purge mode, and in tiered mode for every tier but the
/// safe one; each tier has its own age.
pub proof fn a_mode_says_what_is_trashed(mode: DeleteMode, tier: Tier, days: PerTierDays)
    ensures
        DeleteMode::Trash.trashes(tier),
        !DeleteMode::Purge.trashes(tier),
        !DeleteMode::Tiered.trashes(Tier::Safe),
        DeleteMode::Tiered.trashes(Tier::Review) && DeleteMode::Tiered.trashes(Tier::Caution),
        days.days(Tier::Safe) == days.safe,
        days.days(Tier::Review) == days.review,
        days.days(Tier::Caution) == days.caution,
{
}

/// The roots that are searched are the configured ones that are directories, each once, the first
/// spelling of a path standing for it.
pub proof fn every_configured_directory_is_searched(paths: Seq<Seq<char>>, disk: DiskModel)
    ensures
        forall|i: int|
            0 <= i < paths.len() && disk.is_dir(#[trigger] paths[i]) ==> lists_path(
                distinct_dirs(paths, disk),
                paths[i],
            ),
        forall|k: int|
            0 <= k < distinct_dirs(paths, disk).len() ==> paths.contains(
                #[trigger] distinct_dirs(paths, disk)[k],
            ) && disk.is_dir(distinct_dirs(paths, disk)[k]),
        forall|k: int, l: int|
            0 <= k < l < distinct_dirs(paths, disk).len() ==> components(
                #[trigger] distinct_dirs(paths, disk)[k],
            ) != components(#[trigger] distinct_dirs(paths, disk)[l]),
    decreases paths.len(),
{
    if paths.len() > 0 {
        let fewer = paths.drop_last();
        let last = paths.last();
        every_configured_directory_is_searched(fewer, disk);
        let before = distinct_dirs(fewer, disk);
        let now = distinct_dirs(paths, disk);
        assert forall|i: int| 0 <= i < paths.len() && disk.is_dir(#[trigger] paths[i]) implies
            lists_path(now, paths[i]) by {
            if i < fewer.len() {
                assert(fewer[i] == paths[i]);
                let k = choose|k: int|
                    0 <= k < before.len() && components(#[trigger] before[k]) == components(paths[i]);
                assert(now[k] == before[k]);
            } else if lists_path(before, last) {
                let k = choose|k: int|
                    0 <= k < before.len() && components(#[trigger] before[k]) == components(last);
                assert(now[k] == before[k]);
            } else {
                assert(now[now.len() - 1] == last);
            }
        }
        assert forall|k: int| 0 <= k < now.len() implies paths.contains(#[trigger] now[k])
            && disk.is_dir(now[k]) by {
            if k < before.len() {
                assert(now[k] == before[k]);
                let i = choose|i: int| 0 <= i < fewer.len() && fewer[i] == before[k];
                assert(paths[i] == now[k]);
            } else {
                assert(paths[paths.len() - 1] == now[k]);
            }
        }
        assert forall|k: int, l: int| 0 <= k < l < now.len() implies components(#[trigger] now[k])
            != components(#[trigger] now[l]) by {
            if l < before.len() {
                assert(now[k] == before[k] && now[l] == before[l]);
            } else {
                assert(now[k] == before[k]);
            }
        }
    }
}

/// These are the values that hold where nothing is configured: nothing is entered that belongs to
/// the system, nothing is removed without a question, and nothing runs by itself.
pub proof fn these_values_hold_by_default(c: Config)
    requires
        c.is_default(),
    ensures
        c.scan.project_roots@.len() == 0,
        views(c.scan.exclude@) == seq![
            "**/Library/**"@,
            "**/.Trash/**"@,
            "**/.git/**"@,
            "**/node_modules/**"@,
            "**/.venv/**"@,
            "**/Applications/**"@,
        ],
        c.scan.max_depth == 8 && c.scan.concurrency == 0,
        !c.scan.follow_symlinks && !c.scan.cross_device,
        c.thresholds.min_size@ == "50MB"@ && c.thresholds.stale_after_days == 60,
        c.thresholds.per_tier.safe == 14,
        c.thresholds.per_tier.review == 60,
        c.thresholds.per_tier.caution == 180,
        c.delete.mode == DeleteMode::Tiered && c.delete.confirm_caution,
        views(c.delete.protected_paths@) == seq!["~/Documents"@, "~/Desktop"@, "~/.ssh"@],
        views(c.providers.enabled@) == seq!["*"@] && views(c.providers.disabled@) == seq!["ml"@],
        c.providers.apple.keep_latest_simulator_runtimes == 2,
        c.providers.apple.offer_non_ios_runtimes,
        c.providers.node.keep_pnpm_store && c.providers.node.offer_node_modules,
        !c.providers.containers.include_volumes && c.providers.ai.check_running,
        c.ui.port == 0 && c.ui.open_browser && c.ui.theme@ == "auto"@,
        !c.schedule.enabled && c.schedule.cadence@ == "weekly"@,
        c.schedule.tiers@ == seq![Tier::Safe] && c.schedule.older_than_days == 60,
        c.schedule.dry_run_first && c.schedule.notify,
        c.schedule.max_runtime_minutes == 30,
{
    assert(views(c.scan.project_roots@).len() == c.scan.project_roots@.len());
}

} // verus!
