//! The domain model. Every other module is a transform over these values.
//!
//! Candidates are immutable: the stages of a scan each take a candidate and
//! return a new one.
use vstd::prelude::*;
use vstd::string::*;
use crate::format::{bytes, bytes_spec};
use crate::text::{
    Dup, contains_text, decimal, decimal_text, dup_all, dup_option, has_prefix, hex, hex_text,
    lower, lowered, option_text, same, same_ignoring_case, to_ascii_lower, views,
};

verus! {

broadcast use crate::text::lemma_views_push;

/// A moment, in nanoseconds since the Unix epoch.
pub type Moment = i128;

pub const NANOS_PER_SECOND: i128 = 1_000_000_000;

pub const SECONDS_PER_DAY: u64 = 86_400;

/// Stable identifier for a candidate, derived from provider id and primary path.
#[derive(Debug, Clone, PartialEq, Eq, Hash, PartialOrd, Ord)]
pub struct CandidateId(pub String);

impl View for CandidateId {
    type V = Seq<char>;

    open spec fn view(&self) -> Seq<char> {
        self.0@
    }
}

impl Dup for CandidateId {
    fn dup(&self) -> (copy: Self) {
        CandidateId(self.0.clone())
    }
}

/// The 64-bit FNV-1a hash of a byte sequence.
pub open spec fn fnv1a(bytes: Seq<u8>) -> u64
    decreases bytes.len(),
{
    if bytes.len() == 0 {
        0xcbf2_9ce4_8422_2325
    } else {
        (fnv1a(bytes.drop_last()) ^ (bytes.last() as u64)).wrapping_mul(0x0000_0100_0000_01b3)
    }
}

/// The provider, a colon, and the hash of the path in sixteen hexadecimal digits.
pub open spec fn candidate_id(provider: Seq<char>, primary_path: Seq<char>) -> Seq<char> {
    provider + ":"@ + hex(fnv1a(vstd::utf8::encode_utf8(primary_path)) as nat, 16)
}

impl CandidateId {
    pub fn new(provider: &str, primary_path: &str) -> (id: Self)
        ensures
            id@ == candidate_id(provider@, primary_path@),
    {
        let bytes = primary_path.as_bytes();
        let mut hash: u64 = 0xcbf2_9ce4_8422_2325;
        let mut i: usize = 0;
        assert(bytes@.take(0) =~= Seq::empty());
        while i < bytes.len()
            invariant
                i <= bytes@.len(),
                hash == fnv1a(bytes@.take(i as int)),
            decreases bytes@.len() - i,
        {
            assert(bytes@.take(i + 1).drop_last() =~= bytes@.take(i as int));
            hash = (hash ^ (bytes[i] as u64)).wrapping_mul(0x0000_0100_0000_01b3);
            i += 1;
        }
        assert(bytes@.take(bytes@.len() as int) =~= bytes@);
        CandidateId(provider.to_owned().concat(":").concat(hex_text(hash, 16).as_str()))
    }

    /// The identifier as text.
    pub fn text(&self) -> (s: String)
        ensures
            s@ == self@,
    {
        self.0.clone()
    }
}

/// Ecosystem grouping.
#[derive(Debug, Clone, Copy, PartialEq, Eq, Hash, PartialOrd, Ord, Structural)]
pub enum Group {
    Node,
    Python,
    Rust,
    Jvm,
    Go,
    Apple,
    Android,
    Containers,
    DotNet,
    Ruby,
    Php,
    Dart,
    BuildTools,
    Editors,
    System,
    Ml,
}

impl Group {
    /// The place of the group in the list shown to the user.
    pub open spec fn index(self) -> int {
        match self {
            Group::Node => 0,
            Group::Python => 1,
            Group::Rust => 2,
            Group::Jvm => 3,
            Group::Go => 4,
            Group::Apple => 5,
            Group::Android => 6,
            Group::Containers => 7,
            Group::DotNet => 8,
            Group::Ruby => 9,
            Group::Php => 10,
            Group::Dart => 11,
            Group::BuildTools => 12,
            Group::Editors => 13,
            Group::System => 14,
            Group::Ml => 15,
        }
    }

    /// Every group, in order.
    pub open spec fn every() -> Seq<Group> {
        seq![
            Group::Node,
            Group::Python,
            Group::Rust,
            Group::Jvm,
            Group::Go,
            Group::Apple,
            Group::Android,
            Group::Containers,
            Group::DotNet,
            Group::Ruby,
            Group::Php,
            Group::Dart,
            Group::BuildTools,
            Group::Editors,
            Group::System,
            Group::Ml,
        ]
    }

    /// Every group, in order.
    pub fn all() -> (groups: Vec<Group>)
        ensures
            groups@ == Self::every(),
            forall|g: Group| groups@[#[trigger] g.index()] == g,
    {
        let groups = vec![
            Group::Node,
            Group::Python,
            Group::Rust,
            Group::Jvm,
            Group::Go,
            Group::Apple,
            Group::Android,
            Group::Containers,
            Group::DotNet,
            Group::Ruby,
            Group::Php,
            Group::Dart,
            Group::BuildTools,
            Group::Editors,
            Group::System,
            Group::Ml,
        ];
        assert(groups@ =~= Self::every());
        groups
    }

    /// The key of the group, used in provider ids and filters.
    pub open spec fn name(self) -> Seq<char> {
        match self {
            Group::Node => "node"@,
            Group::Python => "python"@,
            Group::Rust => "rust"@,
            Group::Jvm => "jvm"@,
            Group::Go => "go"@,
            Group::Apple => "apple"@,
            Group::Android => "android"@,
            Group::Containers => "containers"@,
            Group::DotNet => "dotnet"@,
            Group::Ruby => "ruby"@,
            Group::Php => "php"@,
            Group::Dart => "dart"@,
            Group::BuildTools => "buildtools"@,
            Group::Editors => "editors"@,
            Group::System => "system"@,
            Group::Ml => "ml"@,
        }
    }

    pub fn as_str(self) -> (s: &'static str)
        ensures
            s@ == self.name(),
    {
        match self {
            Group::Node => "node",
            Group::Python => "python",
            Group::Rust => "rust",
            Group::Jvm => "jvm",
            Group::Go => "go",
            Group::Apple => "apple",
            Group::Android => "android",
            Group::Containers => "containers",
            Group::DotNet => "dotnet",
            Group::Ruby => "ruby",
            Group::Php => "php",
            Group::Dart => "dart",
            Group::BuildTools => "buildtools",
            Group::Editors => "editors",
            Group::System => "system",
            Group::Ml => "ml",
        }
    }

    pub open spec fn heading(self) -> Seq<char> {
        match self {
            Group::Node => "Node.js"@,
            Group::Python => "Python"@,
            Group::Rust => "Rust"@,
            Group::Jvm => "JVM / Java"@,
            Group::Go => "Go"@,
            Group::Apple => "Apple / Xcode"@,
            Group::Android => "Android"@,
            Group::Containers => "Containers"@,
            Group::DotNet => ".NET"@,
            Group::Ruby => "Ruby"@,
            Group::Php => "PHP"@,
            Group::Dart => "Dart / Flutter"@,
            Group::BuildTools => "Build tools"@,
            Group::Editors => "Editors & IDEs"@,
            Group::System => "System"@,
            Group::Ml => "ML / models"@,
        }
    }

    /// Human-facing label for headings.
    pub fn title(self) -> (s: &'static str)
        ensures
            s@ == self.heading(),
    {
        match self {
            Group::Node => "Node.js",
            Group::Python => "Python",
            Group::Rust => "Rust",
            Group::Jvm => "JVM / Java",
            Group::Go => "Go",
            Group::Apple => "Apple / Xcode",
            Group::Android => "Android",
            Group::Containers => "Containers",
            Group::DotNet => ".NET",
            Group::Ruby => "Ruby",
            Group::Php => "PHP",
            Group::Dart => "Dart / Flutter",
            Group::BuildTools => "Build tools",
            Group::Editors => "Editors & IDEs",
            Group::System => "System",
            Group::Ml => "ML / models",
        }
    }

    /// The group of a name, in any ASCII case.
    pub fn from_str(s: &str) -> (r: Result<Group, String>)
        ensures
            match r {
                Ok(g) => lowered(g.name()) == lowered(s@),
                Err(e) => (forall|g: Group| lowered(#[trigger] g.name()) != lowered(s@)) && e@
                    == "unknown group `"@ + s@ + "`"@,
            },
    {
        let groups = Group::all();
        let mut i: usize = 0;
        while i < groups.len()
            invariant
                i <= groups@.len(),
                forall|k: int| 0 <= k < i ==> lowered(groups@[k].name()) != lowered(s@),
            decreases groups@.len() - i,
        {
            if same_ignoring_case(groups[i].as_str(), s) {
                return Ok(groups[i]);
            }
            i += 1;
        }
        assert forall|g: Group| lowered(#[trigger] g.name()) != lowered(s@) by {
            assert(groups@[g.index()] == g);
        }
        Err("unknown group `".to_owned().concat(s).concat("`"))
    }
}

/// No two groups share a name.
pub proof fn group_names_are_distinct(a: Group, b: Group)
    requires
        lowered(a.name()) == lowered(b.name()),
    ensures
        a == b,
{
    reveal_strlit("node");
    reveal_strlit("python");
    reveal_strlit("rust");
    reveal_strlit("jvm");
    reveal_strlit("go");
    reveal_strlit("apple");
    reveal_strlit("android");
    reveal_strlit("containers");
    reveal_strlit("dotnet");
    reveal_strlit("ruby");
    reveal_strlit("php");
    reveal_strlit("dart");
    reveal_strlit("buildtools");
    reveal_strlit("editors");
    reveal_strlit("system");
    reveal_strlit("ml");
    assert(lowered(a.name()).len() == a.name().len());
    assert(lowered(b.name()).len() == b.name().len());
    assert(lowered(a.name())[0] == lower(a.name()[0]));
    assert(lowered(b.name())[0] == lower(b.name()[0]));
    assert(lowered(a.name())[1] == lower(a.name()[1]));
    assert(lowered(b.name())[1] == lower(b.name()[1]));
    if a.name().len() > 2 && b.name().len() > 2 {
        assert(lowered(a.name())[2] == lower(a.name()[2]));
        assert(lowered(b.name())[2] == lower(b.name()[2]));
    }
}

/// How dangerous it is to remove a candidate.
#[derive(Debug, Clone, Copy, PartialEq, Eq, Hash, PartialOrd, Ord, Structural)]
pub enum Tier {
    /// Regenerates automatically on the next build.
    Safe,
    /// Recoverable, but costs a re-download or a long rebuild.
    Review,
    /// May be irreplaceable. Never removed without explicit confirmation.
    Caution,
}

impl Tier {
    /// Greater means riskier.
    pub open spec fn risk(self) -> int {
        match self {
            Tier::Safe => 0,
            Tier::Review => 1,
            Tier::Caution => 2,
        }
    }

    pub fn level(self) -> (n: u8)
        ensures
            n == self.risk(),
    {
        match self {
            Tier::Safe => 0,
            Tier::Review => 1,
            Tier::Caution => 2,
        }
    }

    pub open spec fn name(self) -> Seq<char> {
        match self {
            Tier::Safe => "safe"@,
            Tier::Review => "review"@,
            Tier::Caution => "caution"@,
        }
    }

    pub fn as_str(self) -> (s: &'static str)
        ensures
            s@ == self.name(),
    {
        match self {
            Tier::Safe => "safe",
            Tier::Review => "review",
            Tier::Caution => "caution",
        }
    }

    /// The tier of a name, in any ASCII case.
    pub fn from_str(s: &str) -> (r: Result<Tier, String>)
        ensures
            match r {
                Ok(t) => lowered(s@) == t.name(),
                Err(e) => lowered(s@) != "safe"@ && lowered(s@) != "review"@ && lowered(s@)
                    != "caution"@ && e@ == "unknown tier `"@ + lowered(s@)
                    + "` (expected safe|review|caution)"@,
            },
    {
        let name = to_ascii_lower(s);
        if same(name.as_str(), "safe") {
            Ok(Tier::Safe)
        } else if same(name.as_str(), "review") {
            Ok(Tier::Review)
        } else if same(name.as_str(), "caution") {
            Ok(Tier::Caution)
        } else {
            Err(
                "unknown tier `".to_owned().concat(name.as_str()).concat(
                    "` (expected safe|review|caution)",
                ),
            )
        }
    }
}

/// What kind of thing a candidate is, which drives how staleness is derived.
#[derive(Debug, Clone, Copy, PartialEq, Eq, Hash, Structural)]
pub enum Kind {
    /// A shared cache in the home directory, e.g. `~/.npm`.
    GlobalCache,
    /// An artifact of one project. Its staleness comes from the owning project.
    ProjectArtifact,
    /// A downloadable runtime or SDK image.
    Runtime,
    /// Reclaimed by shelling out to a tool rather than deleting paths.
    Command,
}

/// How the space comes back if the user later needs it.
#[derive(Debug, Clone, PartialEq)]
pub enum Regen {
    /// Rebuilt transparently by the toolchain.
    Automatic { on: String },
    /// Re-downloaded from a network source.
    Download { bytes: Option<u64>, source: String },
    /// Rebuilt locally, costing CPU time.
    Rebuild { minutes: u32 },
    /// Gone forever.
    Never,
}

pub enum RegenModel {
    Automatic { on: Seq<char> },
    Download { bytes: Option<u64>, source: Seq<char> },
    Rebuild { minutes: u32 },
    Never,
}

impl View for Regen {
    type V = RegenModel;

    open spec fn view(&self) -> RegenModel {
        match self {
            Regen::Automatic { on } => RegenModel::Automatic { on: on@ },
            Regen::Download { bytes, source } => RegenModel::Download {
                bytes: *bytes,
                source: source@,
            },
            Regen::Rebuild { minutes } => RegenModel::Rebuild { minutes: *minutes },
            Regen::Never => RegenModel::Never,
        }
    }
}

impl Dup for Regen {
    fn dup(&self) -> (copy: Self) {
        match self {
            Regen::Automatic { on } => Regen::Automatic { on: on.clone() },
            Regen::Download { bytes, source } => Regen::Download {
                bytes: *bytes,
                source: source.clone(),
            },
            Regen::Rebuild { minutes } => Regen::Rebuild { minutes: *minutes },
            Regen::Never => Regen::Never,
        }
    }
}

impl RegenModel {
    /// Short human phrase for the "comes back" column.
    pub open spec fn phrase(self) -> Seq<char> {
        match self {
            RegenModel::Automatic { on } => "auto on "@ + on,
            RegenModel::Download { bytes: Some(b), source } => bytes_spec(b as nat) + " from "@
                + source,
            RegenModel::Download { bytes: None, source } => "re-download from "@ + source,
            RegenModel::Rebuild { minutes } => "~"@ + decimal(minutes as nat) + " min rebuild"@,
            RegenModel::Never => "gone forever"@,
        }
    }
}

impl Regen {
    /// Short human phrase for the "comes back" column.
    pub fn summary(&self) -> (s: String)
        ensures
            s@ == self@.phrase(),
    {
        match self {
            Regen::Automatic { on } => "auto on ".to_owned().concat(on.as_str()),
            Regen::Download { bytes: Some(b), source } => bytes(*b).concat(" from ").concat(
                source.as_str(),
            ),
            Regen::Download { bytes: None, source } => "re-download from ".to_owned().concat(
                source.as_str(),
            ),
            Regen::Rebuild { minutes } => "~".to_owned().concat(
                decimal_text(*minutes as u128).as_str(),
            ).concat(" min rebuild"),
            Regen::Never => "gone forever".to_owned(),
        }
    }
}

#[derive(Debug, Clone, Copy, PartialEq, Eq, PartialOrd, Ord, Structural)]
pub enum Severity {
    Info,
    Caution,
    Danger,
}

impl Severity {
    pub open spec fn rank(self) -> int {
        match self {
            Severity::Info => 0,
            Severity::Caution => 1,
            Severity::Danger => 2,
        }
    }

    pub fn level(self) -> (n: u8)
        ensures
            n == self.rank(),
    {
        match self {
            Severity::Info => 0,
            Severity::Caution => 1,
            Severity::Danger => 2,
        }
    }
}

/// A piece of evidence to show the user before they decide.
#[derive(Debug, Clone, PartialEq)]
pub struct Warning {
    pub severity: Severity,
    pub message: String,
}

pub struct WarningModel {
    pub severity: Severity,
    pub message: Seq<char>,
}

impl View for Warning {
    type V = WarningModel;

    open spec fn view(&self) -> WarningModel {
        WarningModel { severity: self.severity, message: self.message@ }
    }
}

impl Dup for Warning {
    fn dup(&self) -> (copy: Self) {
        Warning { severity: self.severity, message: self.message.clone() }
    }
}

impl Warning {
    pub fn info(message: &str) -> (w: Self)
        ensures
            w@ == (WarningModel { severity: Severity::Info, message: message@ }),
    {
        Warning { severity: Severity::Info, message: message.to_owned() }
    }

    pub fn caution(message: &str) -> (w: Self)
        ensures
            w@ == (WarningModel { severity: Severity::Caution, message: message@ }),
    {
        Warning { severity: Severity::Caution, message: message.to_owned() }
    }

    pub fn danger(message: &str) -> (w: Self)
        ensures
            w@ == (WarningModel { severity: Severity::Danger, message: message@ }),
    {
        Warning { severity: Severity::Danger, message: message.to_owned() }
    }
}

/// How the reclaim is actually performed.
#[derive(Debug, Clone, PartialEq)]
pub enum Action {
    /// Remove the paths from disk.
    RemovePaths,
    /// Run an external command that does the reclaiming itself.
    Shell { program: String, args: Vec<String> },
}

pub enum ActionModel {
    RemovePaths,
    Shell { program: Seq<char>, args: Seq<Seq<char>> },
}

impl View for Action {
    type V = ActionModel;

    open spec fn view(&self) -> ActionModel {
        match self {
            Action::RemovePaths => ActionModel::RemovePaths,
            Action::Shell { program, args } => ActionModel::Shell {
                program: program@,
                args: views(args@),
            },
        }
    }
}

impl Dup for Action {
    fn dup(&self) -> (copy: Self) {
        match self {
            Action::RemovePaths => Action::RemovePaths,
            Action::Shell { program, args } => Action::Shell {
                program: program.clone(),
                args: dup_all(args),
            },
        }
    }
}

impl Action {
    pub fn is_shell(&self) -> (r: bool)
        ensures
            r == (self@ is Shell),
    {
        match self {
            Action::RemovePaths => false,
            Action::Shell { .. } => true,
        }
    }
}

/// Measured size of a candidate.
#[derive(Debug, Clone, Copy, PartialEq, Eq, Structural)]
pub struct Size {
    /// Sum of apparent file sizes.
    pub logical: u64,
    /// Blocks occupied, without bytes already counted through another hardlink. This is the
    /// space that comes back.
    pub on_disk: u64,
    /// Bytes skipped because another hardlink to the same file was already counted.
    pub shared: u64,
    pub files: u64,
    pub dirs: u64,
    /// The walk was cut short.
    pub partial: bool,
}

impl Size {
    pub open spec fn zero() -> Size {
        Size { logical: 0, on_disk: 0, shared: 0, files: 0, dirs: 0, partial: false }
    }

    /// The sums fit.
    pub open spec fn addable(self, rhs: Size) -> bool {
        &&& self.logical + rhs.logical <= u64::MAX
        &&& self.on_disk + rhs.on_disk <= u64::MAX
        &&& self.shared + rhs.shared <= u64::MAX
        &&& self.files + rhs.files <= u64::MAX
        &&& self.dirs + rhs.dirs <= u64::MAX
    }

    /// Field by field; a sum with a partial part is partial.
    pub open spec fn sum(self, rhs: Size) -> Size {
        Size {
            logical: (self.logical + rhs.logical) as u64,
            on_disk: (self.on_disk + rhs.on_disk) as u64,
            shared: (self.shared + rhs.shared) as u64,
            files: (self.files + rhs.files) as u64,
            dirs: (self.dirs + rhs.dirs) as u64,
            partial: self.partial || rhs.partial,
        }
    }
}

impl Size {
    /// Whether the sums fit.
    pub fn can_add(self, rhs: Size) -> (r: bool)
        ensures
            r == self.addable(rhs),
    {
        self.logical.checked_add(rhs.logical).is_some() && self.on_disk.checked_add(
            rhs.on_disk,
        ).is_some() && self.shared.checked_add(rhs.shared).is_some() && self.files.checked_add(
            rhs.files,
        ).is_some() && self.dirs.checked_add(rhs.dirs).is_some()
    }
}

impl Default for Size {
    fn default() -> (r: Size)
        ensures
            r == Size::zero(),
    {
        Size { logical: 0, on_disk: 0, shared: 0, files: 0, dirs: 0, partial: false }
    }
}

impl vstd::std_specs::ops::AddSpecImpl<Size> for Size {
    open spec fn obeys_add_spec() -> bool {
        true
    }

    open spec fn add_req(self, rhs: Size) -> bool {
        self.addable(rhs)
    }

    open spec fn add_spec(self, rhs: Size) -> Size {
        self.sum(rhs)
    }
}

impl std::ops::Add<Size> for Size {
    type Output = Size;

    fn add(self, rhs: Size) -> Size {
        Size {
            logical: self.logical + rhs.logical,
            on_disk: self.on_disk + rhs.on_disk,
            shared: self.shared + rhs.shared,
            files: self.files + rhs.files,
            dirs: self.dirs + rhs.dirs,
            partial: self.partial || rhs.partial,
        }
    }
}

/// Freshness evidence gathered during measurement.
#[derive(Debug, Clone, Copy, PartialEq, Eq, Structural)]
pub struct Signals {
    /// Newest modification anywhere in the artifact tree.
    pub artifact_mtime: Moment,
    /// Newest access, when the filesystem records it usefully.
    pub artifact_atime: Option<Moment>,
    /// Newest modification among the owning project's source files.
    pub source_mtime: Option<Moment>,
    /// Last observed git activity in the owning project.
    pub vcs_activity: Option<Moment>,
    /// Days since the most recent of the above.
    pub last_used_days: u32,
    /// Touched within the last day: a build may be using it right now.
    pub active_now: bool,
}

/// The later of a moment and an optional one.
pub open spec fn later(a: Moment, b: Option<Moment>) -> Moment {
    match b {
        Some(m) => if m > a {
            m
        } else {
            a
        },
        None => a,
    }
}

pub fn later_of(a: Moment, b: Option<Moment>) -> (m: Moment)
    ensures
        m == later(a, b),
{
    match b {
        Some(m) => if m > a {
            m
        } else {
            a
        },
        None => a,
    }
}

impl Signals {
    /// The most recent of all moments.
    pub open spec fn latest(self) -> Moment {
        later(
            later(later(self.artifact_mtime, self.artifact_atime), self.source_mtime),
            self.vcs_activity,
        )
    }

    /// The moment this candidate was last meaningfully used.
    ///
    /// A stale artifact of a project that saw work yesterday is not stale.
    pub fn last_used(&self) -> (m: Moment)
        ensures
            m == self.latest(),
            m >= self.artifact_mtime,
            self.artifact_atime matches Some(t) ==> m >= t,
            self.source_mtime matches Some(t) ==> m >= t,
            self.vcs_activity matches Some(t) ==> m >= t,
            m == self.artifact_mtime || self.artifact_atime == Some(m) || self.source_mtime == Some(
                m,
            ) || self.vcs_activity == Some(m),
    {
        later_of(
            later_of(later_of(self.artifact_mtime, self.artifact_atime), self.source_mtime),
            self.vcs_activity,
        )
    }
}

/// One reclaimable thing, as offered to the user.
#[derive(Debug, Clone, PartialEq)]
pub struct Candidate {
    pub id: CandidateId,
    /// Dotted provider id, e.g. `node.pnpm-store`.
    pub provider: String,
    pub group: Group,
    pub label: String,
    /// Longer explanation shown in the detail pane.
    pub detail: String,
    pub paths: Vec<String>,
    pub kind: Kind,
    pub tier: Tier,
    pub action: Action,
    pub regen: Regen,
    pub warnings: Vec<Warning>,
    /// The project this artifact belongs to.
    pub project: Option<String>,
    /// Filled by the measure stage.
    pub size: Option<Size>,
    /// Filled by the measure stage.
    pub signals: Option<Signals>,
    /// Filled by the score stage: the bits of a score of `0.0..=100.0`, which order as the
    /// scores do.
    pub score: Option<u64>,
}

pub struct CandidateModel {
    pub id: Seq<char>,
    pub provider: Seq<char>,
    pub group: Group,
    pub label: Seq<char>,
    pub detail: Seq<char>,
    pub paths: Seq<Seq<char>>,
    pub kind: Kind,
    pub tier: Tier,
    pub action: ActionModel,
    pub regen: RegenModel,
    pub warnings: Seq<WarningModel>,
    pub project: Option<Seq<char>>,
    pub size: Option<Size>,
    pub signals: Option<Signals>,
    pub score: Option<u64>,
}

impl View for Candidate {
    type V = CandidateModel;

    open spec fn view(&self) -> CandidateModel {
        CandidateModel {
            id: self.id@,
            provider: self.provider@,
            group: self.group,
            label: self.label@,
            detail: self.detail@,
            paths: views(self.paths@),
            kind: self.kind,
            tier: self.tier,
            action: self.action@,
            regen: self.regen@,
            warnings: views(self.warnings@),
            project: option_text(self.project),
            size: self.size,
            signals: self.signals,
            score: self.score,
        }
    }
}

impl Dup for Candidate {
    fn dup(&self) -> (copy: Self) {
        Candidate {
            id: self.id.dup(),
            provider: self.provider.clone(),
            group: self.group,
            label: self.label.clone(),
            detail: self.detail.clone(),
            paths: dup_all(&self.paths),
            kind: self.kind,
            tier: self.tier,
            action: self.action.dup(),
            regen: self.regen.dup(),
            warnings: dup_all(&self.warnings),
            project: dup_option(&self.project),
            size: self.size,
            signals: self.signals,
            score: self.score,
        }
    }
}

impl CandidateModel {
    pub open spec fn freed(self) -> nat {
        match self.size {
            Some(size) => size.on_disk as nat,
            None => 0,
        }
    }

    pub open spec fn age(self) -> Option<u32> {
        match self.signals {
            Some(signals) => Some(signals.last_used_days),
            None => None,
        }
    }

    pub open spec fn active(self) -> bool {
        match self.signals {
            Some(signals) => signals.active_now,
            None => false,
        }
    }

    pub open spec fn primary(self) -> Option<Seq<char>> {
        if self.paths.len() > 0 {
            Some(self.paths[0])
        } else {
            None
        }
    }
}

impl Candidate {
    /// Bytes this candidate would actually free. Zero until measured.
    pub fn reclaimable(&self) -> (n: u64)
        ensures
            n == self@.freed(),
    {
        match self.size {
            Some(size) => size.on_disk,
            None => 0,
        }
    }

    pub fn last_used_days(&self) -> (days: Option<u32>)
        ensures
            days == self@.age(),
    {
        match self.signals {
            Some(signals) => Some(signals.last_used_days),
            None => None,
        }
    }

    pub fn primary_path(&self) -> (path: Option<&str>)
        ensures
            match path {
                Some(p) => self@.primary() == Some(p@),
                None => self@.primary() is None,
            },
    {
        if self.paths.len() > 0 {
            Some(self.paths[0].as_str())
        } else {
            None
        }
    }

    /// The gravest of the warnings.
    pub fn max_severity(&self) -> (worst: Option<Severity>)
        ensures
            self@.has_worst(worst),
    {
        if self.warnings.len() == 0 {
            return None;
        }
        let mut worst = self.warnings[0].severity;
        let mut i: usize = 1;
        assert(self@.warnings[0].severity == worst);
        while i < self.warnings.len()
            invariant
                1 <= i <= self.warnings@.len(),
                exists|k: int| 0 <= k < i && (#[trigger] self@.warnings[k]).severity == worst,
                forall|k: int|
                    0 <= k < i ==> (#[trigger] self@.warnings[k]).severity.rank() <= worst.rank(),
            decreases self.warnings@.len() - i,
        {
            if self.warnings[i].severity.level() > worst.level() {
                worst = self.warnings[i].severity;
            }
            assert(self@.warnings[i as int].severity == self.warnings@[i as int].severity);
            i += 1;
        }
        Some(worst)
    }

    /// A copy carrying measurement results.
    pub fn with_measurement(&self, size: Size, signals: Signals) -> (c: Candidate)
        ensures
            c@ == (CandidateModel { size: Some(size), signals: Some(signals), ..self@ }),
    {
        let mut c = self.dup();
        c.size = Some(size);
        c.signals = Some(signals);
        c
    }

    /// A copy carrying a score.
    pub fn with_score(&self, score: u64) -> (c: Candidate)
        ensures
            c@ == (CandidateModel { score: Some(score), ..self@ }),
    {
        let mut c = self.dup();
        c.score = Some(score);
        c
    }
}

/// A builder so that providers can declare candidates readably.
#[derive(Debug, Clone)]
pub struct CandidateBuilder {
    provider: String,
    group: Group,
    label: String,
    detail: String,
    paths: Vec<String>,
    kind: Kind,
    tier: Tier,
    action: Action,
    regen: Regen,
    warnings: Vec<Warning>,
    project: Option<String>,
}

impl View for CandidateBuilder {
    type V = CandidateModel;

    /// What has been declared so far; the id comes with the finished candidate.
    closed spec fn view(&self) -> CandidateModel {
        CandidateModel {
            id: Seq::empty(),
            provider: self.provider@,
            group: self.group,
            label: self.label@,
            detail: self.detail@,
            paths: views(self.paths@),
            kind: self.kind,
            tier: self.tier,
            action: self.action@,
            regen: self.regen@,
            warnings: views(self.warnings@),
            project: option_text(self.project),
            size: None,
            signals: None,
            score: None,
        }
    }
}

/// A declaration with nothing but its provider, group and label.
pub open spec fn declared(provider: Seq<char>, group: Group, label: Seq<char>) -> CandidateModel {
    CandidateModel {
        id: Seq::empty(),
        provider,
        group,
        label,
        detail: Seq::empty(),
        paths: Seq::empty(),
        kind: Kind::GlobalCache,
        tier: Tier::Safe,
        action: ActionModel::RemovePaths,
        regen: RegenModel::Automatic { on: "next build"@ },
        warnings: Seq::empty(),
        project: None,
        size: None,
        signals: None,
        score: None,
    }
}

/// The candidate of a declaration: its id comes from the first path, or from the provider
/// where there is no path.
pub open spec fn built(c: CandidateModel) -> CandidateModel {
    let primary = match c.primary() {
        Some(p) => p,
        None => c.provider,
    };
    CandidateModel { id: candidate_id(c.provider, primary), ..c }
}

impl CandidateModel {
    /// The gravest of the warnings, or `None` where there are none.
    pub open spec fn has_worst(self, worst: Option<Severity>) -> bool {
        match worst {
            Some(s) => (exists|i: int|
                0 <= i < self.warnings.len() && (#[trigger] self.warnings[i]).severity == s) && (
            forall|i: int|
                0 <= i < self.warnings.len() ==> (#[trigger] self.warnings[i]).severity.rank()
                    <= s.rank()),
            None => self.warnings.len() == 0,
        }
    }

    pub open spec fn with_path(self, path: Seq<char>) -> CandidateModel {
        CandidateModel { paths: self.paths.push(path), ..self }
    }

    pub open spec fn with_warning(self, warning: WarningModel) -> CandidateModel {
        CandidateModel { warnings: self.warnings.push(warning), ..self }
    }
}

impl CandidateBuilder {
    pub fn new(provider: &str, group: Group, label: &str) -> (b: Self)
        ensures
            b@ == declared(provider@, group, label@),
    {
        let b = CandidateBuilder {
            provider: provider.to_owned(),
            group,
            label: label.to_owned(),
            detail: String::new(),
            paths: Vec::new(),
            kind: Kind::GlobalCache,
            tier: Tier::Safe,
            action: Action::RemovePaths,
            regen: Regen::Automatic { on: "next build".to_owned() },
            warnings: Vec::new(),
            project: None,
        };
        assert(b@.paths =~= Seq::empty());
        assert(b@.warnings =~= Seq::empty());
        b
    }

    pub fn detail(self, detail: &str) -> (b: Self)
        ensures
            b@ == (CandidateModel { detail: detail@, ..self@ }),
    {
        let mut b = self;
        b.detail = detail.to_owned();
        b
    }

    pub fn path(self, path: &str) -> (b: Self)
        ensures
            b@ == self@.with_path(path@),
    {
        let mut b = self;
        b.paths.push(path.to_owned());
        b
    }

    pub fn paths(self, paths: Vec<String>) -> (b: Self)
        ensures
            b@ == (CandidateModel { paths: self@.paths + views(paths@), ..self@ }),
    {
        let mut b = self;
        let mut more = paths;
        b.paths.append(&mut more);
        assert(b@.paths =~= self@.paths + views(paths@));
        b
    }

    pub fn kind(self, kind: Kind) -> (b: Self)
        ensures
            b@ == (CandidateModel { kind, ..self@ }),
    {
        let mut b = self;
        b.kind = kind;
        b
    }

    pub fn tier(self, tier: Tier) -> (b: Self)
        ensures
            b@ == (CandidateModel { tier, ..self@ }),
    {
        let mut b = self;
        b.tier = tier;
        b
    }

    pub fn action(self, action: Action) -> (b: Self)
        ensures
            b@ == (CandidateModel { action: action@, ..self@ }),
    {
        let mut b = self;
        b.action = action;
        b
    }

    pub fn regen(self, regen: Regen) -> (b: Self)
        ensures
            b@ == (CandidateModel { regen: regen@, ..self@ }),
    {
        let mut b = self;
        b.regen = regen;
        b
    }

    pub fn warn(self, warning: Warning) -> (b: Self)
        ensures
            b@ == self@.with_warning(warning@),
    {
        let mut b = self;
        b.warnings.push(warning);
        b
    }

    pub fn warn_if(self, condition: bool, warning: Warning) -> (b: Self)
        ensures
            b@ == if condition {
                self@.with_warning(warning@)
            } else {
                self@
            },
    {
        if condition {
            self.warn(warning)
        } else {
            self
        }
    }

    pub fn project(self, project: &str) -> (b: Self)
        ensures
            b@ == (CandidateModel { project: Some(project@), ..self@ }),
    {
        let mut b = self;
        b.project = Some(project.to_owned());
        b
    }

    pub fn build(self) -> (c: Candidate)
        ensures
            c@ == built(self@),
    {
        let id = if self.paths.len() > 0 {
            CandidateId::new(self.provider.as_str(), self.paths[0].as_str())
        } else {
            CandidateId::new(self.provider.as_str(), self.provider.as_str())
        };
        Candidate {
            id,
            provider: self.provider,
            group: self.group,
            label: self.label,
            detail: self.detail,
            paths: self.paths,
            kind: self.kind,
            tier: self.tier,
            action: self.action,
            regen: self.regen,
            warnings: self.warnings,
            project: self.project,
            size: None,
            signals: None,
            score: None,
        }
    }
}

/// A project found by the walk that every provider shares.
#[derive(Debug, Clone, PartialEq, Eq)]
pub struct ProjectRoot {
    pub path: String,
    /// Marker file names found in this directory, e.g. `package.json`.
    pub markers: Vec<String>,
}

pub struct ProjectModel {
    pub path: Seq<char>,
    pub markers: Seq<Seq<char>>,
}

impl View for ProjectRoot {
    type V = ProjectModel;

    open spec fn view(&self) -> ProjectModel {
        ProjectModel { path: self.path@, markers: views(self.markers@) }
    }
}

impl Dup for ProjectRoot {
    fn dup(&self) -> (copy: Self) {
        ProjectRoot { path: self.path.clone(), markers: dup_all(&self.markers) }
    }
}

impl ProjectModel {
    pub open spec fn marked(self, name: Seq<char>) -> bool {
        self.markers.contains(name)
    }

    pub open spec fn marked_any(self, names: Seq<Seq<char>>) -> bool {
        exists|i: int| 0 <= i < names.len() && self.marked(#[trigger] names[i])
    }
}

impl ProjectRoot {
    pub fn has_marker(&self, name: &str) -> (r: bool)
        ensures
            r == self@.marked(name@),
    {
        contains_text(&self.markers, name)
    }

    pub fn has_any_marker(&self, names: &[&str]) -> (r: bool)
        ensures
            r == self@.marked_any(views(names@)),
    {
        let mut i: usize = 0;
        while i < names.len()
            invariant
                i <= names@.len(),
                forall|k: int| 0 <= k < i ==> !self@.marked(#[trigger] views(names@)[k]),
            decreases names@.len() - i,
        {
            if self.has_marker(names[i]) {
                assert(self@.marked(views(names@)[i as int]));
                return true;
            }
            i += 1;
        }
        false
    }
}

/// How long ago, as a coarse human phrase.
pub open spec fn age_phrase(days: nat) -> Seq<char> {
    if days == 0 {
        "today"@
    } else if days == 1 {
        "yesterday"@
    } else if days < 14 {
        decimal(days) + " days ago"@
    } else if days < 60 {
        decimal(days / 7) + " weeks ago"@
    } else if days < 730 {
        decimal(days / 30) + " months ago"@
    } else {
        decimal(days / 365) + " years ago"@
    }
}

/// How long ago, as a coarse human phrase ("4 months ago").
pub fn humanize_age(days: u32) -> (s: String)
    ensures
        s@ == age_phrase(days as nat),
{
    if days == 0 {
        "today".to_owned()
    } else if days == 1 {
        "yesterday".to_owned()
    } else if days < 14 {
        decimal_text(days as u128).concat(" days ago")
    } else if days < 60 {
        decimal_text((days / 7) as u128).concat(" weeks ago")
    } else if days < 730 {
        decimal_text((days / 30) as u128).concat(" months ago")
    } else {
        decimal_text((days / 365) as u128).concat(" years ago")
    }
}

/// Whole seconds from `then` to `now`, none for a moment in the future.
pub open spec fn elapsed_seconds(then: Moment, now: Moment) -> nat {
    if now > then {
        ((now - then) / NANOS_PER_SECOND as int) as nat
    } else {
        0
    }
}

/// Whole seconds from `then` to `now`, at most `u64::MAX`.
pub fn seconds_between(then: Moment, now: Moment) -> (n: u64)
    ensures
        n == if elapsed_seconds(then, now) <= u64::MAX {
            elapsed_seconds(then, now)
        } else {
            u64::MAX as nat
        },
{
    if now <= then {
        return 0;
    }
    match now.checked_sub(then) {
        Some(nanos) => {
            let secs: i128 = nanos / NANOS_PER_SECOND;
            if secs > u64::MAX as i128 {
                u64::MAX
            } else {
                secs as u64
            }
        },
        None => u64::MAX,
    }
}

/// Whole days from `then` to `now`, none for a moment in the future, at most `u32::MAX`.
pub open spec fn days_between(then: Moment, now: Moment) -> nat {
    let days = elapsed_seconds(then, now) / SECONDS_PER_DAY as nat;
    if days <= u32::MAX {
        days
    } else {
        u32::MAX as nat
    }
}

/// Days from `then` to `now`, none for a moment in the future.
pub fn days_since(then: Moment, now: Moment) -> (days: u32)
    ensures
        days == days_between(then, now),
{
    let seconds: u64 = seconds_between(then, now);
    let days: u64 = seconds / SECONDS_PER_DAY;
    assert(elapsed_seconds(then, now) > u64::MAX ==> elapsed_seconds(then, now) / 86_400 > u32::MAX);
    assert(elapsed_seconds(then, now) / (SECONDS_PER_DAY as nat) == elapsed_seconds(then, now) / 86_400);
    if days > u32::MAX as u64 {
        u32::MAX
    } else {
        days as u32
    }
}

/// Adding sizes keeps every figure no smaller, and a partial part makes the sum partial, so
/// that a total never claims to be exact when a part of it is not.
pub proof fn partial_sizes_stay_partial(a: Size, b: Size)
    requires
        a.addable(b),
    ensures
        a.sum(b).partial == (a.partial || b.partial),
        a.sum(b).on_disk == a.on_disk + b.on_disk,
        a.sum(b) == b.sum(a),
        a.sum(Size::zero()) == a,
{
}

/// A candidate that was never measured claims no space.
pub proof fn unmeasured_candidates_claim_nothing(c: CandidateModel)
    requires
        c.size is None,
    ensures
        built(c).freed() == 0,
{
}

/// The tiers rise from safe over review to caution.
pub proof fn caution_is_the_riskiest_tier(tier: Tier)
    ensures
        Tier::Safe.risk() < Tier::Review.risk() < Tier::Caution.risk(),
        Tier::Safe.risk() <= tier.risk() <= Tier::Caution.risk(),
        Tier::Safe.name() == "safe"@ && Tier::Review.name() == "review"@ && Tier::Caution.name()
            == "caution"@,
        Severity::Info.rank() < Severity::Caution.rank() < Severity::Danger.rank(),
{
}

/// What was last used is the latest of all that is known of it.
pub proof fn the_last_use_is_the_latest(s: Signals)
    ensures
        s.latest() >= s.artifact_mtime,
        s.artifact_atime matches Some(t) ==> s.latest() >= t,
        s.source_mtime matches Some(t) ==> s.latest() >= t,
        s.vcs_activity matches Some(t) ==> s.latest() >= t,
        s.latest() == s.artifact_mtime || s.artifact_atime == Some(s.latest()) || s.source_mtime
            == Some(s.latest()) || s.vcs_activity == Some(s.latest()),
{
}

/// A candidate frees what it holds on disk, has the age and the activity of its signals, and nothing
/// of these before it is measured.
pub proof fn a_candidate_tells_its_measurement(c: CandidateModel)
    ensures
        c.size matches Some(size) ==> c.freed() == size.on_disk,
        c.size is None ==> c.freed() == 0,
        c.signals matches Some(s) ==> c.age() == Some(s.last_used_days) && c.active()
            == s.active_now,
        c.signals is None ==> c.age() is None && !c.active(),
{
}

/// The id of a candidate comes from its provider and its first path alone, and names the provider;
/// building a candidate changes nothing else of it.
pub proof fn an_id_comes_from_provider_and_path(a: CandidateModel, b: CandidateModel)
    ensures
        a.provider == b.provider && a.paths.len() > 0 && b.paths.len() > 0 && a.paths[0]
            == b.paths[0] ==> built(a).id == built(b).id,
        a.paths.len() > 0 ==> built(a).id == candidate_id(a.provider, a.paths[0]),
        a.paths.len() == 0 ==> built(a).id == candidate_id(a.provider, a.provider),
        has_prefix(built(a).id, a.provider + ":"@),
        built(a) == (CandidateModel { id: built(a).id, ..a }),
{
    let id = built(a).id;
    let primary = if a.paths.len() > 0 {
        a.paths[0]
    } else {
        a.provider
    };
    let name = a.provider + ":"@;
    assert(id == name + hex(fnv1a(vstd::utf8::encode_utf8(primary)) as nat, 16));
    assert(id.take(name.len() as int) =~= name);
}

/// An age is told in the largest unit that fits it: today and yesterday, days up to two weeks, weeks
/// up to sixty days, months up to two years, and years from then on.
pub proof fn an_age_is_told_in_its_unit(days: nat)
    ensures
        age_phrase(0) == "today"@ && age_phrase(1) == "yesterday"@,
        2 <= days < 14 ==> age_phrase(days) == decimal(days) + " days ago"@,
        14 <= days < 60 ==> age_phrase(days) == decimal(days / 7) + " weeks ago"@,
        60 <= days < 730 ==> age_phrase(days) == decimal(days / 30) + " months ago"@,
        730 <= days ==> age_phrase(days) == decimal(days / 365) + " years ago"@,
{
}

/// The hash of a path starts from the offset of FNV-1a, and each byte is mixed in and multiplied
/// by its prime.
pub proof fn every_byte_goes_into_the_hash(bytes: Seq<u8>, byte: u8)
    ensures
        fnv1a(Seq::empty()) == 14_695_981_039_346_656_037u64,
        fnv1a(bytes.push(byte)) == (fnv1a(bytes) ^ (byte as u64)).wrapping_mul(1_099_511_628_211u64),
{
    assert(bytes.push(byte).drop_last() =~= bytes);
}

/// What it takes to have something again is told by what brings it back.
pub proof fn what_comes_back_says_how(on: Seq<char>, source: Seq<char>, bytes: u64, minutes: u32)
    ensures
        (RegenModel::Automatic { on }).phrase() == "auto on "@ + on,
        (RegenModel::Download { bytes: None, source }).phrase() == "re-download from "@ + source,
        (RegenModel::Download { bytes: Some(bytes), source }).phrase() == bytes_spec(bytes as nat)
            + " from "@ + source,
        (RegenModel::Rebuild { minutes }).phrase() == "~"@ + decimal(minutes as nat)
            + " min rebuild"@,
        RegenModel::Never.phrase() == "gone forever"@,
{
}

} // verus!
