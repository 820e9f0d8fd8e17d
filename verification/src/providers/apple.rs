//! Apple: Xcode derived data, device support, archives, simulators, SwiftPM, CocoaPods.
//!
//! These are the biggest wins on a macOS developer machine, and among them is the most dangerous
//! item of all: Xcode archives hold the dSYMs needed to symbolicate crash reports of shipped
//! builds, and they exist nowhere else.
use vstd::prelude::*;
use vstd::string::*;
use crate::model::{
    Candidate, CandidateBuilder, CandidateModel, Group, ProjectModel, ProjectRoot, Regen,
    RegenModel, Tier, Warning,
};
use crate::path::{join, join_path};
use crate::pipeline::{Provider, ScanContext, discover};
use crate::platform::Os;
use crate::providers::AnyProvider;
use crate::providers::support::{
    ProjectOffers, SubdirOffers, addition, artifact, artifacts_in_projects, auto_on, automatic,
    cache, caution, danger, download, each_subdir, given, global_cache, info, lockfile_warning,
    no_lockfile_warning, nothing, offer, offer_all, offers_in_all, offers_of_all,
    project_artifact, rebuild, redownload, shell, start,
};
use crate::text::{chars_of, decimal, decimal_text, slice_text, views};

verus! {

pub struct XcodeArtifacts;

/// Intermediate build products of every project that was opened.
pub open spec fn derived_data_offer(ctx: &ScanContext, developer: Seq<char>) -> Seq<
    CandidateModel,
> {
    let path = join(developer, "Xcode/DerivedData"@);
    given(
        ctx.disk@.present(path),
        cache("apple.derived-data"@, Group::Apple, "Xcode DerivedData"@, path).detailed(
            "Intermediate build products, indexes and module caches for every project you have opened."@,
        ).returning(rebuild(6)).with_warning(
            info("Xcode rebuilds this on the next build; the first build afterwards is slow."@),
        ),
    )
}

fn derived_data(ctx: &ScanContext, developer: &str) -> (found: Option<Candidate>)
    ensures
        addition(found) == derived_data_offer(ctx, developer@),
{
    let path = join_path(developer, "Xcode/DerivedData");
    match global_cache(
        ctx,
        "apple.derived-data",
        Group::Apple,
        "Xcode DerivedData",
        path.as_str(),
    ) {
        Some(c) => Some(
            c.detail(
                "Intermediate build products, indexes and module caches for every project you have opened.",
            ).regen(Regen::Rebuild { minutes: 6 }).warn(
                Warning::info(
                    "Xcode rebuilds this on the next build; the first build afterwards is slow.",
                ),
            ).build(),
        ),
        None => None,
    }
}

/// Symbol data of one platform, copied off each device the first time it is connected: big, and
/// awkward to get back.
pub open spec fn device_support_offer(
    ctx: &ScanContext,
    developer: Seq<char>,
    platform: Seq<char>,
) -> Seq<CandidateModel> {
    let path = join(developer, "Xcode/"@ + platform + " DeviceSupport"@);
    given(
        ctx.disk@.is_dir(path),
        cache("apple.device-support"@, Group::Apple, platform + " DeviceSupport"@, path).detailed(
            "Symbol data for "@ + decimal(ctx.disk@.children(path).len()) + " "@ + platform
                + " version(s), copied from devices you have connected."@,
        ).tiered(Tier::Review).returning(rebuild(10)).with_warning(
            caution(
                "Regenerated only when a device running that OS version is next connected, which is slow and needs the physical device."@,
            ),
        ),
    )
}

fn device_support(ctx: &ScanContext, developer: &str, platform: &str) -> (found: Option<Candidate>)
    ensures
        addition(found) == device_support_offer(ctx, developer@, platform@),
{
    let folder = "Xcode/".to_owned().concat(platform).concat(" DeviceSupport");
    let path = join_path(developer, folder.as_str());
    if !ctx.disk.is_dir(path.as_str()) {
        return None;
    }
    let versions: usize = ctx.disk.count_entries(path.as_str());
    let label = platform.to_owned().concat(" DeviceSupport");
    let detail = "Symbol data for ".to_owned().concat(
        decimal_text(versions as u128).as_str(),
    ).concat(" ").concat(platform).concat(" version(s), copied from devices you have connected.");
    Some(
        CandidateBuilder::new("apple.device-support", Group::Apple, label.as_str()).path(
            path.as_str(),
        ).detail(detail.as_str()).tier(Tier::Review).regen(Regen::Rebuild { minutes: 10 }).warn(
            Warning::caution(
                "Regenerated only when a device running that OS version is next connected, which is slow and needs the physical device.",
            ),
        ).build(),
    )
}

/// Archived builds: the one genuinely irreplaceable item among these.
pub open spec fn archives_offer(ctx: &ScanContext, developer: Seq<char>) -> Seq<CandidateModel> {
    let path = join(developer, "Xcode/Archives"@);
    given(
        ctx.disk@.is_dir(path),
        cache("apple.archives"@, Group::Apple, "Xcode Archives"@, path).detailed(
            "Archived builds, including the dSYM symbol files for releases you have shipped."@,
        ).tiered(Tier::Caution).returning(RegenModel::Never).with_warning(
            danger(
                "Contains "@ + decimal(ctx.disk@.subdir_names(path).len())
                    + " archive group(s) with the dSYMs needed to symbolicate crash reports from shipped builds. These cannot be regenerated from source."@,
            ),
        ),
    )
}

fn archives(ctx: &ScanContext, developer: &str) -> (found: Option<Candidate>)
    ensures
        addition(found) == archives_offer(ctx, developer@),
{
    let path = join_path(developer, "Xcode/Archives");
    if !ctx.disk.is_dir(path.as_str()) {
        return None;
    }
    let groups = ctx.disk.subdirs(path.as_str());
    assert(views(groups@).len() == groups@.len());
    let warning = "Contains ".to_owned().concat(
        decimal_text(groups.len() as u128).as_str(),
    ).concat(
        " archive group(s) with the dSYMs needed to symbolicate crash reports from shipped builds. These cannot be regenerated from source.",
    );
    Some(
        CandidateBuilder::new("apple.archives", Group::Apple, "Xcode Archives").path(
            path.as_str(),
        ).detail(
            "Archived builds, including the dSYM symbol files for releases you have shipped.",
        ).tier(Tier::Caution).regen(Regen::Never).warn(Warning::danger(warning.as_str())).build(),
    )
}

/// A scratch cache that the next build fills again.
pub open spec fn scratch_offer(
    ctx: &ScanContext,
    id: Seq<char>,
    label: Seq<char>,
    path: Seq<char>,
    detail: Seq<char>,
) -> Seq<CandidateModel> {
    given(ctx.disk@.present(path), cache(id, Group::Apple, label, path)
        .detailed(detail)
        .returning(auto_on("the next build"@)))
}

fn scratch(
    ctx: &ScanContext,
    id: &str,
    label: &str,
    path: &str,
    detail: &str,
) -> (found: Option<Candidate>)
    ensures
        addition(found) == scratch_offer(ctx, id@, label@, path@, detail@),
{
    match global_cache(ctx, id, Group::Apple, label, path) {
        Some(c) => Some(c
            .detail(detail)
            .regen(automatic("the next build")).build()),
        None => None,
    }
}

/// Downloaded pods.
pub open spec fn pods_cache_offer(ctx: &ScanContext) -> Seq<CandidateModel> {
    let path = join(ctx.paths@.cache_dir, "CocoaPods"@);
    given(
        ctx.disk@.present(path),
        cache(
            "apple.cocoapods-cache"@,
            Group::Apple,
            "CocoaPods cache"@,
            path,
        ).returning(download("the CocoaPods CDN"@)),
    )
}

fn pods_cache(ctx: &ScanContext) -> (found: Option<Candidate>)
    ensures
        addition(found) == pods_cache_offer(ctx),
{
    let path = join_path(ctx.paths.cache_dir().as_str(), "CocoaPods");
    match global_cache(
        ctx,
        "apple.cocoapods-cache",
        Group::Apple,
        "CocoaPods cache",
        path.as_str(),
    ) {
        Some(c) => Some(c.regen(redownload("the CocoaPods CDN")).build()),
        None => None,
    }
}

/// One backup of a device: personal data rather than a build artifact, so each is offered on its
/// own.
pub struct DeviceBackup;

/// The first characters of a name.
pub open spec fn shortened(name: Seq<char>) -> Seq<char> {
    if name.len() <= 12 {
        name
    } else {
        name.take(12)
    }
}

impl SubdirOffers for DeviceBackup {
    open spec fn offer_of(&self, ctx: &ScanContext, dir: Seq<char>, name: Seq<char>) -> Seq<
        CandidateModel,
    > {
        given(
            true,
            cache(
                "apple.device-backup"@,
                Group::Apple,
                "iPhone/iPad backup "@ + shortened(name) + "…"@,
                join(dir, name),
            ).detailed(
                "A full local backup of an iOS device: photos, messages and app data."@,
            ).tiered(Tier::Caution).returning(RegenModel::Never).with_warning(
                danger(
                    "This is your device's data, not a cache. If the device is gone or was never backed up elsewhere, deleting this loses it permanently. Prefer Finder → Manage Backups so you can see which device each one belongs to."@,
                ),
            ),
        )
    }

    fn build(&self, ctx: &ScanContext, dir: &str, name: &str) -> (found: Option<Candidate>) {
        let chars = chars_of(name);
        let shown: usize = if chars.len() <= 12 {
            chars.len()
        } else {
            12
        };
        let short = slice_text(&chars, 0, shown);
        assert(short@ =~= shortened(name@));
        let label = "iPhone/iPad backup ".to_owned().concat(short.as_str()).concat("…");
        Some(
            CandidateBuilder::new("apple.device-backup", Group::Apple, label.as_str()).path(
                join_path(dir, name).as_str(),
            ).detail("A full local backup of an iOS device: photos, messages and app data.").tier(
                Tier::Caution,
            ).regen(Regen::Never).warn(
                Warning::danger(
                    "This is your device's data, not a cache. If the device is gone or was never backed up elsewhere, deleting this loses it permanently. Prefer Finder → Manage Backups so you can see which device each one belongs to.",
                ),
            ).build(),
        )
    }
}

/// The backups of all devices.
pub open spec fn backups_offer(ctx: &ScanContext) -> Seq<CandidateModel> {
    let dir = join(ctx.paths@.home, "Library/Application Support/MobileSync/Backup"@);
    if ctx.disk@.is_dir(dir) {
        offers_of_all(&DeviceBackup, ctx, dir, ctx.disk@.subdir_names(dir))
    } else {
        nothing()
    }
}

fn backups(ctx: &ScanContext) -> (found: Vec<Candidate>)
    ensures
        views(found@) == backups_offer(ctx),
{
    let dir = ctx.paths.home_join("Library/Application Support/MobileSync/Backup");
    if ctx.disk.is_dir(dir.as_str()) {
        each_subdir(ctx, dir.as_str(), &DeviceBackup)
    } else {
        start()
    }
}

impl Provider for XcodeArtifacts {
    open spec fn name(&self) -> Seq<char> {
        "apple.xcode"@
    }

    open spec fn marks(&self) -> Seq<Seq<char>> {
        Seq::empty()
    }

    open spec fn offers(&self, ctx: &ScanContext) -> Seq<CandidateModel> {
        if ctx.paths@.os == Os::MacOs {
            let developer = join(ctx.paths@.home, "Library/Developer"@);
            nothing()
                + derived_data_offer(ctx, developer)
                + device_support_offer(ctx, developer, "iOS"@)
                + device_support_offer(ctx, developer, "watchOS"@)
                + device_support_offer(ctx, developer, "tvOS"@)
                + device_support_offer(ctx, developer, "visionOS"@)
                + archives_offer(ctx, developer)
                + scratch_offer(
                    ctx,
                    "apple.swiftpm-cache"@,
                    "SwiftPM cache"@,
                    join(ctx.paths@.cache_dir, "org.swift.swiftpm"@),
                    "Cloned and resolved Swift package dependencies."@,
                )
                + scratch_offer(
                    ctx,
                    "apple.xcode-caches"@,
                    "Xcode caches"@,
                    join(ctx.paths@.cache_dir, "com.apple.dt.Xcode"@),
                    "Xcode's own scratch caches."@,
                )
                + scratch_offer(
                    ctx,
                    "apple.simulator-caches"@,
                    "Simulator caches"@,
                    join(ctx.paths@.home, "Library/Developer/CoreSimulator/Caches"@),
                    "Simulator runtime scratch data."@,
                )
                + pods_cache_offer(ctx)
                + backups_offer(ctx)
        } else {
            nothing()
        }
    }

    fn id(&self) -> (s: &'static str) {
        "apple.xcode"
    }

    fn markers(&self) -> (v: Vec<&'static str>) {
        let v: Vec<&'static str> = Vec::new();
        assert(views(v@) =~= Seq::empty());
        v
    }

    fn discover(&self, ctx: &ScanContext) -> (out: Vec<Candidate>) {
        let developer = match ctx.paths.xcode_dir() {
            Some(dir) => dir,
            None => return start(),
        };
        let developer = developer.as_str();
        let mut out = start();
        offer(&mut out, derived_data(ctx, developer));
        offer(&mut out, device_support(ctx, developer, "iOS"));
        offer(&mut out, device_support(ctx, developer, "watchOS"));
        offer(&mut out, device_support(ctx, developer, "tvOS"));
        offer(&mut out, device_support(ctx, developer, "visionOS"));
        offer(&mut out, archives(ctx, developer));
        offer(
            &mut out,
            scratch(
                ctx,
                "apple.swiftpm-cache",
                "SwiftPM cache",
                join_path(ctx.paths.cache_dir().as_str(), "org.swift.swiftpm").as_str(),
                "Cloned and resolved Swift package dependencies.",
            ),
        );
        offer(
            &mut out,
            scratch(
                ctx,
                "apple.xcode-caches",
                "Xcode caches",
                join_path(ctx.paths.cache_dir().as_str(), "com.apple.dt.Xcode").as_str(),
                "Xcode's own scratch caches.",
            ),
        );
        offer(
            &mut out,
            scratch(
                ctx,
                "apple.simulator-caches",
                "Simulator caches",
                ctx.paths.home_join("Library/Developer/CoreSimulator/Caches").as_str(),
                "Simulator runtime scratch data.",
            ),
        );
        offer(&mut out, pods_cache(ctx));
        offer_all(&mut out, backups(ctx));
        out
    }
}

pub struct SimulatorRuntimes;

/// Devices whose runtime is gone: removing them can break no working setup.
pub open spec fn unavailable_offer(ctx: &ScanContext) -> Seq<CandidateModel> {
    given(
        true,
        cache(
            "apple.simulators"@,
            Group::Apple,
            "Unavailable simulator devices"@,
            join(ctx.paths@.home, "Library/Developer/CoreSimulator/Devices"@),
        ).detailed(
            "Simulator devices whose runtime is no longer installed. `simctl delete unavailable` removes exactly these and nothing else."@,
        ).running("xcrun"@, seq!["simctl"@, "delete"@, "unavailable"@]).returning(
            auto_on("recreating a simulator"@),
        ).with_warning(
            info(
                "Only removes devices whose runtime is already gone; working simulators are untouched."@,
            ),
        ),
    )
}

fn unavailable(ctx: &ScanContext) -> (found: Option<Candidate>)
    ensures
        addition(found) == unavailable_offer(ctx),
{
    let path = ctx.paths.home_join("Library/Developer/CoreSimulator/Devices");
    let args = ["simctl", "delete", "unavailable"];
    assert(views(args@) =~= seq!["simctl"@, "delete"@, "unavailable"@]);
    Some(
        CandidateBuilder::new(
            "apple.simulators",
            Group::Apple,
            "Unavailable simulator devices",
        ).path(path.as_str()).detail(
            "Simulator devices whose runtime is no longer installed. `simctl delete unavailable` removes exactly these and nothing else.",
        ).action(shell("xcrun", &args)).tier(Tier::Safe).regen(
            automatic("recreating a simulator"),
        ).warn(
            Warning::info(
                "Only removes devices whose runtime is already gone; working simulators are untouched.",
            ),
        ).build(),
    )
}

/// All devices: each holds installed apps and their data, real state that may be in use.
pub open spec fn simulators_offer(ctx: &ScanContext) -> Seq<CandidateModel> {
    let path = join(ctx.paths@.home, "Library/Developer/CoreSimulator/Devices"@);
    given(
        ctx.disk@.is_dir(path),
        cache("apple.simulator-devices"@, Group::Apple, "All simulator devices"@, path).detailed(
            decimal(ctx.disk@.subdir_names(path).len())
                + " simulator device(s), including installed apps and their data."@,
        ).tiered(Tier::Caution).returning(rebuild(5)).with_warning(
            danger(
                "Deletes app data, logins and databases inside every simulator, not just the stale ones."@,
            ),
        ),
    )
}

fn simulators(ctx: &ScanContext) -> (found: Option<Candidate>)
    ensures
        addition(found) == simulators_offer(ctx),
{
    let path = ctx.paths.home_join("Library/Developer/CoreSimulator/Devices");
    if !ctx.disk.is_dir(path.as_str()) {
        return None;
    }
    let devices = ctx.disk.subdirs(path.as_str());
    assert(views(devices@).len() == devices@.len());
    let detail = decimal_text(devices.len() as u128).concat(
        " simulator device(s), including installed apps and their data.",
    );
    Some(
        CandidateBuilder::new(
            "apple.simulator-devices",
            Group::Apple,
            "All simulator devices",
        ).path(path.as_str()).detail(detail.as_str()).tier(Tier::Caution).regen(
            Regen::Rebuild { minutes: 5 },
        ).warn(
            Warning::danger(
                "Deletes app data, logins and databases inside every simulator, not just the stale ones.",
            ),
        ).build(),
    )
}

impl Provider for SimulatorRuntimes {
    open spec fn name(&self) -> Seq<char> {
        "apple.simulators"@
    }

    open spec fn marks(&self) -> Seq<Seq<char>> {
        Seq::empty()
    }

    open spec fn offers(&self, ctx: &ScanContext) -> Seq<CandidateModel> {
        if ctx.paths@.os == Os::MacOs && ctx.disk@.commands.contains("xcrun"@) {
            nothing() + unavailable_offer(ctx) + simulators_offer(ctx)
        } else {
            nothing()
        }
    }

    fn id(&self) -> (s: &'static str) {
        "apple.simulators"
    }

    fn markers(&self) -> (v: Vec<&'static str>) {
        let v: Vec<&'static str> = Vec::new();
        assert(views(v@) =~= Seq::empty());
        v
    }

    fn discover(&self, ctx: &ScanContext) -> (out: Vec<Candidate>) {
        let is_mac = match ctx.paths.os() {
            Os::MacOs => true,
            _ => false,
        };
        let mut out = start();
        if !is_mac || !ctx.disk.has_command("xcrun") {
            return out;
        }
        offer(&mut out, unavailable(ctx));
        offer(&mut out, simulators(ctx));
        out
    }
}

pub struct CocoaPods;

/// Installed pods: reproducible only where the project has a lockfile.
pub open spec fn pods_offer(ctx: &ScanContext, at: Seq<char>, locked: bool) -> Seq<CandidateModel> {
    let path = join(at, "Pods"@);
    given(ctx.disk@.is_dir(path), artifact("apple.pods"@, Group::Apple, "Pods/"@, at, path)
        .detailed("Installed CocoaPods dependencies."@)
        .tiered(if locked { Tier::Safe } else { Tier::Caution })
        .returning(if locked { download("the CocoaPods CDN"@) } else { RegenModel::Never })
        .warned_if(!locked, lockfile_warning("pod install"@)))
}

fn pods(ctx: &ScanContext, at: &str, locked: bool) -> (found: Option<Candidate>)
    ensures
        addition(found) == pods_offer(ctx, at@, locked),
{
    let path = join_path(at, "Pods");
    match project_artifact(ctx, "apple.pods", Group::Apple, "Pods/", at, path.as_str()) {
        Some(c) => Some(c
            .detail("Installed CocoaPods dependencies.")
            .tier(if locked { Tier::Safe } else { Tier::Caution })
            .regen(if locked { redownload("the CocoaPods CDN") } else { Regen::Never })
            .warn_if(!locked, no_lockfile_warning("pod install")).build()),
        None => None,
    }
}

/// Build output of the project.
pub open spec fn build_output_offer(
    ctx: &ScanContext,
    at: Seq<char>,
    dir: Seq<char>,
    label: Seq<char>,
) -> Seq<CandidateModel> {
    let path = join(at, dir);
    given(
        ctx.disk@.is_dir(path),
        artifact("apple.project-build"@, Group::Apple, label, at, path).returning(rebuild(4)),
    )
}

fn build_output(ctx: &ScanContext, at: &str, dir: &str, label: &str) -> (found: Option<Candidate>)
    ensures
        addition(found) == build_output_offer(ctx, at@, dir@, label@),
{
    let path = join_path(at, dir);
    match project_artifact(ctx, "apple.project-build", Group::Apple, label, at, path.as_str()) {
        Some(c) => Some(c.regen(Regen::Rebuild { minutes: 4 }).build()),
        None => None,
    }
}

impl ProjectOffers for CocoaPods {
    open spec fn offers_in(&self, ctx: &ScanContext, project: ProjectModel) -> Seq<CandidateModel> {
        let at = project.path;
        let locked = ctx.disk@.is_file(join(at, "Podfile.lock"@));
        nothing()
            + (if project.marked("Podfile"@) {
                pods_offer(ctx, at, locked)
            } else {
                nothing()
            })
            + build_output_offer(ctx, at, "Carthage/Build"@, "Carthage build output"@)
            + build_output_offer(ctx, at, ".build"@, "SwiftPM build output"@)
            + build_output_offer(ctx, at, "DerivedData"@, "project DerivedData"@)
    }

    fn build(&self, ctx: &ScanContext, project: &ProjectRoot) -> (out: Vec<Candidate>) {
        let at = project.path.as_str();
        let mut out = start();
        if project.has_marker("Podfile") {
            let locked = ctx.disk.is_file(join_path(at, "Podfile.lock").as_str());
            offer(&mut out, pods(ctx, at, locked));
        } else {
            assert(nothing() + nothing() =~= nothing());
        }
        offer(&mut out, build_output(ctx, at, "Carthage/Build", "Carthage build output"));
        offer(&mut out, build_output(ctx, at, ".build", "SwiftPM build output"));
        offer(&mut out, build_output(ctx, at, "DerivedData", "project DerivedData"));
        out
    }
}

impl Provider for CocoaPods {
    open spec fn name(&self) -> Seq<char> {
        "apple.pods"@
    }

    open spec fn marks(&self) -> Seq<Seq<char>> {
        seq!["Podfile"@, "Package.swift"@, "Cartfile"@]
    }

    open spec fn offers(&self, ctx: &ScanContext) -> Seq<CandidateModel> {
        offers_in_all(self, ctx, ctx.marked(seq!["Podfile"@, "Package.swift"@, "Cartfile"@]))
    }

    fn id(&self) -> (s: &'static str) {
        "apple.pods"
    }

    fn markers(&self) -> (v: Vec<&'static str>) {
        let v = vec!["Podfile", "Package.swift", "Cartfile"];
        assert(views(v@) =~= seq!["Podfile"@, "Package.swift"@, "Cartfile"@]);
        v
    }

    fn discover(&self, ctx: &ScanContext) -> (out: Vec<Candidate>) {
        let markers = ["Podfile", "Package.swift", "Cartfile"];
        assert(views(markers@) =~= seq!["Podfile"@, "Package.swift"@, "Cartfile"@]);
        artifacts_in_projects(ctx, &markers, self)
    }
}

/// The providers of this module.
pub fn providers() -> (v: Vec<AnyProvider>)
    ensures
        v@ == seq![
            AnyProvider::XcodeArtifacts(XcodeArtifacts),
            AnyProvider::SimulatorRuntimes(SimulatorRuntimes),
            AnyProvider::CocoaPods(CocoaPods),
        ],
{
    let v = vec![
        AnyProvider::XcodeArtifacts(XcodeArtifacts),
        AnyProvider::SimulatorRuntimes(SimulatorRuntimes),
        AnyProvider::CocoaPods(CocoaPods),
    ];
    assert(
        v@ =~= seq![
            AnyProvider::XcodeArtifacts(XcodeArtifacts),
            AnyProvider::SimulatorRuntimes(SimulatorRuntimes),
            AnyProvider::CocoaPods(CocoaPods),
        ]
    );
    v
}

} // verus!
