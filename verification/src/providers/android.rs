//! Android: SDK system images, AVDs, NDK versions and build caches.
use vstd::prelude::*;
use vstd::string::*;
use crate::model::{Candidate, CandidateBuilder, CandidateModel, Group, Regen, Tier, Warning};
use crate::path::{extension, extension_of, join, join_path, stem, stem_of};
use crate::pipeline::{Provider, ScanContext, discover};
use crate::providers::AnyProvider;
use crate::providers::support::{
    SubdirOffers, addition, auto_on, automatic, cache, caution, danger, download, each_subdir,
    given, global_cache, nothing, offer, offer_all, offers_of_all, rebuild, redownload, start,
};
use crate::text::{same, views};

verus! {

pub struct AndroidSdk;

/// The system image of one API level, among the biggest items of an SDK.
pub struct SystemImage;

impl SubdirOffers for SystemImage {
    open spec fn offer_of(&self, ctx: &ScanContext, dir: Seq<char>, name: Seq<char>) -> Seq<
        CandidateModel,
    > {
        given(
            true,
            cache(
                "android.system-image"@,
                Group::Android,
                "system image: "@ + name,
                join(dir, name),
            ).detailed("Emulator system image for one API level."@).tiered(Tier::Review).returning(
                download("the Android SDK Manager"@),
            ).with_warning(
                caution(
                    "Any AVD using this image will not start until the image is reinstalled."@,
                ),
            ),
        )
    }

    fn build(&self, ctx: &ScanContext, dir: &str, name: &str) -> (found: Option<Candidate>) {
        let label = "system image: ".to_owned().concat(name);
        Some(
            CandidateBuilder::new("android.system-image", Group::Android, label.as_str()).path(
                join_path(dir, name).as_str(),
            ).detail("Emulator system image for one API level.").tier(Tier::Review).regen(
                redownload("the Android SDK Manager"),
            ).warn(
                Warning::caution(
                    "Any AVD using this image will not start until the image is reinstalled.",
                ),
            ).build(),
        )
    }
}

/// One version of the NDK.
pub struct NdkVersion;

impl SubdirOffers for NdkVersion {
    open spec fn offer_of(&self, ctx: &ScanContext, dir: Seq<char>, name: Seq<char>) -> Seq<
        CandidateModel,
    > {
        given(
            true,
            cache("android.ndk"@, Group::Android, "NDK "@ + name, join(dir, name)).tiered(
                Tier::Review,
            ).returning(download("the Android SDK Manager"@)).with_warning(
                caution(
                    "A project pinning NDK "@ + name
                        + " in its Gradle config will fail to build until it is reinstalled."@,
                ),
            ),
        )
    }

    fn build(&self, ctx: &ScanContext, dir: &str, name: &str) -> (found: Option<Candidate>) {
        let label = "NDK ".to_owned().concat(name);
        let warning = "A project pinning NDK ".to_owned().concat(name).concat(
            " in its Gradle config will fail to build until it is reinstalled.",
        );
        Some(
            CandidateBuilder::new("android.ndk", Group::Android, label.as_str()).path(
                join_path(dir, name).as_str(),
            ).tier(Tier::Review).regen(redownload("the Android SDK Manager")).warn(
                Warning::caution(warning.as_str()),
            ).build(),
        )
    }
}

/// The system images of an SDK.
pub open spec fn images_offer(ctx: &ScanContext, sdk: Seq<char>) -> Seq<CandidateModel> {
    let dir = join(sdk, "system-images"@);
    if ctx.disk@.is_dir(dir) {
        offers_of_all(&SystemImage, ctx, dir, ctx.disk@.subdir_names(dir))
    } else {
        nothing()
    }
}

fn images(ctx: &ScanContext, sdk: &str) -> (found: Vec<Candidate>)
    ensures
        views(found@) == images_offer(ctx, sdk@),
{
    let dir = join_path(sdk, "system-images");
    if ctx.disk.is_dir(dir.as_str()) {
        each_subdir(ctx, dir.as_str(), &SystemImage)
    } else {
        start()
    }
}

/// The versions of the NDK, where there is more than one: the only one is never offered.
pub open spec fn ndks_offer(ctx: &ScanContext, sdk: Seq<char>) -> Seq<CandidateModel> {
    let dir = join(sdk, "ndk"@);
    let versions = ctx.disk@.subdir_names(dir);
    if ctx.disk@.is_dir(dir) && versions.len() > 1 {
        offers_of_all(&NdkVersion, ctx, dir, versions)
    } else {
        nothing()
    }
}

fn ndks(ctx: &ScanContext, sdk: &str) -> (found: Vec<Candidate>)
    ensures
        views(found@) == ndks_offer(ctx, sdk@),
{
    let dir = join_path(sdk, "ndk");
    if !ctx.disk.is_dir(dir.as_str()) {
        return start();
    }
    let versions = ctx.disk.subdirs(dir.as_str());
    assert(views(versions@).len() == versions@.len());
    if versions.len() > 1 {
        each_subdir(ctx, dir.as_str(), &NdkVersion)
    } else {
        start()
    }
}

/// A cache that the next build fills again.
pub open spec fn build_cache_offer(
    ctx: &ScanContext,
    id: Seq<char>,
    label: Seq<char>,
    path: Seq<char>,
) -> Seq<CandidateModel> {
    given(
        ctx.disk@.present(path),
        cache(id, Group::Android, label, path).returning(auto_on("the next build"@)),
    )
}

fn build_cache(ctx: &ScanContext, id: &str, label: &str, path: &str) -> (found: Option<Candidate>)
    ensures
        addition(found) == build_cache_offer(ctx, id@, label@, path@),
{
    match global_cache(ctx, id, Group::Android, label, path) {
        Some(c) => Some(c.regen(automatic("the next build")).build()),
        None => None,
    }
}

/// Temporary state of emulators.
pub open spec fn emulator_tmp_offer(ctx: &ScanContext) -> Seq<CandidateModel> {
    let path = join(ctx.paths@.home, ".android/tmp"@);
    given(
        ctx.disk@.present(path),
        cache("android.emulator-tmp"@, Group::Android, "Emulator temp files"@, path),
    )
}

fn emulator_tmp(ctx: &ScanContext) -> (found: Option<Candidate>)
    ensures
        addition(found) == emulator_tmp_offer(ctx),
{
    let path = ctx.paths.home_join(".android/tmp");
    match global_cache(
        ctx,
        "android.emulator-tmp",
        Group::Android,
        "Emulator temp files",
        path.as_str(),
    ) {
        Some(c) => Some(c.build()),
        None => None,
    }
}

impl Provider for AndroidSdk {
    open spec fn name(&self) -> Seq<char> {
        "android.sdk"@
    }

    open spec fn marks(&self) -> Seq<Seq<char>> {
        Seq::empty()
    }

    open spec fn offers(&self, ctx: &ScanContext) -> Seq<CandidateModel> {
        match ctx.paths@.android_sdk {
            Some(sdk) => if ctx.disk@.is_dir(sdk) {
                nothing()
                    + images_offer(ctx, sdk)
                    + ndks_offer(ctx, sdk)
                    + build_cache_offer(
                        ctx,
                        "android.build-cache"@,
                        "Android build cache"@,
                        join(ctx.paths@.home, ".android/build-cache"@),
                    )
                    + build_cache_offer(
                        ctx,
                        "android.cache"@,
                        "Android SDK cache"@,
                        join(ctx.paths@.home, ".android/cache"@),
                    )
                    + emulator_tmp_offer(ctx)
            } else {
                nothing()
            },
            None => nothing(),
        }
    }

    fn id(&self) -> (s: &'static str) {
        "android.sdk"
    }

    fn markers(&self) -> (v: Vec<&'static str>) {
        let v: Vec<&'static str> = Vec::new();
        assert(views(v@) =~= Seq::empty());
        v
    }

    fn discover(&self, ctx: &ScanContext) -> (out: Vec<Candidate>) {
        let sdk = match ctx.paths.android_sdk() {
            Some(dir) => dir,
            None => return start(),
        };
        let mut out = start();
        if !ctx.disk.is_dir(sdk.as_str()) {
            return out;
        }
        offer_all(&mut out, images(ctx, sdk.as_str()));
        offer_all(&mut out, ndks(ctx, sdk.as_str()));
        offer(
            &mut out,
            build_cache(
                ctx,
                "android.build-cache",
                "Android build cache",
                ctx.paths.home_join(".android/build-cache").as_str(),
            ),
        );
        offer(
            &mut out,
            build_cache(
                ctx,
                "android.cache",
                "Android SDK cache",
                ctx.paths.home_join(".android/cache").as_str(),
            ),
        );
        offer(&mut out, emulator_tmp(ctx));
        out
    }
}

/// One virtual device, with the file that registers it: left behind, that file would be a broken
/// entry in the device manager.
pub struct VirtualDevice;

impl SubdirOffers for VirtualDevice {
    open spec fn offer_of(&self, ctx: &ScanContext, dir: Seq<char>, name: Seq<char>) -> Seq<
        CandidateModel,
    > {
        let path = join(dir, name);
        let device = stem(path);
        let ini = join(dir, device + ".ini"@);
        let emulator = cache("android.avd"@, Group::Android, "emulator: "@ + device, path).detailed(
            "A virtual device, including its full disk image and everything installed on it."@,
        ).tiered(Tier::Caution).returning(rebuild(5)).with_warning(
            danger(
                "Deletes the emulator's disk image: installed apps, accounts and app data inside it are lost."@,
            ),
        );
        given(
            extension(path) == Some("avd"@),
            if ctx.disk@.is_file(ini) {
                emulator.with_path(ini)
            } else {
                emulator
            },
        )
    }

    fn build(&self, ctx: &ScanContext, dir: &str, name: &str) -> (found: Option<Candidate>) {
        let path = join_path(dir, name);
        let is_device = match extension_of(path.as_str()) {
            Some(e) => same(e.as_str(), "avd"),
            None => false,
        };
        if !is_device {
            return None;
        }
        let device = stem_of(path.as_str());
        let ini = join_path(dir, device.clone().concat(".ini").as_str());
        let label = "emulator: ".to_owned().concat(device.as_str());
        let emulator = CandidateBuilder::new("android.avd", Group::Android, label.as_str()).path(
            path.as_str(),
        ).detail(
            "A virtual device, including its full disk image and everything installed on it.",
        ).tier(Tier::Caution).regen(Regen::Rebuild { minutes: 5 }).warn(
            Warning::danger(
                "Deletes the emulator's disk image: installed apps, accounts and app data inside it are lost.",
            ),
        );
        if ctx.disk.is_file(ini.as_str()) {
            Some(emulator.path(ini.as_str()).build())
        } else {
            Some(emulator.build())
        }
    }
}

pub struct AndroidAvds;

impl Provider for AndroidAvds {
    open spec fn name(&self) -> Seq<char> {
        "android.avd"@
    }

    open spec fn marks(&self) -> Seq<Seq<char>> {
        Seq::empty()
    }

    open spec fn offers(&self, ctx: &ScanContext) -> Seq<CandidateModel> {
        let dir = ctx.paths@.android_avd;
        if ctx.disk@.is_dir(dir) {
            offers_of_all(&VirtualDevice, ctx, dir, ctx.disk@.subdir_names(dir))
        } else {
            nothing()
        }
    }

    fn id(&self) -> (s: &'static str) {
        "android.avd"
    }

    fn markers(&self) -> (v: Vec<&'static str>) {
        let v: Vec<&'static str> = Vec::new();
        assert(views(v@) =~= Seq::empty());
        v
    }

    fn discover(&self, ctx: &ScanContext) -> (out: Vec<Candidate>) {
        let dir = ctx.paths.android_avd();
        if ctx.disk.is_dir(dir.as_str()) {
            each_subdir(ctx, dir.as_str(), &VirtualDevice)
        } else {
            start()
        }
    }
}

/// The providers of this module.
pub fn providers() -> (v: Vec<AnyProvider>)
    ensures
        v@ == seq![AnyProvider::AndroidSdk(AndroidSdk), AnyProvider::AndroidAvds(AndroidAvds)],
{
    let v = vec![AnyProvider::AndroidSdk(AndroidSdk), AnyProvider::AndroidAvds(AndroidAvds)];
    assert(v@ =~= seq![AnyProvider::AndroidSdk(AndroidSdk), AnyProvider::AndroidAvds(AndroidAvds)]);
    v
}

} // verus!
