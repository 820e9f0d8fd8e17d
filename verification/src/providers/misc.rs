//! The remaining ecosystems, each small: .NET, Ruby, PHP, Dart and Flutter, build tools, editors,
//! system caches and model caches.
use vstd::prelude::*;
use vstd::string::*;
use crate::model::{
    Candidate, CandidateBuilder, CandidateModel, Group, ProjectModel, ProjectRoot, Regen,
    RegenModel, Tier, Warning,
};
use crate::path::{join, join_path};
use crate::pipeline::{Provider, ScanContext, discover};
use crate::platform::Os;
use crate::providers::AnyProvider;
use crate::providers::support::{
    ProjectOffers, addition, artifact, artifacts_in_projects, auto_on, automatic, cache, caution,
    download, given, global_cache, info, lockfile_warning, no_lockfile_warning, nothing, offer,
    offer_all, offers_in_all, project_artifact, rebuild, redownload, shell, start,
};
use crate::text::views;

verus! {

/// Downloaded packages.
pub open spec fn nuget_offer(ctx: &ScanContext) -> Seq<CandidateModel> {
    let path = join(ctx.paths@.home, ".nuget/packages"@);
    given(ctx.disk@.present(path), cache("dotnet.nuget"@, Group::DotNet, "NuGet package cache"@, path)
        .tiered(Tier::Review)
        .returning(download("nuget.org"@)))
}

fn nuget(ctx: &ScanContext) -> (found: Option<Candidate>)
    ensures
        addition(found) == nuget_offer(ctx),
{
    let path = ctx.paths.home_join(".nuget/packages");
    match global_cache(ctx, "dotnet.nuget", Group::DotNet, "NuGet package cache", path.as_str()) {
        Some(c) => Some(c
            .tier(Tier::Review)
            .regen(redownload("nuget.org")).build()),
        None => None,
    }
}

/// Cached answers of the package index.
pub open spec fn nuget_http_offer(ctx: &ScanContext) -> Seq<CandidateModel> {
    let path = join(ctx.paths@.home, ".local/share/NuGet/http-cache"@);
    given(
        ctx.disk@.present(path),
        cache(
            "dotnet.http-cache"@,
            Group::DotNet,
            "NuGet HTTP cache"@,
            path,
        ).returning(download("nuget.org"@)),
    )
}

fn nuget_http(ctx: &ScanContext) -> (found: Option<Candidate>)
    ensures
        addition(found) == nuget_http_offer(ctx),
{
    let path = ctx.paths.home_join(".local/share/NuGet/http-cache");
    match global_cache(ctx, "dotnet.http-cache", Group::DotNet, "NuGet HTTP cache", path.as_str()) {
        Some(c) => Some(c.regen(redownload("nuget.org")).build()),
        None => None,
    }
}

/// Build output of a .NET project.
pub open spec fn dotnet_output_offer(
    ctx: &ScanContext,
    at: Seq<char>,
    dir: Seq<char>,
    label: Seq<char>,
) -> Seq<CandidateModel> {
    let path = join(at, dir);
    given(
        ctx.disk@.is_dir(path),
        artifact("dotnet.build-output"@, Group::DotNet, label, at, path).returning(rebuild(2)),
    )
}

fn dotnet_output(ctx: &ScanContext, at: &str, dir: &str, label: &str) -> (found: Option<Candidate>)
    ensures
        addition(found) == dotnet_output_offer(ctx, at@, dir@, label@),
{
    let path = join_path(at, dir);
    match project_artifact(ctx, "dotnet.build-output", Group::DotNet, label, at, path.as_str()) {
        Some(c) => Some(c.regen(Regen::Rebuild { minutes: 2 }).build()),
        None => None,
    }
}

/// What a .NET project holds.
pub struct DotNetProjects;

impl ProjectOffers for DotNetProjects {
    open spec fn offers_in(&self, ctx: &ScanContext, project: ProjectModel) -> Seq<CandidateModel> {
        let at = project.path;
        nothing()
            + dotnet_output_offer(ctx, at, "bin"@, ".NET bin output"@)
            + dotnet_output_offer(ctx, at, "obj"@, ".NET obj output"@)
    }

    fn build(&self, ctx: &ScanContext, project: &ProjectRoot) -> (out: Vec<Candidate>) {
        let at = project.path.as_str();
        let mut out = start();
        offer(&mut out, dotnet_output(ctx, at, "bin", ".NET bin output"));
        offer(&mut out, dotnet_output(ctx, at, "obj", ".NET obj output"));
        out
    }
}

pub struct DotNet;

impl Provider for DotNet {
    open spec fn name(&self) -> Seq<char> {
        "dotnet.caches"@
    }

    open spec fn marks(&self) -> Seq<Seq<char>> {
        seq!["Directory.Build.props"@]
    }

    open spec fn offers(&self, ctx: &ScanContext) -> Seq<CandidateModel> {
        nothing()
            + nuget_offer(ctx)
            + nuget_http_offer(ctx)
            + offers_in_all(
                &DotNetProjects,
                ctx,
                ctx.marked(seq!["Directory.Build.props"@, "*.csproj"@, "*.sln"@]),
            )
    }

    fn id(&self) -> (s: &'static str) {
        "dotnet.caches"
    }

    fn markers(&self) -> (v: Vec<&'static str>) {
        let v = vec!["Directory.Build.props"];
        assert(views(v@) =~= seq!["Directory.Build.props"@]);
        v
    }

    fn discover(&self, ctx: &ScanContext) -> (out: Vec<Candidate>) {
        let mut out = start();
        offer(&mut out, nuget(ctx));
        offer(&mut out, nuget_http(ctx));
        let markers = ["Directory.Build.props", "*.csproj", "*.sln"];
        assert(views(markers@) =~= seq!["Directory.Build.props"@, "*.csproj"@, "*.sln"@]);
        offer_all(&mut out, artifacts_in_projects(ctx, &markers, &DotNetProjects));
        out
    }
}

/// Downloaded gems. The unpacked gems beside them are the installation itself and are not offered.
pub open spec fn gems_offer(ctx: &ScanContext, path: Seq<char>) -> Seq<CandidateModel> {
    given(ctx.disk@.present(path), cache("ruby.gem-cache"@, Group::Ruby, "RubyGems cache"@, path)
        .tiered(Tier::Review)
        .returning(download("rubygems.org"@)))
}

fn gems(ctx: &ScanContext, path: &str) -> (found: Option<Candidate>)
    ensures
        addition(found) == gems_offer(ctx, path@),
{
    match global_cache(ctx, "ruby.gem-cache", Group::Ruby, "RubyGems cache", path) {
        Some(c) => Some(c
            .tier(Tier::Review)
            .regen(redownload("rubygems.org")).build()),
        None => None,
    }
}

/// Downloaded gems of Bundler.
pub open spec fn bundler_offer(ctx: &ScanContext) -> Seq<CandidateModel> {
    let path = join(ctx.paths@.cache_dir, "bundle"@);
    given(
        ctx.disk@.present(path),
        cache(
            "ruby.bundler-cache"@,
            Group::Ruby,
            "Bundler cache"@,
            path,
        ).returning(download("rubygems.org"@)),
    )
}

fn bundler(ctx: &ScanContext) -> (found: Option<Candidate>)
    ensures
        addition(found) == bundler_offer(ctx),
{
    let path = join_path(ctx.paths.cache_dir().as_str(), "bundle");
    match global_cache(ctx, "ruby.bundler-cache", Group::Ruby, "Bundler cache", path.as_str()) {
        Some(c) => Some(c.regen(redownload("rubygems.org")).build()),
        None => None,
    }
}

/// Gems installed in a project: reproducible only where it has a lockfile.
pub open spec fn vendored_gems_offer(
    ctx: &ScanContext,
    at: Seq<char>,
    locked: bool,
) -> Seq<CandidateModel> {
    let path = join(at, "vendor/bundle"@);
    given(ctx.disk@.is_dir(path), artifact("ruby.vendor-bundle"@, Group::Ruby, "vendor/bundle"@, at, path)
        .tiered(if locked { Tier::Review } else { Tier::Caution })
        .returning(if locked { download("rubygems.org"@) } else { RegenModel::Never })
        .warned_if(!locked, lockfile_warning("bundle install"@)))
}

fn vendored_gems(ctx: &ScanContext, at: &str, locked: bool) -> (found: Option<Candidate>)
    ensures
        addition(found) == vendored_gems_offer(ctx, at@, locked),
{
    let path = join_path(at, "vendor/bundle");
    match project_artifact(
        ctx,
        "ruby.vendor-bundle",
        Group::Ruby,
        "vendor/bundle",
        at,
        path.as_str(),
    ) {
        Some(c) => Some(c
            .tier(if locked { Tier::Review } else { Tier::Caution })
            .regen(if locked { redownload("rubygems.org") } else { Regen::Never })
            .warn_if(!locked, no_lockfile_warning("bundle install")).build()),
        None => None,
    }
}

/// What a Ruby project holds.
pub struct RubyProjects;

impl ProjectOffers for RubyProjects {
    open spec fn offers_in(&self, ctx: &ScanContext, project: ProjectModel) -> Seq<CandidateModel> {
        let locked = ctx.disk@.is_file(join(project.path, "Gemfile.lock"@));
        nothing() + vendored_gems_offer(ctx, project.path, locked)
    }

    fn build(&self, ctx: &ScanContext, project: &ProjectRoot) -> (out: Vec<Candidate>) {
        let at = project.path.as_str();
        let locked = ctx.disk.is_file(join_path(at, "Gemfile.lock").as_str());
        let mut out = start();
        offer(&mut out, vendored_gems(ctx, at, locked));
        out
    }
}

pub struct Ruby;

impl Provider for Ruby {
    open spec fn name(&self) -> Seq<char> {
        "ruby.caches"@
    }

    open spec fn marks(&self) -> Seq<Seq<char>> {
        seq!["Gemfile"@]
    }

    open spec fn offers(&self, ctx: &ScanContext) -> Seq<CandidateModel> {
        nothing()
            + gems_offer(ctx, join(ctx.paths@.home, ".gem/cache"@))
            + gems_offer(ctx, join(ctx.paths@.home, ".gem/ruby"@))
            + bundler_offer(ctx)
            + offers_in_all(&RubyProjects, ctx, ctx.marked(seq!["Gemfile"@]))
    }

    fn id(&self) -> (s: &'static str) {
        "ruby.caches"
    }

    fn markers(&self) -> (v: Vec<&'static str>) {
        let v = vec!["Gemfile"];
        assert(views(v@) =~= seq!["Gemfile"@]);
        v
    }

    fn discover(&self, ctx: &ScanContext) -> (out: Vec<Candidate>) {
        let mut out = start();
        offer(&mut out, gems(ctx, ctx.paths.home_join(".gem/cache").as_str()));
        offer(&mut out, gems(ctx, ctx.paths.home_join(".gem/ruby").as_str()));
        offer(&mut out, bundler(ctx));
        let markers = ["Gemfile"];
        assert(views(markers@) =~= seq!["Gemfile"@]);
        offer_all(&mut out, artifacts_in_projects(ctx, &markers, &RubyProjects));
        out
    }
}

/// Downloaded packages.
pub open spec fn composer_offer(ctx: &ScanContext, path: Seq<char>) -> Seq<CandidateModel> {
    given(
        ctx.disk@.present(path),
        cache(
            "php.composer-cache"@,
            Group::Php,
            "Composer cache"@,
            path,
        ).returning(download("Packagist"@)),
    )
}

fn composer(ctx: &ScanContext, path: &str) -> (found: Option<Candidate>)
    ensures
        addition(found) == composer_offer(ctx, path@),
{
    match global_cache(ctx, "php.composer-cache", Group::Php, "Composer cache", path) {
        Some(c) => Some(c.regen(redownload("Packagist")).build()),
        None => None,
    }
}

/// Packages installed in a project: reproducible only where it has a lockfile.
pub open spec fn vendored_packages_offer(
    ctx: &ScanContext,
    at: Seq<char>,
    locked: bool,
) -> Seq<CandidateModel> {
    let path = join(at, "vendor"@);
    given(ctx.disk@.is_dir(path), artifact("php.vendor"@, Group::Php, "vendor/"@, at, path)
        .tiered(if locked { Tier::Review } else { Tier::Caution })
        .returning(if locked { download("Packagist"@) } else { RegenModel::Never })
        .warned_if(!locked, lockfile_warning("composer install"@)))
}

fn vendored_packages(ctx: &ScanContext, at: &str, locked: bool) -> (found: Option<Candidate>)
    ensures
        addition(found) == vendored_packages_offer(ctx, at@, locked),
{
    let path = join_path(at, "vendor");
    match project_artifact(ctx, "php.vendor", Group::Php, "vendor/", at, path.as_str()) {
        Some(c) => Some(c
            .tier(if locked { Tier::Review } else { Tier::Caution })
            .regen(if locked { redownload("Packagist") } else { Regen::Never })
            .warn_if(!locked, no_lockfile_warning("composer install")).build()),
        None => None,
    }
}

/// What a PHP project holds.
pub struct PhpProjects;

impl ProjectOffers for PhpProjects {
    open spec fn offers_in(&self, ctx: &ScanContext, project: ProjectModel) -> Seq<CandidateModel> {
        let locked = ctx.disk@.is_file(join(project.path, "composer.lock"@));
        nothing() + vendored_packages_offer(ctx, project.path, locked)
    }

    fn build(&self, ctx: &ScanContext, project: &ProjectRoot) -> (out: Vec<Candidate>) {
        let at = project.path.as_str();
        let locked = ctx.disk.is_file(join_path(at, "composer.lock").as_str());
        let mut out = start();
        offer(&mut out, vendored_packages(ctx, at, locked));
        out
    }
}

pub struct Php;

impl Provider for Php {
    open spec fn name(&self) -> Seq<char> {
        "php.caches"@
    }

    open spec fn marks(&self) -> Seq<Seq<char>> {
        seq!["composer.json"@]
    }

    open spec fn offers(&self, ctx: &ScanContext) -> Seq<CandidateModel> {
        nothing()
            + composer_offer(ctx, join(ctx.paths@.cache_dir, "composer"@))
            + composer_offer(ctx, join(ctx.paths@.home, ".composer/cache"@))
            + offers_in_all(&PhpProjects, ctx, ctx.marked(seq!["composer.json"@]))
    }

    fn id(&self) -> (s: &'static str) {
        "php.caches"
    }

    fn markers(&self) -> (v: Vec<&'static str>) {
        let v = vec!["composer.json"];
        assert(views(v@) =~= seq!["composer.json"@]);
        v
    }

    fn discover(&self, ctx: &ScanContext) -> (out: Vec<Candidate>) {
        let mut out = start();
        offer(
            &mut out,
            composer(ctx, join_path(ctx.paths.cache_dir().as_str(), "composer").as_str()),
        );
        offer(&mut out, composer(ctx, ctx.paths.home_join(".composer/cache").as_str()));
        let markers = ["composer.json"];
        assert(views(markers@) =~= seq!["composer.json"@]);
        offer_all(&mut out, artifacts_in_projects(ctx, &markers, &PhpProjects));
        out
    }
}

/// Downloaded packages.
pub open spec fn pub_cache_offer(ctx: &ScanContext) -> Seq<CandidateModel> {
    let path = join(ctx.paths@.home, ".pub-cache"@);
    given(ctx.disk@.present(path), cache("dart.pub-cache"@, Group::Dart, "Pub package cache"@, path)
        .tiered(Tier::Review)
        .returning(download("pub.dev"@)))
}

fn pub_cache(ctx: &ScanContext) -> (found: Option<Candidate>)
    ensures
        addition(found) == pub_cache_offer(ctx),
{
    let path = ctx.paths.home_join(".pub-cache");
    match global_cache(ctx, "dart.pub-cache", Group::Dart, "Pub package cache", path.as_str()) {
        Some(c) => Some(c
            .tier(Tier::Review)
            .regen(redownload("pub.dev")).build()),
        None => None,
    }
}

/// Flutter's engine binaries: several gigabytes, fetched again slowly but without help.
pub open spec fn flutter_engine_offer(ctx: &ScanContext, path: Seq<char>) -> Seq<CandidateModel> {
    given(ctx.disk@.present(path), cache("dart.flutter-engine"@, Group::Dart, "Flutter engine cache"@, path)
        .detailed("Downloaded Flutter engine and tool binaries."@)
        .tiered(Tier::Review)
        .returning(download("the Flutter storage bucket"@))
        .with_warning(info("Restored by `flutter precache`, a multi-gigabyte download."@)))
}

fn flutter_engine(ctx: &ScanContext, path: &str) -> (found: Option<Candidate>)
    ensures
        addition(found) == flutter_engine_offer(ctx, path@),
{
    match global_cache(ctx, "dart.flutter-engine", Group::Dart, "Flutter engine cache", path) {
        Some(c) => Some(c
            .detail("Downloaded Flutter engine and tool binaries.")
            .tier(Tier::Review)
            .regen(redownload("the Flutter storage bucket"))
            .warn(Warning::info("Restored by `flutter precache`, a multi-gigabyte download.")).build()),
        None => None,
    }
}

/// Build output of a Dart project.
pub open spec fn dart_output_offer(
    ctx: &ScanContext,
    at: Seq<char>,
    dir: Seq<char>,
    label: Seq<char>,
) -> Seq<CandidateModel> {
    let path = join(at, dir);
    given(
        ctx.disk@.is_dir(path),
        artifact("dart.build-output"@, Group::Dart, label, at, path).returning(rebuild(3)),
    )
}

fn dart_output(ctx: &ScanContext, at: &str, dir: &str, label: &str) -> (found: Option<Candidate>)
    ensures
        addition(found) == dart_output_offer(ctx, at@, dir@, label@),
{
    let path = join_path(at, dir);
    match project_artifact(ctx, "dart.build-output", Group::Dart, label, at, path.as_str()) {
        Some(c) => Some(c.regen(Regen::Rebuild { minutes: 3 }).build()),
        None => None,
    }
}

/// What a Dart project holds.
pub struct DartProjects;

impl ProjectOffers for DartProjects {
    open spec fn offers_in(&self, ctx: &ScanContext, project: ProjectModel) -> Seq<CandidateModel> {
        let at = project.path;
        nothing()
            + dart_output_offer(ctx, at, ".dart_tool"@, "Dart tool cache"@)
            + dart_output_offer(ctx, at, "build"@, "Flutter build output"@)
    }

    fn build(&self, ctx: &ScanContext, project: &ProjectRoot) -> (out: Vec<Candidate>) {
        let at = project.path.as_str();
        let mut out = start();
        offer(&mut out, dart_output(ctx, at, ".dart_tool", "Dart tool cache"));
        offer(&mut out, dart_output(ctx, at, "build", "Flutter build output"));
        out
    }
}

pub struct Dart;

impl Provider for Dart {
    open spec fn name(&self) -> Seq<char> {
        "dart.caches"@
    }

    open spec fn marks(&self) -> Seq<Seq<char>> {
        seq!["pubspec.yaml"@]
    }

    open spec fn offers(&self, ctx: &ScanContext) -> Seq<CandidateModel> {
        nothing()
            + pub_cache_offer(ctx)
            + flutter_engine_offer(ctx, join(ctx.paths@.home, "flutter/bin/cache"@))
            + flutter_engine_offer(ctx, join(ctx.paths@.home, "development/flutter/bin/cache"@))
            + offers_in_all(&DartProjects, ctx, ctx.marked(seq!["pubspec.yaml"@]))
    }

    fn id(&self) -> (s: &'static str) {
        "dart.caches"
    }

    fn markers(&self) -> (v: Vec<&'static str>) {
        let v = vec!["pubspec.yaml"];
        assert(views(v@) =~= seq!["pubspec.yaml"@]);
        v
    }

    fn discover(&self, ctx: &ScanContext) -> (out: Vec<Candidate>) {
        let mut out = start();
        offer(&mut out, pub_cache(ctx));
        offer(&mut out, flutter_engine(ctx, ctx.paths.home_join("flutter/bin/cache").as_str()));
        offer(
            &mut out,
            flutter_engine(ctx, ctx.paths.home_join("development/flutter/bin/cache").as_str()),
        );
        let markers = ["pubspec.yaml"];
        assert(views(markers@) =~= seq!["pubspec.yaml"@]);
        offer_all(&mut out, artifacts_in_projects(ctx, &markers, &DartProjects));
        out
    }
}

/// A cache of compiled output.
pub open spec fn compiled_offer(
    ctx: &ScanContext,
    id: Seq<char>,
    label: Seq<char>,
    path: Seq<char>,
) -> Seq<CandidateModel> {
    given(ctx.disk@.present(path), cache(id, Group::BuildTools, label, path).returning(rebuild(5)))
}

fn compiled(ctx: &ScanContext, id: &str, label: &str, path: &str) -> (found: Option<Candidate>)
    ensures
        addition(found) == compiled_offer(ctx, id@, label@, path@),
{
    match global_cache(ctx, id, Group::BuildTools, label, path) {
        Some(c) => Some(c.regen(Regen::Rebuild { minutes: 5 }).build()),
        None => None,
    }
}

/// A build directory, claimed only where CMake generated it: the name is used by too many other
/// things to claim on sight.
pub open spec fn cmake_build_offer(ctx: &ScanContext, at: Seq<char>) -> Seq<CandidateModel> {
    let path = join(at, "build"@);
    given(
        ctx.disk@.is_file(join(path, "CMakeCache.txt"@)) && ctx.disk@.is_dir(path),
        artifact(
            "buildtools.cmake-build"@,
            Group::BuildTools,
            "CMake build directory"@,
            at,
            path,
        ).returning(rebuild(6)),
    )
}

fn cmake_build(ctx: &ScanContext, at: &str) -> (found: Option<Candidate>)
    ensures
        addition(found) == cmake_build_offer(ctx, at@),
{
    let path = join_path(at, "build");
    if !ctx.disk.is_file(join_path(path.as_str(), "CMakeCache.txt").as_str()) {
        return None;
    }
    match project_artifact(
        ctx,
        "buildtools.cmake-build",
        Group::BuildTools,
        "CMake build directory",
        at,
        path.as_str(),
    ) {
        Some(c) => Some(c.regen(Regen::Rebuild { minutes: 6 }).build()),
        None => None,
    }
}

/// What a project of these build tools holds.
pub struct BuildToolProjects;

impl ProjectOffers for BuildToolProjects {
    open spec fn offers_in(&self, ctx: &ScanContext, project: ProjectModel) -> Seq<CandidateModel> {
        nothing() + cmake_build_offer(ctx, project.path)
    }

    fn build(&self, ctx: &ScanContext, project: &ProjectRoot) -> (out: Vec<Candidate>) {
        let mut out = start();
        offer(&mut out, cmake_build(ctx, project.path.as_str()));
        out
    }
}

pub struct BuildTools;

impl Provider for BuildTools {
    open spec fn name(&self) -> Seq<char> {
        "buildtools.caches"@
    }

    open spec fn marks(&self) -> Seq<Seq<char>> {
        seq!["CMakeLists.txt"@, "WORKSPACE"@, "MODULE.bazel"@]
    }

    open spec fn offers(&self, ctx: &ScanContext) -> Seq<CandidateModel> {
        nothing()
            + compiled_offer(
                ctx,
                "buildtools.ccache"@,
                "ccache"@,
                join(ctx.paths@.cache_dir, "ccache"@),
            )
            + compiled_offer(
                ctx,
                "buildtools.ccache"@,
                "ccache"@,
                join(ctx.paths@.home, ".ccache"@),
            )
            + compiled_offer(
                ctx,
                "buildtools.bazel"@,
                "Bazel disk cache"@,
                join(ctx.paths@.cache_dir, "bazel"@),
            )
            + compiled_offer(
                ctx,
                "buildtools.bazelisk"@,
                "Bazelisk downloads"@,
                join(ctx.paths@.cache_dir, "bazelisk"@),
            )
            + compiled_offer(
                ctx,
                "buildtools.zig"@,
                "Zig cache"@,
                join(ctx.paths@.cache_dir, "zig"@),
            )
            + offers_in_all(
                &BuildToolProjects,
                ctx,
                ctx.marked(seq!["CMakeLists.txt"@, "WORKSPACE"@, "MODULE.bazel"@]),
            )
    }

    fn id(&self) -> (s: &'static str) {
        "buildtools.caches"
    }

    fn markers(&self) -> (v: Vec<&'static str>) {
        let v = vec!["CMakeLists.txt", "WORKSPACE", "MODULE.bazel"];
        assert(views(v@) =~= seq!["CMakeLists.txt"@, "WORKSPACE"@, "MODULE.bazel"@]);
        v
    }

    fn discover(&self, ctx: &ScanContext) -> (out: Vec<Candidate>) {
        let mut out = start();
        offer(
            &mut out,
            compiled(
                ctx,
                "buildtools.ccache",
                "ccache",
                join_path(ctx.paths.cache_dir().as_str(), "ccache").as_str(),
            ),
        );
        offer(
            &mut out,
            compiled(ctx, "buildtools.ccache", "ccache", ctx.paths.home_join(".ccache").as_str()),
        );
        offer(
            &mut out,
            compiled(
                ctx,
                "buildtools.bazel",
                "Bazel disk cache",
                join_path(ctx.paths.cache_dir().as_str(), "bazel").as_str(),
            ),
        );
        offer(
            &mut out,
            compiled(
                ctx,
                "buildtools.bazelisk",
                "Bazelisk downloads",
                join_path(ctx.paths.cache_dir().as_str(), "bazelisk").as_str(),
            ),
        );
        offer(
            &mut out,
            compiled(
                ctx,
                "buildtools.zig",
                "Zig cache",
                join_path(ctx.paths.cache_dir().as_str(), "zig").as_str(),
            ),
        );
        let markers = ["CMakeLists.txt", "WORKSPACE", "MODULE.bazel"];
        assert(views(markers@) =~= seq!["CMakeLists.txt"@, "WORKSPACE"@, "MODULE.bazel"@]);
        offer_all(&mut out, artifacts_in_projects(ctx, &markers, &BuildToolProjects));
        out
    }
}

/// Data of one editor that fills again in normal use.
pub open spec fn editor_cache_offer(
    ctx: &ScanContext,
    base: Seq<char>,
    editor: Seq<char>,
    sub: Seq<char>,
    label: Seq<char>,
) -> Seq<CandidateModel> {
    let path = join(base, sub);
    given(
        ctx.disk@.present(path),
        cache("editors.vscode"@, Group::Editors, editor + " "@ + label, path).returning(
            auto_on("normal use"@),
        ),
    )
}

fn editor_cache(ctx: &ScanContext, base: &str, editor: &str, sub: &str, label: &str) -> (found:
    Option<Candidate>)
    ensures
        addition(found) == editor_cache_offer(ctx, base@, editor@, sub@, label@),
{
    let path = join_path(base, sub);
    if !ctx.disk.has(path.as_str()) {
        return None;
    }
    let label = editor.to_owned().concat(" ").concat(label);
    Some(
        CandidateBuilder::new("editors.vscode", Group::Editors, label.as_str()).path(
            path.as_str(),
        ).tier(Tier::Safe).regen(automatic("normal use")).build(),
    )
}

/// State that an editor keeps of each project: recoverable, but its loss is noticed.
pub open spec fn workspaces_offer(
    ctx: &ScanContext,
    base: Seq<char>,
    editor: Seq<char>,
) -> Seq<CandidateModel> {
    let path = join(base, "User/workspaceStorage"@);
    given(
        ctx.disk@.is_dir(path),
        cache(
            "editors.workspace-storage"@,
            Group::Editors,
            editor + " workspace storage"@,
            path,
        ).detailed(
            "Per-project editor state: open editors, undo history, extension data."@,
        ).tiered(Tier::Review).returning(RegenModel::Never).with_warning(
            caution("Loses per-project editor state such as open tabs and local history."@),
        ),
    )
}

fn workspaces(ctx: &ScanContext, base: &str, editor: &str) -> (found: Option<Candidate>)
    ensures
        addition(found) == workspaces_offer(ctx, base@, editor@),
{
    let path = join_path(base, "User/workspaceStorage");
    if !ctx.disk.is_dir(path.as_str()) {
        return None;
    }
    let label = editor.to_owned().concat(" workspace storage");
    Some(
        CandidateBuilder::new("editors.workspace-storage", Group::Editors, label.as_str()).path(
            path.as_str(),
        ).detail("Per-project editor state: open editors, undo history, extension data.").tier(
            Tier::Review,
        ).regen(Regen::Never).warn(
            Warning::caution(
                "Loses per-project editor state such as open tabs and local history.",
            ),
        ).build(),
    )
}

/// Where editors keep their data.
pub open spec fn app_support(ctx: &ScanContext) -> Seq<char> {
    join(
        ctx.paths@.home,
        if ctx.paths@.os == Os::MacOs {
            "Library/Application Support"@
        } else {
            ".config"@
        },
    )
}

/// What one editor holds.
pub open spec fn editor_offer(ctx: &ScanContext, editor: Seq<char>) -> Seq<CandidateModel> {
    let base = join(app_support(ctx), editor);
    if ctx.disk@.is_dir(base) {
        nothing()
            + editor_cache_offer(ctx, base, editor, "Cache"@, "cache"@)
            + editor_cache_offer(ctx, base, editor, "CachedData"@, "cached data"@)
            + editor_cache_offer(
                ctx,
                base,
                editor,
                "CachedExtensionVSIXs"@,
                "cached extension packages"@,
            )
            + editor_cache_offer(ctx, base, editor, "logs"@, "logs"@)
            + editor_cache_offer(ctx, base, editor, "Crashpad"@, "crash reports"@)
            + workspaces_offer(ctx, base, editor)
    } else {
        nothing()
    }
}

fn editor(ctx: &ScanContext, name: &str) -> (found: Vec<Candidate>)
    ensures
        views(found@) == editor_offer(ctx, name@),
{
    let support = match ctx.paths.os() {
        Os::MacOs => ctx.paths.home_join("Library/Application Support"),
        _ => ctx.paths.home_join(".config"),
    };
    let base = join_path(support.as_str(), name);
    let base = base.as_str();
    let mut out = start();
    if !ctx.disk.is_dir(base) {
        return out;
    }
    offer(&mut out, editor_cache(ctx, base, name, "Cache", "cache"));
    offer(&mut out, editor_cache(ctx, base, name, "CachedData", "cached data"));
    offer(
        &mut out,
        editor_cache(ctx, base, name, "CachedExtensionVSIXs", "cached extension packages"),
    );
    offer(&mut out, editor_cache(ctx, base, name, "logs", "logs"));
    offer(&mut out, editor_cache(ctx, base, name, "Crashpad", "crash reports"));
    offer(&mut out, workspaces(ctx, base, name));
    out
}

/// JetBrains IDEs keep caches and logs outside the installation.
pub open spec fn jetbrains_offer(
    ctx: &ScanContext,
    label: Seq<char>,
    path: Seq<char>,
) -> Seq<CandidateModel> {
    given(ctx.disk@.present(path), cache("editors.jetbrains"@, Group::Editors, label, path)
        .returning(rebuild(5))
        .with_warning(info("Indexes are rebuilt on next project open, which takes a few minutes."@)))
}

fn jetbrains(ctx: &ScanContext, label: &str, path: &str) -> (found: Option<Candidate>)
    ensures
        addition(found) == jetbrains_offer(ctx, label@, path@),
{
    match global_cache(ctx, "editors.jetbrains", Group::Editors, label, path) {
        Some(c) => Some(c
            .regen(Regen::Rebuild { minutes: 5 })
            .warn(Warning::info("Indexes are rebuilt on next project open, which takes a few minutes.")).build()),
        None => None,
    }
}

pub struct Editors;

impl Provider for Editors {
    open spec fn name(&self) -> Seq<char> {
        "editors.caches"@
    }

    open spec fn marks(&self) -> Seq<Seq<char>> {
        Seq::empty()
    }

    open spec fn offers(&self, ctx: &ScanContext) -> Seq<CandidateModel> {
        nothing()
            + editor_offer(ctx, "Code"@)
            + editor_offer(ctx, "Cursor"@)
            + editor_offer(ctx, "VSCodium"@)
            + editor_offer(ctx, "Code - Insiders"@)
            + editor_offer(ctx, "Windsurf"@)
            + jetbrains_offer(
                ctx,
                "JetBrains caches"@,
                join(ctx.paths@.home, "Library/Caches/JetBrains"@),
            )
            + jetbrains_offer(
                ctx,
                "JetBrains logs"@,
                join(ctx.paths@.home, "Library/Logs/JetBrains"@),
            )
            + jetbrains_offer(ctx, "JetBrains caches"@, join(ctx.paths@.home, ".cache/JetBrains"@))
    }

    fn id(&self) -> (s: &'static str) {
        "editors.caches"
    }

    fn markers(&self) -> (v: Vec<&'static str>) {
        let v: Vec<&'static str> = Vec::new();
        assert(views(v@) =~= Seq::empty());
        v
    }

    fn discover(&self, ctx: &ScanContext) -> (out: Vec<Candidate>) {
        let mut out = start();
        offer_all(&mut out, editor(ctx, "Code"));
        offer_all(&mut out, editor(ctx, "Cursor"));
        offer_all(&mut out, editor(ctx, "VSCodium"));
        offer_all(&mut out, editor(ctx, "Code - Insiders"));
        offer_all(&mut out, editor(ctx, "Windsurf"));
        offer(
            &mut out,
            jetbrains(
                ctx,
                "JetBrains caches",
                ctx.paths.home_join("Library/Caches/JetBrains").as_str(),
            ),
        );
        offer(
            &mut out,
            jetbrains(
                ctx,
                "JetBrains logs",
                ctx.paths.home_join("Library/Logs/JetBrains").as_str(),
            ),
        );
        offer(
            &mut out,
            jetbrains(ctx, "JetBrains caches", ctx.paths.home_join(".cache/JetBrains").as_str()),
        );
        out
    }
}

/// What Homebrew's own cleanup removes.
pub open spec fn homebrew_offer(ctx: &ScanContext) -> Seq<CandidateModel> {
    given(
        ctx.disk@.commands.contains("brew"@),
        cache("system.homebrew"@, Group::System, "Homebrew downloads and old versions"@, join(ctx.paths@.cache_dir, "Homebrew"@)).detailed(
            "Downloaded bottles and superseded formula versions."@,
        ).running("brew"@, seq!["cleanup"@, "-s"@]).tiered(Tier::Safe).returning(download("the Homebrew CDN"@)),
    )
}

fn homebrew(ctx: &ScanContext) -> (found: Option<Candidate>)
    ensures
        addition(found) == homebrew_offer(ctx),
{
    if !ctx.disk.has_command("brew") {
        return None;
    }
    let args = ["cleanup", "-s"];
    assert(views(args@) =~= seq!["cleanup"@, "-s"@]);
    Some(
        CandidateBuilder::new("system.homebrew", Group::System, "Homebrew downloads and old versions").path(
            join_path(ctx.paths.cache_dir().as_str(), "Homebrew").as_str(),
        ).detail("Downloaded bottles and superseded formula versions.").action(
            shell("brew", &args),
        ).tier(Tier::Safe).regen(redownload("the Homebrew CDN")).build(),
    )
}

/// What the Nix garbage collector removes.
pub open spec fn nix_offer(ctx: &ScanContext) -> Seq<CandidateModel> {
    given(
        ctx.disk@.commands.contains("nix-collect-garbage"@),
        cache("system.nix"@, Group::System, "Nix store garbage"@, join(ctx.paths@.home, ".nix-profile"@)).detailed(
            "Store paths no longer reachable from any profile generation."@,
        ).running("nix-collect-garbage"@, seq!["-d"@]).tiered(Tier::Review).returning(rebuild(10)).with_warning(
            caution(
                "`-d` also deletes old profile generations, so rollback is no longer possible."@,
            ),
        ),
    )
}

fn nix(ctx: &ScanContext) -> (found: Option<Candidate>)
    ensures
        addition(found) == nix_offer(ctx),
{
    if !ctx.disk.has_command("nix-collect-garbage") {
        return None;
    }
    let args = ["-d"];
    assert(views(args@) =~= seq!["-d"@]);
    Some(
        CandidateBuilder::new("system.nix", Group::System, "Nix store garbage").path(
            ctx.paths.home_join(".nix-profile").as_str(),
        ).detail("Store paths no longer reachable from any profile generation.").action(
            shell("nix-collect-garbage", &args),
        ).tier(Tier::Review).regen(Regen::Rebuild { minutes: 10 }).warn(
            Warning::caution(
                "`-d` also deletes old profile generations, so rollback is no longer possible.",
            ),
        ).build(),
    )
}

/// Logs that fill again in normal use.
pub open spec fn logs_offer(
    ctx: &ScanContext,
    id: Seq<char>,
    label: Seq<char>,
    path: Seq<char>,
) -> Seq<CandidateModel> {
    given(
        ctx.disk@.present(path),
        cache(id, Group::System, label, path).returning(auto_on("normal use"@)),
    )
}

fn logs(ctx: &ScanContext, id: &str, label: &str, path: &str) -> (found: Option<Candidate>)
    ensures
        addition(found) == logs_offer(ctx, id@, label@, path@),
{
    match global_cache(ctx, id, Group::System, label, path) {
        Some(c) => Some(c.regen(automatic("normal use")).build()),
        None => None,
    }
}

pub struct System;

impl Provider for System {
    open spec fn name(&self) -> Seq<char> {
        "system.caches"@
    }

    open spec fn marks(&self) -> Seq<Seq<char>> {
        Seq::empty()
    }

    open spec fn offers(&self, ctx: &ScanContext) -> Seq<CandidateModel> {
        nothing()
            + homebrew_offer(ctx)
            + nix_offer(ctx)
            + logs_offer(
                ctx,
                "system.logs"@,
                "Application logs"@,
                join(ctx.paths@.home, "Library/Logs"@),
            )
            + logs_offer(
                ctx,
                "system.crash-reports"@,
                "Crash reports"@,
                join(ctx.paths@.home, "Library/Logs/DiagnosticReports"@),
            )
    }

    fn id(&self) -> (s: &'static str) {
        "system.caches"
    }

    fn markers(&self) -> (v: Vec<&'static str>) {
        let v: Vec<&'static str> = Vec::new();
        assert(views(v@) =~= Seq::empty());
        v
    }

    fn discover(&self, ctx: &ScanContext) -> (out: Vec<Candidate>) {
        let mut out = start();
        offer(&mut out, homebrew(ctx));
        offer(&mut out, nix(ctx));
        offer(
            &mut out,
            logs(
                ctx,
                "system.logs",
                "Application logs",
                ctx.paths.home_join("Library/Logs").as_str(),
            ),
        );
        offer(
            &mut out,
            logs(
                ctx,
                "system.crash-reports",
                "Crash reports",
                ctx.paths.home_join("Library/Logs/DiagnosticReports").as_str(),
            ),
        );
        out
    }
}

/// Downloaded model weights.
pub open spec fn weights_offer(
    ctx: &ScanContext,
    id: Seq<char>,
    label: Seq<char>,
    path: Seq<char>,
    source: Seq<char>,
) -> Seq<CandidateModel> {
    given(ctx.disk@.present(path), cache(id, Group::Ml, label, path)
        .detailed("Downloaded model weights."@)
        .tiered(Tier::Review)
        .returning(download(source))
        .with_warning(caution("Model weights are very large downloads; re-fetching can take a long time."@)))
}

fn weights(
    ctx: &ScanContext,
    id: &str,
    label: &str,
    path: &str,
    source: &str,
) -> (found: Option<Candidate>)
    ensures
        addition(found) == weights_offer(ctx, id@, label@, path@, source@),
{
    if ctx.disk.has(path) {
        Some(CandidateBuilder::new(id, Group::Ml, label).path(path)
            .detail("Downloaded model weights.")
            .tier(Tier::Review)
            .regen(redownload(source))
            .warn(Warning::caution("Model weights are very large downloads; re-fetching can take a long time.")).build())
    } else {
        None
    }
}

/// Model caches, disabled by default.
pub struct MachineLearning;

impl Provider for MachineLearning {
    open spec fn name(&self) -> Seq<char> {
        "ml.models"@
    }

    open spec fn marks(&self) -> Seq<Seq<char>> {
        Seq::empty()
    }

    open spec fn offers(&self, ctx: &ScanContext) -> Seq<CandidateModel> {
        nothing()
            + weights_offer(
                ctx,
                "ml.huggingface"@,
                "Hugging Face model cache"@,
                join(ctx.paths@.cache_dir, "huggingface"@),
                "the Hugging Face Hub"@,
            )
            + weights_offer(
                ctx,
                "ml.huggingface"@,
                "Hugging Face model cache"@,
                join(ctx.paths@.home, ".cache/huggingface"@),
                "the Hugging Face Hub"@,
            )
            + weights_offer(
                ctx,
                "ml.torch"@,
                "PyTorch hub cache"@,
                join(ctx.paths@.cache_dir, "torch"@),
                "the PyTorch hub"@,
            )
            + weights_offer(
                ctx,
                "ml.ollama"@,
                "Ollama models"@,
                join(ctx.paths@.home, ".ollama/models"@),
                "the Ollama registry"@,
            )
    }

    fn id(&self) -> (s: &'static str) {
        "ml.models"
    }

    fn markers(&self) -> (v: Vec<&'static str>) {
        let v: Vec<&'static str> = Vec::new();
        assert(views(v@) =~= Seq::empty());
        v
    }

    fn discover(&self, ctx: &ScanContext) -> (out: Vec<Candidate>) {
        let mut out = start();
        offer(
            &mut out,
            weights(
                ctx,
                "ml.huggingface",
                "Hugging Face model cache",
                join_path(ctx.paths.cache_dir().as_str(), "huggingface").as_str(),
                "the Hugging Face Hub",
            ),
        );
        offer(
            &mut out,
            weights(
                ctx,
                "ml.huggingface",
                "Hugging Face model cache",
                ctx.paths.home_join(".cache/huggingface").as_str(),
                "the Hugging Face Hub",
            ),
        );
        offer(
            &mut out,
            weights(
                ctx,
                "ml.torch",
                "PyTorch hub cache",
                join_path(ctx.paths.cache_dir().as_str(), "torch").as_str(),
                "the PyTorch hub",
            ),
        );
        offer(
            &mut out,
            weights(
                ctx,
                "ml.ollama",
                "Ollama models",
                ctx.paths.home_join(".ollama/models").as_str(),
                "the Ollama registry",
            ),
        );
        out
    }
}

/// The providers of this module.
pub fn providers() -> (v: Vec<AnyProvider>)
    ensures
        v@ == seq![
            AnyProvider::DotNet(DotNet),
            AnyProvider::Ruby(Ruby),
            AnyProvider::Php(Php),
            AnyProvider::Dart(Dart),
            AnyProvider::BuildTools(BuildTools),
            AnyProvider::Editors(Editors),
            AnyProvider::System(System),
            AnyProvider::MachineLearning(MachineLearning),
        ],
{
    let v = vec![
        AnyProvider::DotNet(DotNet),
        AnyProvider::Ruby(Ruby),
        AnyProvider::Php(Php),
        AnyProvider::Dart(Dart),
        AnyProvider::BuildTools(BuildTools),
        AnyProvider::Editors(Editors),
        AnyProvider::System(System),
        AnyProvider::MachineLearning(MachineLearning),
    ];
    assert(
        v@ =~= seq![
            AnyProvider::DotNet(DotNet),
            AnyProvider::Ruby(Ruby),
            AnyProvider::Php(Php),
            AnyProvider::Dart(Dart),
            AnyProvider::BuildTools(BuildTools),
            AnyProvider::Editors(Editors),
            AnyProvider::System(System),
            AnyProvider::MachineLearning(MachineLearning),
        ]
    );
    v
}

} // verus!
