//! What every provider keeps to, whatever is on the machine.
use vstd::prelude::*;
use vstd::string::*;
use crate::discovery::marked_with;
use crate::model::{CandidateModel, Group, ProjectModel, Tier, built};
use crate::path::{extension, is_absolute, join, stem};
use crate::pipeline::{Provider, ScanContext};
use crate::providers::AnyProvider;
use crate::providers::support::{
    ProjectOffers, SubdirOffers, given, nothing, offers_in_all, offers_of_all,
};
use crate::text::views;
use crate::providers::node::{NodeCaches, NodeModules, modules_offer, pnpm_offer};
use crate::providers::python::{PythonCaches, PythonProjects, python_markers, venv_offer};
use crate::providers::rust::{RustCaches, RustTargets, Toolchain, toolchains_offer};
use crate::providers::jvm::{
    JvmCaches, JvmProjects, MAVEN_SCAN_BUDGET, dirs_below, jvm_markers, local_artifacts,
    repository_offer,
};
use crate::providers::go::GoCaches;
use crate::providers::apple::{
    CocoaPods, DeviceBackup, SimulatorRuntimes, XcodeArtifacts, pods_offer,
};
use crate::providers::android::{
    AndroidAvds, AndroidSdk, NdkVersion, SystemImage, VirtualDevice, ndks_offer,
};
use crate::providers::containers::{
    ContainerVms, Docker, dangling_images_offer, layer_cache_offer, unused_images_offer,
};
use crate::providers::misc::{
    BuildToolProjects, BuildTools, Dart, DartProjects, DotNet, DotNetProjects, Editors,
    MachineLearning, Php, PhpProjects, Ruby, RubyProjects, System, cmake_build_offer,
    editor_offer, vendored_gems_offer, vendored_packages_offer,
};
use crate::providers::ai_tools::{
    Automatic1111, ComfyUi, LocalAiTools, SillyTavern, all_thumbnails_offer,
};

verus! {

/// The base directories and the projects are given by absolute paths.
pub open spec fn is_rooted(ctx: &ScanContext) -> bool {
    let paths = ctx.paths@;
    &&& is_absolute(paths.home)
    &&& is_absolute(paths.cache_dir)
    &&& is_absolute(paths.cargo_home)
    &&& is_absolute(paths.go_build_cache)
    &&& is_absolute(paths.go_mod_cache)
    &&& is_absolute(paths.android_avd)
    &&& match paths.android_sdk {
        Some(sdk) => is_absolute(sdk),
        None => true,
    }
    &&& forall|i: int| 0 <= i < ctx.projects@.len() ==> is_absolute((#[trigger] ctx.projects@[i])@.path)
}

/// A candidate of a group says what it is and where, and why it needs caution where it does. What
/// never comes back is not called safe, and says so. It is not measured yet.
pub open spec fn is_explained(c: CandidateModel, group: Group) -> bool {
    &&& c.group == group
    &&& c.label.len() > 0
    &&& c.paths.len() > 0
    &&& forall|i: int| 0 <= i < c.paths.len() ==> is_absolute(#[trigger] c.paths[i])
    &&& c.tier == Tier::Caution ==> c.warnings.len() > 0
    &&& c.regen is Never ==> c.tier != Tier::Safe && c.warnings.len() > 0
    &&& c.size is None
    &&& c.signals is None
    &&& c.score is None
}

/// All of the candidates are explained.
#[verifier::opaque]
pub open spec fn all_explained(cs: Seq<CandidateModel>, group: Group) -> bool {
    forall|i: int| 0 <= i < cs.len() ==> is_explained(#[trigger] cs[i], group)
}

broadcast proof fn lemma_explained_none(group: Group)
    ensures
        #[trigger] all_explained(nothing(), group),
{
    reveal(all_explained);
}

broadcast proof fn lemma_explained_sum(
    a: Seq<CandidateModel>,
    b: Seq<CandidateModel>,
    group: Group,
)
    requires
        all_explained(a, group),
        all_explained(b, group),
    ensures
        #[trigger] all_explained(a + b, group),
{
    reveal(all_explained);
}

broadcast proof fn lemma_explained_given(there: bool, c: CandidateModel, group: Group)
    requires
        is_explained(c, group),
    ensures
        #[trigger] all_explained(given(there, c), group),
{
    reveal(all_explained);
    assert(is_explained(built(c), group)) by {
        assert(built(c).paths == c.paths);
    }
}

broadcast proof fn lemma_join_absolute(base: Seq<char>, rel: Seq<char>)
    requires
        is_absolute(base),
    ensures
        is_absolute(#[trigger] join(base, rel)),
{
}

proof fn lemma_explained_projects<B: ProjectOffers>(
    build: &B,
    ctx: &ScanContext,
    projects: Seq<ProjectModel>,
    group: Group,
)
    requires
        forall|i: int| 0 <= i < projects.len() ==> is_absolute((#[trigger] projects[i]).path),
        forall|p: ProjectModel|
            is_absolute(p.path) ==> all_explained(#[trigger] build.offers_in(ctx, p), group),
    ensures
        all_explained(offers_in_all(build, ctx, projects), group),
    decreases projects.len(),
{
    broadcast use {lemma_explained_none, lemma_explained_sum};

    if projects.len() > 0 {
        assert(is_absolute(projects[projects.len() - 1].path));
        lemma_explained_projects(build, ctx, projects.drop_last(), group);
    }
}

proof fn lemma_explained_subdirs<B: SubdirOffers>(
    build: &B,
    ctx: &ScanContext,
    dir: Seq<char>,
    names: Seq<Seq<char>>,
    group: Group,
)
    requires
        forall|name: Seq<char>|
            all_explained(#[trigger] build.offer_of(ctx, dir, name), group),
    ensures
        all_explained(offers_of_all(build, ctx, dir, names), group),
    decreases names.len(),
{
    broadcast use {lemma_explained_none, lemma_explained_sum};

    if names.len() > 0 {
        lemma_explained_subdirs(build, ctx, dir, names.drop_last(), group);
    }
}

/// Projects picked by their markers are among the projects.
proof fn lemma_marked_absolute(projects: Seq<ProjectModel>, markers: Seq<Seq<char>>)
    requires
        forall|i: int| 0 <= i < projects.len() ==> is_absolute((#[trigger] projects[i]).path),
    ensures
        forall|i: int|
            0 <= i < marked_with(projects, markers).len() ==> is_absolute(
                (#[trigger] marked_with(projects, markers)[i]).path,
            ),
    decreases projects.len(),
{
    if projects.len() > 0 {
        let fewer = projects.drop_last();
        assert forall|i: int| 0 <= i < fewer.len() implies is_absolute((#[trigger] fewer[i]).path) by {
            assert(is_absolute(projects[i].path));
        }
        assert(is_absolute(projects[projects.len() - 1].path));
        lemma_marked_absolute(fewer, markers);
        let before = marked_with(fewer, markers);
        let after = marked_with(projects, markers);
        assert forall|i: int| 0 <= i < after.len() implies is_absolute((#[trigger] after[i]).path) by {
            if i < before.len() {
                assert(after[i] == before[i]);
            }
        }
    }
}

proof fn lemma_rooted_projects(ctx: &ScanContext, markers: Seq<Seq<char>>)
    requires
        is_rooted(ctx),
    ensures
        forall|i: int|
            0 <= i < ctx.marked(markers).len() ==> is_absolute(
                (#[trigger] ctx.marked(markers)[i]).path,
            ),
{
    let all = views(ctx.projects@);
    assert forall|i: int| 0 <= i < all.len() implies is_absolute((#[trigger] all[i]).path) by {
        assert(is_absolute(ctx.projects@[i]@.path));
    }
    lemma_marked_absolute(all, markers);
}

proof fn lemma_node_modules(ctx: &ScanContext, project: ProjectModel)
    requires
        is_absolute(project.path),
    ensures
        all_explained(NodeModules.offers_in(ctx, project), Group::Node),
{
    broadcast use {
        lemma_explained_none,
        lemma_explained_sum,
        lemma_explained_given,
        lemma_join_absolute,
    };

    assert({
        &&& "Angular cache"@.len() > 0
        &&& "Next.js build output"@.len() > 0
        &&& "Nuxt build output"@.len() > 0
        &&& "Parcel cache"@.len() > 0
        &&& "SvelteKit build output"@.len() > 0
        &&& "Turborepo cache"@.len() > 0
        &&& "node_modules"@.len() > 0
    }) by {
        reveal_strlit("Angular cache");
        reveal_strlit("Next.js build output");
        reveal_strlit("Nuxt build output");
        reveal_strlit("Parcel cache");
        reveal_strlit("SvelteKit build output");
        reveal_strlit("Turborepo cache");
        reveal_strlit("node_modules");
    }
}

proof fn lemma_python_projects(ctx: &ScanContext, project: ProjectModel)
    requires
        is_absolute(project.path),
    ensures
        all_explained(PythonProjects.offers_in(ctx, project), Group::Python),
{
    broadcast use {
        lemma_explained_none,
        lemma_explained_sum,
        lemma_explained_given,
        lemma_join_absolute,
    };

    assert({
        &&& ".coverage_cache"@.len() > 0
        &&& ".ipynb_checkpoints"@.len() > 0
        &&& ".mypy_cache"@.len() > 0
        &&& ".nox"@.len() > 0
        &&& ".pytest_cache"@.len() > 0
        &&& ".ruff_cache"@.len() > 0
        &&& ".tox"@.len() > 0
        &&& ".venv"@.len() > 0
        &&& ".virtualenv"@.len() > 0
        &&& "Ruff cache"@.len() > 0
        &&& "__pycache__"@.len() > 0
        &&& "bytecode cache"@.len() > 0
        &&& "coverage cache"@.len() > 0
        &&& "env"@.len() > 0
        &&& "mypy cache"@.len() > 0
        &&& "notebook checkpoints"@.len() > 0
        &&& "nox environments"@.len() > 0
        &&& "pytest cache"@.len() > 0
        &&& "tox environments"@.len() > 0
        &&& "venv"@.len() > 0
        &&& "virtualenv"@.len() > 0
    }) by {
        reveal_strlit(".coverage_cache");
        reveal_strlit(".ipynb_checkpoints");
        reveal_strlit(".mypy_cache");
        reveal_strlit(".nox");
        reveal_strlit(".pytest_cache");
        reveal_strlit(".ruff_cache");
        reveal_strlit(".tox");
        reveal_strlit(".venv");
        reveal_strlit(".virtualenv");
        reveal_strlit("Ruff cache");
        reveal_strlit("__pycache__");
        reveal_strlit("bytecode cache");
        reveal_strlit("coverage cache");
        reveal_strlit("env");
        reveal_strlit("mypy cache");
        reveal_strlit("notebook checkpoints");
        reveal_strlit("nox environments");
        reveal_strlit("pytest cache");
        reveal_strlit("tox environments");
        reveal_strlit("venv");
        reveal_strlit("virtualenv");
    }
}

proof fn lemma_toolchain(ctx: &ScanContext, dir: Seq<char>, name: Seq<char>)
    requires
        is_absolute(dir),
    ensures
        all_explained(Toolchain.offer_of(ctx, dir, name), Group::Rust),
{
    broadcast use {
        lemma_explained_none,
        lemma_explained_sum,
        lemma_explained_given,
        lemma_join_absolute,
    };

    assert("rust toolchain: "@.len() > 0) by {
        reveal_strlit("rust toolchain: ");
    }
}

proof fn lemma_rust_targets(ctx: &ScanContext, project: ProjectModel)
    requires
        is_absolute(project.path),
    ensures
        all_explained(RustTargets.offers_in(ctx, project), Group::Rust),
{
    broadcast use {
        lemma_explained_none,
        lemma_explained_sum,
        lemma_explained_given,
        lemma_join_absolute,
    };

    assert("target/"@.len() > 0) by {
        reveal_strlit("target/");
    }
}

proof fn lemma_jvm_projects(ctx: &ScanContext, project: ProjectModel)
    requires
        is_absolute(project.path),
    ensures
        all_explained(JvmProjects.offers_in(ctx, project), Group::Jvm),
{
    broadcast use {
        lemma_explained_none,
        lemma_explained_sum,
        lemma_explained_given,
        lemma_join_absolute,
    };

    assert({
        &&& "Gradle build output"@.len() > 0
        &&& "IDE build output"@.len() > 0
        &&& "Maven build output"@.len() > 0
        &&& "build"@.len() > 0
        &&& "out"@.len() > 0
        &&& "project .gradle cache"@.len() > 0
        &&& "target"@.len() > 0
    }) by {
        reveal_strlit("Gradle build output");
        reveal_strlit("IDE build output");
        reveal_strlit("Maven build output");
        reveal_strlit("build");
        reveal_strlit("out");
        reveal_strlit("project .gradle cache");
        reveal_strlit("target");
    }
}

proof fn lemma_device_backup(ctx: &ScanContext, dir: Seq<char>, name: Seq<char>)
    requires
        is_absolute(dir),
    ensures
        all_explained(DeviceBackup.offer_of(ctx, dir, name), Group::Apple),
{
    broadcast use {
        lemma_explained_none,
        lemma_explained_sum,
        lemma_explained_given,
        lemma_join_absolute,
    };

    assert("iPhone/iPad backup "@.len() > 0) by {
        reveal_strlit("iPhone/iPad backup ");
    }
}

proof fn lemma_cocoa_pods(ctx: &ScanContext, project: ProjectModel)
    requires
        is_absolute(project.path),
    ensures
        all_explained(CocoaPods.offers_in(ctx, project), Group::Apple),
{
    broadcast use {
        lemma_explained_none,
        lemma_explained_sum,
        lemma_explained_given,
        lemma_join_absolute,
    };

    assert({
        &&& ".build"@.len() > 0
        &&& "Carthage build output"@.len() > 0
        &&& "DerivedData"@.len() > 0
        &&& "Pods/"@.len() > 0
        &&& "SwiftPM build output"@.len() > 0
        &&& "project DerivedData"@.len() > 0
    }) by {
        reveal_strlit(".build");
        reveal_strlit("Carthage build output");
        reveal_strlit("DerivedData");
        reveal_strlit("Pods/");
        reveal_strlit("SwiftPM build output");
        reveal_strlit("project DerivedData");
    }
}

proof fn lemma_system_image(ctx: &ScanContext, dir: Seq<char>, name: Seq<char>)
    requires
        is_absolute(dir),
    ensures
        all_explained(SystemImage.offer_of(ctx, dir, name), Group::Android),
{
    broadcast use {
        lemma_explained_none,
        lemma_explained_sum,
        lemma_explained_given,
        lemma_join_absolute,
    };

    assert("system image: "@.len() > 0) by {
        reveal_strlit("system image: ");
    }
}

proof fn lemma_ndk_version(ctx: &ScanContext, dir: Seq<char>, name: Seq<char>)
    requires
        is_absolute(dir),
    ensures
        all_explained(NdkVersion.offer_of(ctx, dir, name), Group::Android),
{
    broadcast use {
        lemma_explained_none,
        lemma_explained_sum,
        lemma_explained_given,
        lemma_join_absolute,
    };

    assert("NDK "@.len() > 0) by {
        reveal_strlit("NDK ");
    }
}

proof fn lemma_virtual_device(ctx: &ScanContext, dir: Seq<char>, name: Seq<char>)
    requires
        is_absolute(dir),
    ensures
        all_explained(VirtualDevice.offer_of(ctx, dir, name), Group::Android),
{
    broadcast use {
        lemma_explained_none,
        lemma_explained_sum,
        lemma_explained_given,
        lemma_join_absolute,
    };

    assert("emulator: "@.len() > 0) by {
        reveal_strlit("emulator: ");
    }
}

proof fn lemma_dot_net_projects(ctx: &ScanContext, project: ProjectModel)
    requires
        is_absolute(project.path),
    ensures
        all_explained(DotNetProjects.offers_in(ctx, project), Group::DotNet),
{
    broadcast use {
        lemma_explained_none,
        lemma_explained_sum,
        lemma_explained_given,
        lemma_join_absolute,
    };

    assert({
        &&& ".NET bin output"@.len() > 0
        &&& ".NET obj output"@.len() > 0
        &&& "bin"@.len() > 0
        &&& "obj"@.len() > 0
    }) by {
        reveal_strlit(".NET bin output");
        reveal_strlit(".NET obj output");
        reveal_strlit("bin");
        reveal_strlit("obj");
    }
}

proof fn lemma_ruby_projects(ctx: &ScanContext, project: ProjectModel)
    requires
        is_absolute(project.path),
    ensures
        all_explained(RubyProjects.offers_in(ctx, project), Group::Ruby),
{
    broadcast use {
        lemma_explained_none,
        lemma_explained_sum,
        lemma_explained_given,
        lemma_join_absolute,
    };

    assert("vendor/bundle"@.len() > 0) by {
        reveal_strlit("vendor/bundle");
    }
}

proof fn lemma_php_projects(ctx: &ScanContext, project: ProjectModel)
    requires
        is_absolute(project.path),
    ensures
        all_explained(PhpProjects.offers_in(ctx, project), Group::Php),
{
    broadcast use {
        lemma_explained_none,
        lemma_explained_sum,
        lemma_explained_given,
        lemma_join_absolute,
    };

    assert("vendor/"@.len() > 0) by {
        reveal_strlit("vendor/");
    }
}

proof fn lemma_dart_projects(ctx: &ScanContext, project: ProjectModel)
    requires
        is_absolute(project.path),
    ensures
        all_explained(DartProjects.offers_in(ctx, project), Group::Dart),
{
    broadcast use {
        lemma_explained_none,
        lemma_explained_sum,
        lemma_explained_given,
        lemma_join_absolute,
    };

    assert({
        &&& ".dart_tool"@.len() > 0
        &&& "Dart tool cache"@.len() > 0
        &&& "Flutter build output"@.len() > 0
        &&& "build"@.len() > 0
    }) by {
        reveal_strlit(".dart_tool");
        reveal_strlit("Dart tool cache");
        reveal_strlit("Flutter build output");
        reveal_strlit("build");
    }
}

proof fn lemma_build_tool_projects(ctx: &ScanContext, project: ProjectModel)
    requires
        is_absolute(project.path),
    ensures
        all_explained(BuildToolProjects.offers_in(ctx, project), Group::BuildTools),
{
    broadcast use {
        lemma_explained_none,
        lemma_explained_sum,
        lemma_explained_given,
        lemma_join_absolute,
    };

    assert("CMake build directory"@.len() > 0) by {
        reveal_strlit("CMake build directory");
    }
}

proof fn lemma_comfy_ui(ctx: &ScanContext, project: ProjectModel)
    requires
        is_absolute(project.path),
    ensures
        all_explained(ComfyUi.offers_in(ctx, project), Group::Ml),
{
    broadcast use {
        lemma_explained_none,
        lemma_explained_sum,
        lemma_explained_given,
        lemma_join_absolute,
    };

    assert({
        &&& "ComfyUI generated output"@.len() > 0
        &&& "ComfyUI models"@.len() > 0
    }) by {
        reveal_strlit("ComfyUI generated output");
        reveal_strlit("ComfyUI models");
    }
}

proof fn lemma_explained_thumbnails(
    ctx: &ScanContext,
    at: Seq<char>,
    dir: Seq<char>,
    profiles: Seq<Seq<char>>,
)
    requires
        is_absolute(dir),
    ensures
        all_explained(all_thumbnails_offer(ctx, at, dir, profiles), Group::Ml),
    decreases profiles.len(),
{
    broadcast use {
        lemma_explained_none,
        lemma_explained_sum,
        lemma_explained_given,
        lemma_join_absolute,
    };

    assert("SillyTavern thumbnail cache"@.len() > 0) by {
        reveal_strlit("SillyTavern thumbnail cache");
    }
    if profiles.len() > 0 {
        lemma_explained_thumbnails(ctx, at, dir, profiles.drop_last());
    }
}

proof fn lemma_silly_tavern(ctx: &ScanContext, project: ProjectModel)
    requires
        is_absolute(project.path),
    ensures
        all_explained(SillyTavern.offers_in(ctx, project), Group::Ml),
{
    broadcast use {
        lemma_explained_none,
        lemma_explained_sum,
        lemma_explained_given,
        lemma_join_absolute,
    };

    assert({
        &&& "SillyTavern content cache"@.len() > 0
        &&& "SillyTavern thumbnail cache"@.len() > 0
        &&& "SillyTavern upload cache"@.len() > 0
        &&& "SillyTavern webpack cache"@.len() > 0
        &&& "thumbnails"@.len() > 0
    }) by {
        reveal_strlit("SillyTavern content cache");
        reveal_strlit("SillyTavern thumbnail cache");
        reveal_strlit("SillyTavern upload cache");
        reveal_strlit("SillyTavern webpack cache");
        reveal_strlit("thumbnails");
    }
    let data = join(project.path, "data"@);
    lemma_explained_thumbnails(ctx, project.path, data, ctx.disk@.subdir_names(data));
}

proof fn lemma_automatic1111(ctx: &ScanContext, project: ProjectModel)
    requires
        is_absolute(project.path),
    ensures
        all_explained(Automatic1111.offers_in(ctx, project), Group::Ml),
{
    broadcast use {
        lemma_explained_none,
        lemma_explained_sum,
        lemma_explained_given,
        lemma_join_absolute,
    };

    assert({
        &&& "Stable Diffusion WebUI generated output"@.len() > 0
        &&& "Stable Diffusion WebUI models"@.len() > 0
    }) by {
        reveal_strlit("Stable Diffusion WebUI generated output");
        reveal_strlit("Stable Diffusion WebUI models");
    }
}

proof fn lemma_offers_of_node_caches(ctx: &ScanContext)
    requires
        is_rooted(ctx),
    ensures
        all_explained(NodeCaches.offers(ctx), Group::Node),
{
    broadcast use {
        lemma_explained_none,
        lemma_explained_sum,
        lemma_explained_given,
        lemma_join_absolute,
    };

    assert({
        &&& ".pnpm-store"@.len() > 0
        &&& "Bun install cache"@.len() > 0
        &&& "Cypress"@.len() > 0
        &&& "Cypress binaries"@.len() > 0
        &&& "Electron binaries"@.len() > 0
        &&& "Playwright CDN"@.len() > 0
        &&& "Playwright browsers"@.len() > 0
        &&& "Puppeteer browsers"@.len() > 0
        &&& "Yarn"@.len() > 0
        &&& "Yarn Berry cache"@.len() > 0
        &&& "Yarn global cache"@.len() > 0
        &&& "Yarn v1 cache"@.len() > 0
        &&& "electron"@.len() > 0
        &&& "ms-playwright"@.len() > 0
        &&& "node-gyp headers"@.len() > 0
        &&& "node.cypress"@.len() > 0
        &&& "node.electron"@.len() > 0
        &&& "node.playwright"@.len() > 0
        &&& "node.puppeteer"@.len() > 0
        &&& "npm cache"@.len() > 0
        &&& "pnpm content-addressable store"@.len() > 0
        &&& "puppeteer"@.len() > 0
        &&& "the Chromium CDN"@.len() > 0
        &&& "the Cypress CDN"@.len() > 0
        &&& "the Electron CDN"@.len() > 0
    }) by {
        reveal_strlit(".pnpm-store");
        reveal_strlit("Bun install cache");
        reveal_strlit("Cypress");
        reveal_strlit("Cypress binaries");
        reveal_strlit("Electron binaries");
        reveal_strlit("Playwright CDN");
        reveal_strlit("Playwright browsers");
        reveal_strlit("Puppeteer browsers");
        reveal_strlit("Yarn");
        reveal_strlit("Yarn Berry cache");
        reveal_strlit("Yarn global cache");
        reveal_strlit("Yarn v1 cache");
        reveal_strlit("electron");
        reveal_strlit("ms-playwright");
        reveal_strlit("node-gyp headers");
        reveal_strlit("node.cypress");
        reveal_strlit("node.electron");
        reveal_strlit("node.playwright");
        reveal_strlit("node.puppeteer");
        reveal_strlit("npm cache");
        reveal_strlit("pnpm content-addressable store");
        reveal_strlit("puppeteer");
        reveal_strlit("the Chromium CDN");
        reveal_strlit("the Cypress CDN");
        reveal_strlit("the Electron CDN");
    }
}

proof fn lemma_offers_of_node_modules(ctx: &ScanContext)
    requires
        is_rooted(ctx),
    ensures
        all_explained(NodeModules.offers(ctx), Group::Node),
{
    broadcast use {
        lemma_explained_none,
        lemma_explained_sum,
        lemma_explained_given,
        lemma_join_absolute,
    };

    lemma_rooted_projects(ctx, seq!["package.json"@]);
    assert forall|p: ProjectModel| is_absolute(p.path) implies all_explained(
        #[trigger] NodeModules.offers_in(ctx, p),
        Group::Node,
    ) by {
        lemma_node_modules(ctx, p);
    }
    lemma_explained_projects(&NodeModules, ctx, ctx.marked(seq!["package.json"@]), Group::Node);
}

proof fn lemma_offers_of_python_caches(ctx: &ScanContext)
    requires
        is_rooted(ctx),
    ensures
        all_explained(PythonCaches.offers(ctx), Group::Python),
{
    broadcast use {
        lemma_explained_none,
        lemma_explained_sum,
        lemma_explained_given,
        lemma_join_absolute,
    };

    assert({
        &&& " package cache"@.len() > 0
        &&& "Pipenv cache"@.len() > 0
        &&& "Poetry cache"@.len() > 0
        &&& "Poetry virtualenvs"@.len() > 0
        &&& "anaconda3"@.len() > 0
        &&& "mambaforge"@.len() > 0
        &&& "miniconda3"@.len() > 0
        &&& "miniforge3"@.len() > 0
        &&& "pip"@.len() > 0
        &&& "pip download cache"@.len() > 0
        &&& "pipenv"@.len() > 0
        &&& "pre-commit"@.len() > 0
        &&& "pre-commit hook environments"@.len() > 0
        &&& "pypoetry"@.len() > 0
        &&& "python.pip-cache"@.len() > 0
        &&& "python.pipenv-cache"@.len() > 0
        &&& "python.poetry-cache"@.len() > 0
        &&& "python.pre-commit"@.len() > 0
        &&& "python.uv-cache"@.len() > 0
        &&& "uv"@.len() > 0
        &&& "uv cache"@.len() > 0
    }) by {
        reveal_strlit(" package cache");
        reveal_strlit("Pipenv cache");
        reveal_strlit("Poetry cache");
        reveal_strlit("Poetry virtualenvs");
        reveal_strlit("anaconda3");
        reveal_strlit("mambaforge");
        reveal_strlit("miniconda3");
        reveal_strlit("miniforge3");
        reveal_strlit("pip");
        reveal_strlit("pip download cache");
        reveal_strlit("pipenv");
        reveal_strlit("pre-commit");
        reveal_strlit("pre-commit hook environments");
        reveal_strlit("pypoetry");
        reveal_strlit("python.pip-cache");
        reveal_strlit("python.pipenv-cache");
        reveal_strlit("python.poetry-cache");
        reveal_strlit("python.pre-commit");
        reveal_strlit("python.uv-cache");
        reveal_strlit("uv");
        reveal_strlit("uv cache");
    }
}

proof fn lemma_offers_of_python_projects(ctx: &ScanContext)
    requires
        is_rooted(ctx),
    ensures
        all_explained(PythonProjects.offers(ctx), Group::Python),
{
    broadcast use {
        lemma_explained_none,
        lemma_explained_sum,
        lemma_explained_given,
        lemma_join_absolute,
    };

    lemma_rooted_projects(ctx, python_markers());
    assert forall|p: ProjectModel| is_absolute(p.path) implies all_explained(
        #[trigger] PythonProjects.offers_in(ctx, p),
        Group::Python,
    ) by {
        lemma_python_projects(ctx, p);
    }
    lemma_explained_projects(&PythonProjects, ctx, ctx.marked(python_markers()), Group::Python);
}

proof fn lemma_offers_of_rust_caches(ctx: &ScanContext)
    requires
        is_rooted(ctx),
    ensures
        all_explained(RustCaches.offers(ctx), Group::Rust),
{
    broadcast use {
        lemma_explained_none,
        lemma_explained_sum,
        lemma_explained_given,
        lemma_join_absolute,
    };

    assert({
        &&& "cargo git checkouts"@.len() > 0
        &&& "cargo registry archives"@.len() > 0
        &&& "cargo registry sources"@.len() > 0
        &&& "rust.rustup-downloads"@.len() > 0
        &&& "rust.rustup-tmp"@.len() > 0
        &&& "rust.sccache"@.len() > 0
        &&& "rustup downloads"@.len() > 0
        &&& "rustup temp files"@.len() > 0
        &&& "sccache"@.len() > 0
    }) by {
        reveal_strlit("cargo git checkouts");
        reveal_strlit("cargo registry archives");
        reveal_strlit("cargo registry sources");
        reveal_strlit("rust.rustup-downloads");
        reveal_strlit("rust.rustup-tmp");
        reveal_strlit("rust.sccache");
        reveal_strlit("rustup downloads");
        reveal_strlit("rustup temp files");
        reveal_strlit("sccache");
    }
    let dir = join(ctx.paths@.home, ".rustup/toolchains"@);
    assert forall|name: Seq<char>| all_explained(
        #[trigger] Toolchain.offer_of(ctx, dir, name),
        Group::Rust,
    ) by {
        lemma_toolchain(ctx, dir, name);
    }
    lemma_explained_subdirs(&Toolchain, ctx, dir, ctx.disk@.subdir_names(dir), Group::Rust);
}

proof fn lemma_offers_of_rust_targets(ctx: &ScanContext)
    requires
        is_rooted(ctx),
    ensures
        all_explained(RustTargets.offers(ctx), Group::Rust),
{
    broadcast use {
        lemma_explained_none,
        lemma_explained_sum,
        lemma_explained_given,
        lemma_join_absolute,
    };

    lemma_rooted_projects(ctx, seq!["Cargo.toml"@]);
    assert forall|p: ProjectModel| is_absolute(p.path) implies all_explained(
        #[trigger] RustTargets.offers_in(ctx, p),
        Group::Rust,
    ) by {
        lemma_rust_targets(ctx, p);
    }
    lemma_explained_projects(&RustTargets, ctx, ctx.marked(seq!["Cargo.toml"@]), Group::Rust);
}

proof fn lemma_offers_of_jvm_caches(ctx: &ScanContext)
    requires
        is_rooted(ctx),
    ensures
        all_explained(JvmCaches.offers(ctx), Group::Jvm),
{
    broadcast use {
        lemma_explained_none,
        lemma_explained_sum,
        lemma_explained_given,
        lemma_join_absolute,
    };

    assert({
        &&& ".konan"@.len() > 0
        &&& "Coursier"@.len() > 0
        &&& "Coursier cache"@.len() > 0
        &&& "Daemon logs and registry files."@.len() > 0
        &&& "Downloaded Gradle distributions, one per version any project has used."@.len() > 0
        &&& "Downloaded dependencies and build caches."@.len() > 0
        &&& "Gradle caches"@.len() > 0
        &&& "Gradle daemon logs"@.len() > 0
        &&& "Gradle native binaries"@.len() > 0
        &&& "Gradle wrapper distributions"@.len() > 0
        &&& "Ivy cache"@.len() > 0
        &&& "Kotlin/Native dependencies"@.len() > 0
        &&& "Maven local repository"@.len() > 0
        &&& "Platform helper binaries."@.len() > 0
        &&& "jvm.coursier"@.len() > 0
        &&& "jvm.gradle-caches"@.len() > 0
        &&& "jvm.gradle-daemon"@.len() > 0
        &&& "jvm.gradle-native"@.len() > 0
        &&& "jvm.gradle-wrapper"@.len() > 0
        &&& "jvm.ivy"@.len() > 0
        &&& "jvm.konan"@.len() > 0
        &&& "jvm.sbt"@.len() > 0
        &&& "sbt boot and cache"@.len() > 0
    }) by {
        reveal_strlit(".konan");
        reveal_strlit("Coursier");
        reveal_strlit("Coursier cache");
        reveal_strlit("Daemon logs and registry files.");
        reveal_strlit("Downloaded Gradle distributions, one per version any project has used.");
        reveal_strlit("Downloaded dependencies and build caches.");
        reveal_strlit("Gradle caches");
        reveal_strlit("Gradle daemon logs");
        reveal_strlit("Gradle native binaries");
        reveal_strlit("Gradle wrapper distributions");
        reveal_strlit("Ivy cache");
        reveal_strlit("Kotlin/Native dependencies");
        reveal_strlit("Maven local repository");
        reveal_strlit("Platform helper binaries.");
        reveal_strlit("jvm.coursier");
        reveal_strlit("jvm.gradle-caches");
        reveal_strlit("jvm.gradle-daemon");
        reveal_strlit("jvm.gradle-native");
        reveal_strlit("jvm.gradle-wrapper");
        reveal_strlit("jvm.ivy");
        reveal_strlit("jvm.konan");
        reveal_strlit("jvm.sbt");
        reveal_strlit("sbt boot and cache");
    }
}

proof fn lemma_offers_of_jvm_projects(ctx: &ScanContext)
    requires
        is_rooted(ctx),
    ensures
        all_explained(JvmProjects.offers(ctx), Group::Jvm),
{
    broadcast use {
        lemma_explained_none,
        lemma_explained_sum,
        lemma_explained_given,
        lemma_join_absolute,
    };

    lemma_rooted_projects(ctx, jvm_markers());
    assert forall|p: ProjectModel| is_absolute(p.path) implies all_explained(
        #[trigger] JvmProjects.offers_in(ctx, p),
        Group::Jvm,
    ) by {
        lemma_jvm_projects(ctx, p);
    }
    lemma_explained_projects(&JvmProjects, ctx, ctx.marked(jvm_markers()), Group::Jvm);
}

proof fn lemma_offers_of_go_caches(ctx: &ScanContext)
    requires
        is_rooted(ctx),
    ensures
        all_explained(GoCaches.offers(ctx), Group::Go),
{
    broadcast use {
        lemma_explained_none,
        lemma_explained_sum,
        lemma_explained_given,
        lemma_join_absolute,
    };

    assert({
        &&& "Go build cache"@.len() > 0
        &&& "Go module cache"@.len() > 0
    }) by {
        reveal_strlit("Go build cache");
        reveal_strlit("Go module cache");
    }
}

proof fn lemma_offers_of_xcode_artifacts(ctx: &ScanContext)
    requires
        is_rooted(ctx),
    ensures
        all_explained(XcodeArtifacts.offers(ctx), Group::Apple),
{
    broadcast use {
        lemma_explained_none,
        lemma_explained_sum,
        lemma_explained_given,
        lemma_join_absolute,
    };

    assert({
        &&& " DeviceSupport"@.len() > 0
        &&& "Cloned and resolved Swift package dependencies."@.len() > 0
        &&& "CocoaPods cache"@.len() > 0
        &&& "Simulator caches"@.len() > 0
        &&& "Simulator runtime scratch data."@.len() > 0
        &&& "SwiftPM cache"@.len() > 0
        &&& "Xcode Archives"@.len() > 0
        &&& "Xcode DerivedData"@.len() > 0
        &&& "Xcode caches"@.len() > 0
        &&& "Xcode's own scratch caches."@.len() > 0
        &&& "apple.simulator-caches"@.len() > 0
        &&& "apple.swiftpm-cache"@.len() > 0
        &&& "apple.xcode-caches"@.len() > 0
        &&& "com.apple.dt.Xcode"@.len() > 0
        &&& "iOS"@.len() > 0
        &&& "org.swift.swiftpm"@.len() > 0
        &&& "tvOS"@.len() > 0
        &&& "visionOS"@.len() > 0
        &&& "watchOS"@.len() > 0
    }) by {
        reveal_strlit(" DeviceSupport");
        reveal_strlit("Cloned and resolved Swift package dependencies.");
        reveal_strlit("CocoaPods cache");
        reveal_strlit("Simulator caches");
        reveal_strlit("Simulator runtime scratch data.");
        reveal_strlit("SwiftPM cache");
        reveal_strlit("Xcode Archives");
        reveal_strlit("Xcode DerivedData");
        reveal_strlit("Xcode caches");
        reveal_strlit("Xcode's own scratch caches.");
        reveal_strlit("apple.simulator-caches");
        reveal_strlit("apple.swiftpm-cache");
        reveal_strlit("apple.xcode-caches");
        reveal_strlit("com.apple.dt.Xcode");
        reveal_strlit("iOS");
        reveal_strlit("org.swift.swiftpm");
        reveal_strlit("tvOS");
        reveal_strlit("visionOS");
        reveal_strlit("watchOS");
    }
    let dir = join(ctx.paths@.home, "Library/Application Support/MobileSync/Backup"@);
    assert forall|name: Seq<char>| all_explained(
        #[trigger] DeviceBackup.offer_of(ctx, dir, name),
        Group::Apple,
    ) by {
        lemma_device_backup(ctx, dir, name);
    }
    lemma_explained_subdirs(&DeviceBackup, ctx, dir, ctx.disk@.subdir_names(dir), Group::Apple);
}

proof fn lemma_offers_of_simulator_runtimes(ctx: &ScanContext)
    requires
        is_rooted(ctx),
    ensures
        all_explained(SimulatorRuntimes.offers(ctx), Group::Apple),
{
    broadcast use {
        lemma_explained_none,
        lemma_explained_sum,
        lemma_explained_given,
        lemma_join_absolute,
    };

    assert({
        &&& "All simulator devices"@.len() > 0
        &&& "Unavailable simulator devices"@.len() > 0
    }) by {
        reveal_strlit("All simulator devices");
        reveal_strlit("Unavailable simulator devices");
    }
}

proof fn lemma_offers_of_cocoa_pods(ctx: &ScanContext)
    requires
        is_rooted(ctx),
    ensures
        all_explained(CocoaPods.offers(ctx), Group::Apple),
{
    broadcast use {
        lemma_explained_none,
        lemma_explained_sum,
        lemma_explained_given,
        lemma_join_absolute,
    };

    lemma_rooted_projects(ctx, seq!["Podfile"@, "Package.swift"@, "Cartfile"@]);
    assert forall|p: ProjectModel| is_absolute(p.path) implies all_explained(
        #[trigger] CocoaPods.offers_in(ctx, p),
        Group::Apple,
    ) by {
        lemma_cocoa_pods(ctx, p);
    }
    lemma_explained_projects(
        &CocoaPods,
        ctx,
        ctx.marked(seq!["Podfile"@, "Package.swift"@, "Cartfile"@]),
        Group::Apple,
    );
}

proof fn lemma_offers_of_android_sdk(ctx: &ScanContext)
    requires
        is_rooted(ctx),
    ensures
        all_explained(AndroidSdk.offers(ctx), Group::Android),
{
    broadcast use {
        lemma_explained_none,
        lemma_explained_sum,
        lemma_explained_given,
        lemma_join_absolute,
    };

    assert({
        &&& "Android SDK cache"@.len() > 0
        &&& "Android build cache"@.len() > 0
        &&& "Emulator temp files"@.len() > 0
        &&& "android.build-cache"@.len() > 0
        &&& "android.cache"@.len() > 0
    }) by {
        reveal_strlit("Android SDK cache");
        reveal_strlit("Android build cache");
        reveal_strlit("Emulator temp files");
        reveal_strlit("android.build-cache");
        reveal_strlit("android.cache");
    }
    let sdk = ctx.paths@.android_sdk->0;
    if ctx.paths@.android_sdk is Some {
        let dir = join(sdk, "system-images"@);
        assert forall|name: Seq<char>| all_explained(
            #[trigger] SystemImage.offer_of(ctx, dir, name),
            Group::Android,
        ) by {
            lemma_system_image(ctx, dir, name);
        }
        lemma_explained_subdirs(
            &SystemImage,
            ctx,
            dir,
            ctx.disk@.subdir_names(dir),
            Group::Android,
        );
    }
    if ctx.paths@.android_sdk is Some {
        let dir = join(sdk, "ndk"@);
        assert forall|name: Seq<char>| all_explained(
            #[trigger] NdkVersion.offer_of(ctx, dir, name),
            Group::Android,
        ) by {
            lemma_ndk_version(ctx, dir, name);
        }
        lemma_explained_subdirs(&NdkVersion, ctx, dir, ctx.disk@.subdir_names(dir), Group::Android);
    }
}

proof fn lemma_offers_of_android_avds(ctx: &ScanContext)
    requires
        is_rooted(ctx),
    ensures
        all_explained(AndroidAvds.offers(ctx), Group::Android),
{
    broadcast use {
        lemma_explained_none,
        lemma_explained_sum,
        lemma_explained_given,
        lemma_join_absolute,
    };

    let dir = ctx.paths@.android_avd;
    assert forall|name: Seq<char>| all_explained(
        #[trigger] VirtualDevice.offer_of(ctx, dir, name),
        Group::Android,
    ) by {
        lemma_virtual_device(ctx, dir, name);
    }
    lemma_explained_subdirs(&VirtualDevice, ctx, dir, ctx.disk@.subdir_names(dir), Group::Android);
}

proof fn lemma_offers_of_docker(ctx: &ScanContext)
    requires
        is_rooted(ctx),
    ensures
        all_explained(Docker.offers(ctx), Group::Containers),
{
    broadcast use {
        lemma_explained_none,
        lemma_explained_sum,
        lemma_explained_given,
        lemma_join_absolute,
    };

    assert({
        &&& "All unused Docker images"@.len() > 0
        &&& "Dangling Docker images"@.len() > 0
        &&& "Docker build cache"@.len() > 0
        &&& "Unused Docker volumes"@.len() > 0
    }) by {
        reveal_strlit("All unused Docker images");
        reveal_strlit("Dangling Docker images");
        reveal_strlit("Docker build cache");
        reveal_strlit("Unused Docker volumes");
    }
}

proof fn lemma_offers_of_container_vms(ctx: &ScanContext)
    requires
        is_rooted(ctx),
    ensures
        all_explained(ContainerVms.offers(ctx), Group::Containers),
{
    broadcast use {
        lemma_explained_none,
        lemma_explained_sum,
        lemma_explained_given,
        lemma_join_absolute,
    };

    assert({
        &&& ".colima"@.len() > 0
        &&& ".lima"@.len() > 0
        &&& "Colima VM data"@.len() > 0
        &&& "Docker Desktop data"@.len() > 0
        &&& "Docker Desktop disk image"@.len() > 0
        &&& "Lima VM data"@.len() > 0
        &&& "Podman machine data"@.len() > 0
        &&& "containers.colima"@.len() > 0
        &&& "containers.lima"@.len() > 0
        &&& "containers.podman"@.len() > 0
    }) by {
        reveal_strlit(".colima");
        reveal_strlit(".lima");
        reveal_strlit("Colima VM data");
        reveal_strlit("Docker Desktop data");
        reveal_strlit("Docker Desktop disk image");
        reveal_strlit("Lima VM data");
        reveal_strlit("Podman machine data");
        reveal_strlit("containers.colima");
        reveal_strlit("containers.lima");
        reveal_strlit("containers.podman");
    }
}

proof fn lemma_offers_of_dot_net(ctx: &ScanContext)
    requires
        is_rooted(ctx),
    ensures
        all_explained(DotNet.offers(ctx), Group::DotNet),
{
    broadcast use {
        lemma_explained_none,
        lemma_explained_sum,
        lemma_explained_given,
        lemma_join_absolute,
    };

    assert({
        &&& "NuGet HTTP cache"@.len() > 0
        &&& "NuGet package cache"@.len() > 0
    }) by {
        reveal_strlit("NuGet HTTP cache");
        reveal_strlit("NuGet package cache");
    }
    lemma_rooted_projects(ctx, seq!["Directory.Build.props"@, "*.csproj"@, "*.sln"@]);
    assert forall|p: ProjectModel| is_absolute(p.path) implies all_explained(
        #[trigger] DotNetProjects.offers_in(ctx, p),
        Group::DotNet,
    ) by {
        lemma_dot_net_projects(ctx, p);
    }
    lemma_explained_projects(
        &DotNetProjects,
        ctx,
        ctx.marked(seq!["Directory.Build.props"@, "*.csproj"@, "*.sln"@]),
        Group::DotNet,
    );
}

proof fn lemma_offers_of_ruby(ctx: &ScanContext)
    requires
        is_rooted(ctx),
    ensures
        all_explained(Ruby.offers(ctx), Group::Ruby),
{
    broadcast use {
        lemma_explained_none,
        lemma_explained_sum,
        lemma_explained_given,
        lemma_join_absolute,
    };

    assert({
        &&& "Bundler cache"@.len() > 0
        &&& "RubyGems cache"@.len() > 0
    }) by {
        reveal_strlit("Bundler cache");
        reveal_strlit("RubyGems cache");
    }
    lemma_rooted_projects(ctx, seq!["Gemfile"@]);
    assert forall|p: ProjectModel| is_absolute(p.path) implies all_explained(
        #[trigger] RubyProjects.offers_in(ctx, p),
        Group::Ruby,
    ) by {
        lemma_ruby_projects(ctx, p);
    }
    lemma_explained_projects(&RubyProjects, ctx, ctx.marked(seq!["Gemfile"@]), Group::Ruby);
}

proof fn lemma_offers_of_php(ctx: &ScanContext)
    requires
        is_rooted(ctx),
    ensures
        all_explained(Php.offers(ctx), Group::Php),
{
    broadcast use {
        lemma_explained_none,
        lemma_explained_sum,
        lemma_explained_given,
        lemma_join_absolute,
    };

    assert({
        &&& "Composer cache"@.len() > 0
        &&& "composer"@.len() > 0
    }) by {
        reveal_strlit("Composer cache");
        reveal_strlit("composer");
    }
    lemma_rooted_projects(ctx, seq!["composer.json"@]);
    assert forall|p: ProjectModel| is_absolute(p.path) implies all_explained(
        #[trigger] PhpProjects.offers_in(ctx, p),
        Group::Php,
    ) by {
        lemma_php_projects(ctx, p);
    }
    lemma_explained_projects(&PhpProjects, ctx, ctx.marked(seq!["composer.json"@]), Group::Php);
}

proof fn lemma_offers_of_dart(ctx: &ScanContext)
    requires
        is_rooted(ctx),
    ensures
        all_explained(Dart.offers(ctx), Group::Dart),
{
    broadcast use {
        lemma_explained_none,
        lemma_explained_sum,
        lemma_explained_given,
        lemma_join_absolute,
    };

    assert({
        &&& "Flutter engine cache"@.len() > 0
        &&& "Pub package cache"@.len() > 0
    }) by {
        reveal_strlit("Flutter engine cache");
        reveal_strlit("Pub package cache");
    }
    lemma_rooted_projects(ctx, seq!["pubspec.yaml"@]);
    assert forall|p: ProjectModel| is_absolute(p.path) implies all_explained(
        #[trigger] DartProjects.offers_in(ctx, p),
        Group::Dart,
    ) by {
        lemma_dart_projects(ctx, p);
    }
    lemma_explained_projects(&DartProjects, ctx, ctx.marked(seq!["pubspec.yaml"@]), Group::Dart);
}

proof fn lemma_offers_of_build_tools(ctx: &ScanContext)
    requires
        is_rooted(ctx),
    ensures
        all_explained(BuildTools.offers(ctx), Group::BuildTools),
{
    broadcast use {
        lemma_explained_none,
        lemma_explained_sum,
        lemma_explained_given,
        lemma_join_absolute,
    };

    assert({
        &&& ".ccache"@.len() > 0
        &&& "Bazel disk cache"@.len() > 0
        &&& "Bazelisk downloads"@.len() > 0
        &&& "Zig cache"@.len() > 0
        &&& "bazel"@.len() > 0
        &&& "bazelisk"@.len() > 0
        &&& "buildtools.bazel"@.len() > 0
        &&& "buildtools.bazelisk"@.len() > 0
        &&& "buildtools.ccache"@.len() > 0
        &&& "buildtools.zig"@.len() > 0
        &&& "ccache"@.len() > 0
        &&& "zig"@.len() > 0
    }) by {
        reveal_strlit(".ccache");
        reveal_strlit("Bazel disk cache");
        reveal_strlit("Bazelisk downloads");
        reveal_strlit("Zig cache");
        reveal_strlit("bazel");
        reveal_strlit("bazelisk");
        reveal_strlit("buildtools.bazel");
        reveal_strlit("buildtools.bazelisk");
        reveal_strlit("buildtools.ccache");
        reveal_strlit("buildtools.zig");
        reveal_strlit("ccache");
        reveal_strlit("zig");
    }
    lemma_rooted_projects(ctx, seq!["CMakeLists.txt"@, "WORKSPACE"@, "MODULE.bazel"@]);
    assert forall|p: ProjectModel| is_absolute(p.path) implies all_explained(
        #[trigger] BuildToolProjects.offers_in(ctx, p),
        Group::BuildTools,
    ) by {
        lemma_build_tool_projects(ctx, p);
    }
    lemma_explained_projects(
        &BuildToolProjects,
        ctx,
        ctx.marked(seq!["CMakeLists.txt"@, "WORKSPACE"@, "MODULE.bazel"@]),
        Group::BuildTools,
    );
}

proof fn lemma_editor(ctx: &ScanContext, editor: Seq<char>)
    requires
        is_rooted(ctx),
        editor.len() > 0,
    ensures
        all_explained(editor_offer(ctx, editor), Group::Editors),
{
    broadcast use {
        lemma_explained_none,
        lemma_explained_sum,
        lemma_explained_given,
        lemma_join_absolute,
    };

}

proof fn lemma_offers_of_editors(ctx: &ScanContext)
    requires
        is_rooted(ctx),
    ensures
        all_explained(Editors.offers(ctx), Group::Editors),
{
    broadcast use {
        lemma_explained_none,
        lemma_explained_sum,
        lemma_explained_given,
        lemma_join_absolute,
    };

    assert({
        &&& "Code"@.len() > 0
        &&& "Code - Insiders"@.len() > 0
        &&& "Cursor"@.len() > 0
        &&& "JetBrains caches"@.len() > 0
        &&& "JetBrains logs"@.len() > 0
        &&& "VSCodium"@.len() > 0
        &&& "Windsurf"@.len() > 0
    }) by {
        reveal_strlit("Code");
        reveal_strlit("Code - Insiders");
        reveal_strlit("Cursor");
        reveal_strlit("JetBrains caches");
        reveal_strlit("JetBrains logs");
        reveal_strlit("VSCodium");
        reveal_strlit("Windsurf");
    }
    lemma_editor(ctx, "Code"@);
    lemma_editor(ctx, "Cursor"@);
    lemma_editor(ctx, "VSCodium"@);
    lemma_editor(ctx, "Code - Insiders"@);
    lemma_editor(ctx, "Windsurf"@);
}

proof fn lemma_offers_of_system(ctx: &ScanContext)
    requires
        is_rooted(ctx),
    ensures
        all_explained(System.offers(ctx), Group::System),
{
    broadcast use {
        lemma_explained_none,
        lemma_explained_sum,
        lemma_explained_given,
        lemma_join_absolute,
    };

    assert({
        &&& "Application logs"@.len() > 0
        &&& "Crash reports"@.len() > 0
        &&& "Homebrew downloads and old versions"@.len() > 0
        &&& "Nix store garbage"@.len() > 0
        &&& "system.crash-reports"@.len() > 0
        &&& "system.logs"@.len() > 0
    }) by {
        reveal_strlit("Application logs");
        reveal_strlit("Crash reports");
        reveal_strlit("Homebrew downloads and old versions");
        reveal_strlit("Nix store garbage");
        reveal_strlit("system.crash-reports");
        reveal_strlit("system.logs");
    }
}

proof fn lemma_offers_of_machine_learning(ctx: &ScanContext)
    requires
        is_rooted(ctx),
    ensures
        all_explained(MachineLearning.offers(ctx), Group::Ml),
{
    broadcast use {
        lemma_explained_none,
        lemma_explained_sum,
        lemma_explained_given,
        lemma_join_absolute,
    };

    assert({
        &&& "Hugging Face model cache"@.len() > 0
        &&& "Ollama models"@.len() > 0
        &&& "PyTorch hub cache"@.len() > 0
        &&& "huggingface"@.len() > 0
        &&& "ml.huggingface"@.len() > 0
        &&& "ml.ollama"@.len() > 0
        &&& "ml.torch"@.len() > 0
        &&& "the Hugging Face Hub"@.len() > 0
        &&& "the Ollama registry"@.len() > 0
        &&& "the PyTorch hub"@.len() > 0
        &&& "torch"@.len() > 0
    }) by {
        reveal_strlit("Hugging Face model cache");
        reveal_strlit("Ollama models");
        reveal_strlit("PyTorch hub cache");
        reveal_strlit("huggingface");
        reveal_strlit("ml.huggingface");
        reveal_strlit("ml.ollama");
        reveal_strlit("ml.torch");
        reveal_strlit("the Hugging Face Hub");
        reveal_strlit("the Ollama registry");
        reveal_strlit("the PyTorch hub");
        reveal_strlit("torch");
    }
}

proof fn lemma_offers_of_local_models(ctx: &ScanContext)
    requires
        is_rooted(ctx),
    ensures
        all_explained(crate::providers::ai_tools::MachineLearning.offers(ctx), Group::Ml),
{
    broadcast use {
        lemma_explained_none,
        lemma_explained_sum,
        lemma_explained_given,
        lemma_join_absolute,
    };

    assert({
        &&& "Hugging Face model cache"@.len() > 0
        &&& "LM Studio"@.len() > 0
        &&& "LM Studio model cache"@.len() > 0
        &&& "LM Studio models"@.len() > 0
        &&& "Ollama"@.len() > 0
        &&& "Ollama models"@.len() > 0
        &&& "PyTorch hub cache"@.len() > 0
        &&& "huggingface"@.len() > 0
        &&& "ml.huggingface"@.len() > 0
        &&& "ml.lmstudio"@.len() > 0
        &&& "ml.ollama"@.len() > 0
        &&& "ml.torch"@.len() > 0
        &&& "the Hugging Face Hub"@.len() > 0
        &&& "the LM Studio model catalog"@.len() > 0
        &&& "the Ollama registry"@.len() > 0
        &&& "the PyTorch hub"@.len() > 0
        &&& "torch"@.len() > 0
    }) by {
        reveal_strlit("Hugging Face model cache");
        reveal_strlit("LM Studio");
        reveal_strlit("LM Studio model cache");
        reveal_strlit("LM Studio models");
        reveal_strlit("Ollama");
        reveal_strlit("Ollama models");
        reveal_strlit("PyTorch hub cache");
        reveal_strlit("huggingface");
        reveal_strlit("ml.huggingface");
        reveal_strlit("ml.lmstudio");
        reveal_strlit("ml.ollama");
        reveal_strlit("ml.torch");
        reveal_strlit("the Hugging Face Hub");
        reveal_strlit("the LM Studio model catalog");
        reveal_strlit("the Ollama registry");
        reveal_strlit("the PyTorch hub");
        reveal_strlit("torch");
    }
}

proof fn lemma_offers_of_local_ai_tools(ctx: &ScanContext)
    requires
        is_rooted(ctx),
    ensures
        all_explained(LocalAiTools.offers(ctx), Group::Ml),
{
    broadcast use {
        lemma_explained_none,
        lemma_explained_sum,
        lemma_explained_given,
        lemma_join_absolute,
    };

    lemma_rooted_projects(ctx, seq!["requirements.txt"@, "pyproject.toml"@]);
    assert forall|p: ProjectModel| is_absolute(p.path) implies all_explained(
        #[trigger] ComfyUi.offers_in(ctx, p),
        Group::Ml,
    ) by {
        lemma_comfy_ui(ctx, p);
    }
    lemma_explained_projects(
        &ComfyUi,
        ctx,
        ctx.marked(seq!["requirements.txt"@, "pyproject.toml"@]),
        Group::Ml,
    );
    lemma_rooted_projects(ctx, seq!["package.json"@]);
    assert forall|p: ProjectModel| is_absolute(p.path) implies all_explained(
        #[trigger] SillyTavern.offers_in(ctx, p),
        Group::Ml,
    ) by {
        lemma_silly_tavern(ctx, p);
    }
    lemma_explained_projects(&SillyTavern, ctx, ctx.marked(seq!["package.json"@]), Group::Ml);
    lemma_rooted_projects(ctx, seq!["requirements.txt"@, "pyproject.toml"@]);
    assert forall|p: ProjectModel| is_absolute(p.path) implies all_explained(
        #[trigger] Automatic1111.offers_in(ctx, p),
        Group::Ml,
    ) by {
        lemma_automatic1111(ctx, p);
    }
    lemma_explained_projects(
        &Automatic1111,
        ctx,
        ctx.marked(seq!["requirements.txt"@, "pyproject.toml"@]),
        Group::Ml,
    );
}

/// Whatever a provider offers says what it is and where, and explains itself where it needs
/// caution. Nothing that cannot be got back is offered without a word.
pub proof fn every_offer_is_explained(p: AnyProvider, ctx: &ScanContext, i: int)
    requires
        is_rooted(ctx),
        0 <= i < p.offers(ctx).len(),
    ensures
        is_explained(p.offers(ctx)[i], p.group()),
{
    match p {
        AnyProvider::NodeCaches(_) => lemma_offers_of_node_caches(ctx),
        AnyProvider::NodeModules(_) => lemma_offers_of_node_modules(ctx),
        AnyProvider::PythonCaches(_) => lemma_offers_of_python_caches(ctx),
        AnyProvider::PythonProjects(_) => lemma_offers_of_python_projects(ctx),
        AnyProvider::RustCaches(_) => lemma_offers_of_rust_caches(ctx),
        AnyProvider::RustTargets(_) => lemma_offers_of_rust_targets(ctx),
        AnyProvider::JvmCaches(_) => lemma_offers_of_jvm_caches(ctx),
        AnyProvider::JvmProjects(_) => lemma_offers_of_jvm_projects(ctx),
        AnyProvider::GoCaches(_) => lemma_offers_of_go_caches(ctx),
        AnyProvider::XcodeArtifacts(_) => lemma_offers_of_xcode_artifacts(ctx),
        AnyProvider::SimulatorRuntimes(_) => lemma_offers_of_simulator_runtimes(ctx),
        AnyProvider::CocoaPods(_) => lemma_offers_of_cocoa_pods(ctx),
        AnyProvider::AndroidSdk(_) => lemma_offers_of_android_sdk(ctx),
        AnyProvider::AndroidAvds(_) => lemma_offers_of_android_avds(ctx),
        AnyProvider::Docker(_) => lemma_offers_of_docker(ctx),
        AnyProvider::ContainerVms(_) => lemma_offers_of_container_vms(ctx),
        AnyProvider::DotNet(_) => lemma_offers_of_dot_net(ctx),
        AnyProvider::Ruby(_) => lemma_offers_of_ruby(ctx),
        AnyProvider::Php(_) => lemma_offers_of_php(ctx),
        AnyProvider::Dart(_) => lemma_offers_of_dart(ctx),
        AnyProvider::BuildTools(_) => lemma_offers_of_build_tools(ctx),
        AnyProvider::Editors(_) => lemma_offers_of_editors(ctx),
        AnyProvider::System(_) => lemma_offers_of_system(ctx),
        AnyProvider::MachineLearning(_) => lemma_offers_of_machine_learning(ctx),
        AnyProvider::LocalModels(_) => lemma_offers_of_local_models(ctx),
        AnyProvider::LocalAiTools(_) => lemma_offers_of_local_ai_tools(ctx),
    }
    reveal(all_explained);
}

/// Nothing is there, and no command can be run.
pub open spec fn is_bare(ctx: &ScanContext) -> bool {
    ctx.disk@.entries.len() == 0 && ctx.disk@.commands.len() == 0
}

proof fn lemma_bare_projects<B: ProjectOffers>(
    build: &B,
    ctx: &ScanContext,
    projects: Seq<ProjectModel>,
)
    requires
        forall|p: ProjectModel| (#[trigger] build.offers_in(ctx, p)).len() == 0,
    ensures
        offers_in_all(build, ctx, projects).len() == 0,
    decreases projects.len(),
{
    if projects.len() > 0 {
        lemma_bare_projects(build, ctx, projects.drop_last());
    }
}

proof fn lemma_bare_node_caches(ctx: &ScanContext)
    requires
        is_bare(ctx),
    ensures
        NodeCaches.offers(ctx).len() == 0,
{
}

proof fn lemma_bare_node_modules(ctx: &ScanContext)
    requires
        is_bare(ctx),
    ensures
        NodeModules.offers(ctx).len() == 0,
{
    assert forall|p: ProjectModel| (#[trigger] NodeModules.offers_in(ctx, p)).len() == 0 by {
    }
    lemma_bare_projects(&NodeModules, ctx, ctx.marked(seq!["package.json"@]));
}

proof fn lemma_bare_python_caches(ctx: &ScanContext)
    requires
        is_bare(ctx),
    ensures
        PythonCaches.offers(ctx).len() == 0,
{
}

proof fn lemma_bare_python_projects(ctx: &ScanContext)
    requires
        is_bare(ctx),
    ensures
        PythonProjects.offers(ctx).len() == 0,
{
    assert forall|p: ProjectModel| (#[trigger] PythonProjects.offers_in(ctx, p)).len() == 0 by {
    }
    lemma_bare_projects(&PythonProjects, ctx, ctx.marked(python_markers()));
}

proof fn lemma_bare_rust_caches(ctx: &ScanContext)
    requires
        is_bare(ctx),
    ensures
        RustCaches.offers(ctx).len() == 0,
{
}

proof fn lemma_bare_rust_targets(ctx: &ScanContext)
    requires
        is_bare(ctx),
    ensures
        RustTargets.offers(ctx).len() == 0,
{
    assert forall|p: ProjectModel| (#[trigger] RustTargets.offers_in(ctx, p)).len() == 0 by {
    }
    lemma_bare_projects(&RustTargets, ctx, ctx.marked(seq!["Cargo.toml"@]));
}

proof fn lemma_bare_jvm_caches(ctx: &ScanContext)
    requires
        is_bare(ctx),
    ensures
        JvmCaches.offers(ctx).len() == 0,
{
}

proof fn lemma_bare_jvm_projects(ctx: &ScanContext)
    requires
        is_bare(ctx),
    ensures
        JvmProjects.offers(ctx).len() == 0,
{
    assert forall|p: ProjectModel| (#[trigger] JvmProjects.offers_in(ctx, p)).len() == 0 by {
    }
    lemma_bare_projects(&JvmProjects, ctx, ctx.marked(jvm_markers()));
}

proof fn lemma_bare_go_caches(ctx: &ScanContext)
    requires
        is_bare(ctx),
    ensures
        GoCaches.offers(ctx).len() == 0,
{
}

proof fn lemma_bare_xcode_artifacts(ctx: &ScanContext)
    requires
        is_bare(ctx),
    ensures
        XcodeArtifacts.offers(ctx).len() == 0,
{
}

proof fn lemma_bare_simulator_runtimes(ctx: &ScanContext)
    requires
        is_bare(ctx),
    ensures
        SimulatorRuntimes.offers(ctx).len() == 0,
{
}

proof fn lemma_bare_cocoa_pods(ctx: &ScanContext)
    requires
        is_bare(ctx),
    ensures
        CocoaPods.offers(ctx).len() == 0,
{
    assert forall|p: ProjectModel| (#[trigger] CocoaPods.offers_in(ctx, p)).len() == 0 by {
    }
    lemma_bare_projects(
        &CocoaPods,
        ctx,
        ctx.marked(seq!["Podfile"@, "Package.swift"@, "Cartfile"@]),
    );
}

proof fn lemma_bare_android_sdk(ctx: &ScanContext)
    requires
        is_bare(ctx),
    ensures
        AndroidSdk.offers(ctx).len() == 0,
{
}

proof fn lemma_bare_android_avds(ctx: &ScanContext)
    requires
        is_bare(ctx),
    ensures
        AndroidAvds.offers(ctx).len() == 0,
{
}

proof fn lemma_bare_docker(ctx: &ScanContext)
    requires
        is_bare(ctx),
    ensures
        Docker.offers(ctx).len() == 0,
{
}

proof fn lemma_bare_container_vms(ctx: &ScanContext)
    requires
        is_bare(ctx),
    ensures
        ContainerVms.offers(ctx).len() == 0,
{
}

proof fn lemma_bare_dot_net(ctx: &ScanContext)
    requires
        is_bare(ctx),
    ensures
        DotNet.offers(ctx).len() == 0,
{
    assert forall|p: ProjectModel| (#[trigger] DotNetProjects.offers_in(ctx, p)).len() == 0 by {
    }
    lemma_bare_projects(
        &DotNetProjects,
        ctx,
        ctx.marked(seq!["Directory.Build.props"@, "*.csproj"@, "*.sln"@]),
    );
}

proof fn lemma_bare_ruby(ctx: &ScanContext)
    requires
        is_bare(ctx),
    ensures
        Ruby.offers(ctx).len() == 0,
{
    assert forall|p: ProjectModel| (#[trigger] RubyProjects.offers_in(ctx, p)).len() == 0 by {
    }
    lemma_bare_projects(&RubyProjects, ctx, ctx.marked(seq!["Gemfile"@]));
}

proof fn lemma_bare_php(ctx: &ScanContext)
    requires
        is_bare(ctx),
    ensures
        Php.offers(ctx).len() == 0,
{
    assert forall|p: ProjectModel| (#[trigger] PhpProjects.offers_in(ctx, p)).len() == 0 by {
    }
    lemma_bare_projects(&PhpProjects, ctx, ctx.marked(seq!["composer.json"@]));
}

proof fn lemma_bare_dart(ctx: &ScanContext)
    requires
        is_bare(ctx),
    ensures
        Dart.offers(ctx).len() == 0,
{
    assert forall|p: ProjectModel| (#[trigger] DartProjects.offers_in(ctx, p)).len() == 0 by {
    }
    lemma_bare_projects(&DartProjects, ctx, ctx.marked(seq!["pubspec.yaml"@]));
}

proof fn lemma_bare_build_tools(ctx: &ScanContext)
    requires
        is_bare(ctx),
    ensures
        BuildTools.offers(ctx).len() == 0,
{
    assert forall|p: ProjectModel| (#[trigger] BuildToolProjects.offers_in(ctx, p)).len() == 0 by {
    }
    lemma_bare_projects(
        &BuildToolProjects,
        ctx,
        ctx.marked(seq!["CMakeLists.txt"@, "WORKSPACE"@, "MODULE.bazel"@]),
    );
}

proof fn lemma_bare_editors(ctx: &ScanContext)
    requires
        is_bare(ctx),
    ensures
        Editors.offers(ctx).len() == 0,
{
}

proof fn lemma_bare_system(ctx: &ScanContext)
    requires
        is_bare(ctx),
    ensures
        System.offers(ctx).len() == 0,
{
}

proof fn lemma_bare_machine_learning(ctx: &ScanContext)
    requires
        is_bare(ctx),
    ensures
        MachineLearning.offers(ctx).len() == 0,
{
}

proof fn lemma_bare_local_models(ctx: &ScanContext)
    requires
        is_bare(ctx),
    ensures
        crate::providers::ai_tools::MachineLearning.offers(ctx).len() == 0,
{
}

proof fn lemma_bare_local_ai_tools(ctx: &ScanContext)
    requires
        is_bare(ctx),
    ensures
        LocalAiTools.offers(ctx).len() == 0,
{
    assert forall|p: ProjectModel| (#[trigger] ComfyUi.offers_in(ctx, p)).len() == 0 by {
    }
    lemma_bare_projects(&ComfyUi, ctx, ctx.marked(seq!["requirements.txt"@, "pyproject.toml"@]));
    assert forall|p: ProjectModel| (#[trigger] SillyTavern.offers_in(ctx, p)).len() == 0 by {
    }
    lemma_bare_projects(&SillyTavern, ctx, ctx.marked(seq!["package.json"@]));
    assert forall|p: ProjectModel| (#[trigger] Automatic1111.offers_in(ctx, p)).len() == 0 by {
    }
    lemma_bare_projects(
        &Automatic1111,
        ctx,
        ctx.marked(seq!["requirements.txt"@, "pyproject.toml"@]),
    );
}

/// On a machine that has none of the toolchains, nothing is offered.
pub proof fn nothing_is_invented(p: AnyProvider, ctx: &ScanContext)
    requires
        is_bare(ctx),
    ensures
        p.offers(ctx).len() == 0,
{
    match p {
        AnyProvider::NodeCaches(_) => lemma_bare_node_caches(ctx),
        AnyProvider::NodeModules(_) => lemma_bare_node_modules(ctx),
        AnyProvider::PythonCaches(_) => lemma_bare_python_caches(ctx),
        AnyProvider::PythonProjects(_) => lemma_bare_python_projects(ctx),
        AnyProvider::RustCaches(_) => lemma_bare_rust_caches(ctx),
        AnyProvider::RustTargets(_) => lemma_bare_rust_targets(ctx),
        AnyProvider::JvmCaches(_) => lemma_bare_jvm_caches(ctx),
        AnyProvider::JvmProjects(_) => lemma_bare_jvm_projects(ctx),
        AnyProvider::GoCaches(_) => lemma_bare_go_caches(ctx),
        AnyProvider::XcodeArtifacts(_) => lemma_bare_xcode_artifacts(ctx),
        AnyProvider::SimulatorRuntimes(_) => lemma_bare_simulator_runtimes(ctx),
        AnyProvider::CocoaPods(_) => lemma_bare_cocoa_pods(ctx),
        AnyProvider::AndroidSdk(_) => lemma_bare_android_sdk(ctx),
        AnyProvider::AndroidAvds(_) => lemma_bare_android_avds(ctx),
        AnyProvider::Docker(_) => lemma_bare_docker(ctx),
        AnyProvider::ContainerVms(_) => lemma_bare_container_vms(ctx),
        AnyProvider::DotNet(_) => lemma_bare_dot_net(ctx),
        AnyProvider::Ruby(_) => lemma_bare_ruby(ctx),
        AnyProvider::Php(_) => lemma_bare_php(ctx),
        AnyProvider::Dart(_) => lemma_bare_dart(ctx),
        AnyProvider::BuildTools(_) => lemma_bare_build_tools(ctx),
        AnyProvider::Editors(_) => lemma_bare_editors(ctx),
        AnyProvider::System(_) => lemma_bare_system(ctx),
        AnyProvider::MachineLearning(_) => lemma_bare_machine_learning(ctx),
        AnyProvider::LocalModels(_) => lemma_bare_local_models(ctx),
        AnyProvider::LocalAiTools(_) => lemma_bare_local_ai_tools(ctx),
    }
}

/// Docker is asked to prune; none of its files are deleted.
pub proof fn docker_is_asked_to_prune(ctx: &ScanContext, i: int)
    requires
        0 <= i < Docker.offers(ctx).len(),
    ensures
        Docker.offers(ctx)[i].action is Shell,
{
    let first = nothing() + layer_cache_offer(ctx);
    let second = first + dangling_images_offer(ctx);
    let third = second + unused_images_offer(ctx);
    assert(first.len() == 1 && second.len() == 2 && third.len() == 3);
}

/// The only toolchain that is installed is never offered.
pub proof fn the_only_toolchain_is_kept(ctx: &ScanContext)
    requires
        ctx.disk@.subdir_names(join(ctx.paths@.home, ".rustup/toolchains"@)).len() <= 1,
    ensures
        toolchains_offer(ctx).len() == 0,
{
}

/// The only NDK of an SDK is never offered.
pub proof fn the_only_ndk_is_kept(ctx: &ScanContext, sdk: Seq<char>)
    requires
        ctx.disk@.subdir_names(join(sdk, "ndk"@)).len() <= 1,
    ensures
        ndks_offer(ctx, sdk).len() == 0,
{
}

/// A local repository with an artifact that was installed from this machine needs caution and
/// never comes back.
pub proof fn installed_artifacts_need_caution(ctx: &ScanContext)
    requires
        ctx.disk@.is_dir(join(ctx.paths@.home, ".m2/repository"@)),
        local_artifacts(
            dirs_below(Seq::empty(), ctx.disk@.maven, 0),
            MAVEN_SCAN_BUDGET as nat,
        ).found > 0,
    ensures
        repository_offer(ctx).len() == 1,
        repository_offer(ctx)[0].tier == Tier::Caution,
        repository_offer(ctx)[0].regen is Never,
{
}

/// A directory that is named like an environment is left alone where nothing marks it as one.
pub proof fn an_environment_needs_its_marker(
    ctx: &ScanContext,
    at: Seq<char>,
    name: Seq<char>,
    reproducible: bool,
)
    requires
        !ctx.disk@.present(join(join(at, name), "pyvenv.cfg"@)),
    ensures
        venv_offer(ctx, at, name, reproducible).len() == 0,
{
}

/// A `build` directory is left alone where CMake did not generate it.
pub proof fn a_build_directory_needs_its_cache_file(ctx: &ScanContext, at: Seq<char>)
    requires
        !ctx.disk@.is_file(join(join(at, "build"@), "CMakeCache.txt"@)),
    ensures
        cmake_build_offer(ctx, at).len() == 0,
{
}

/// Dependencies that no lockfile pins need caution and do not come back as they were.
pub proof fn unpinned_dependencies_need_caution(ctx: &ScanContext, at: Seq<char>, i: int)
    requires
        0 <= i < (modules_offer(ctx, at, false) + pods_offer(ctx, at, false)
            + vendored_gems_offer(ctx, at, false) + vendored_packages_offer(ctx, at, false)).len(),
    ensures
        ({
            let offers = modules_offer(ctx, at, false) + pods_offer(ctx, at, false)
                + vendored_gems_offer(ctx, at, false) + vendored_packages_offer(ctx, at, false);
            offers[i].tier == Tier::Caution && offers[i].regen is Never
        }),
{
}

/// A virtual device is removed together with the entry that registers it.
pub proof fn a_device_goes_with_its_entry(ctx: &ScanContext, dir: Seq<char>, name: Seq<char>)
    requires
        extension(join(dir, name)) == Some("avd"@),
        ctx.disk@.is_file(join(dir, stem(join(dir, name)) + ".ini"@)),
    ensures
        VirtualDevice.offer_of(ctx, dir, name).len() == 1,
        VirtualDevice.offer_of(ctx, dir, name)[0].paths == seq![
            join(dir, name),
            join(dir, stem(join(dir, name)) + ".ini"@),
        ],
{
    assert(VirtualDevice.offer_of(ctx, dir, name)[0].paths =~= seq![
        join(dir, name),
        join(dir, stem(join(dir, name)) + ".ini"@),
    ]);
}

/// Volumes are withheld until they are asked for: what is offered then can be had again.
pub proof fn volumes_are_withheld(ctx: &ScanContext, i: int)
    requires
        !ctx.config.providers.containers.include_volumes,
        0 <= i < Docker.offers(ctx).len(),
    ensures
        Docker.offers(ctx)[i].tier != Tier::Caution,
        !(Docker.offers(ctx)[i].regen is Never),
{
    let first = nothing() + layer_cache_offer(ctx);
    let second = first + dangling_images_offer(ctx);
    let third = second + unused_images_offer(ctx);
    assert(first.len() == 1 && second.len() == 2 && third.len() == 3);
}

/// A store whose files are shared with every installation is withheld until it is asked for.
pub proof fn the_shared_store_is_withheld(ctx: &ScanContext, store: Seq<char>)
    requires
        ctx.config.providers.node.keep_pnpm_store,
    ensures
        pnpm_offer(ctx, store).len() == 0,
{
}

} // verus!
