//! A scan needs to look nowhere else: what the probes name decides what is offered.
use vstd::prelude::*;
use vstd::string::*;
use crate::config::{Config, ScanConfig};
use crate::discovery::marked_with;
use crate::disk::DiskModel;
use crate::model::{CandidateModel, Moment, ProjectModel};
use crate::path::{join, stem};
use crate::pipeline::{
    CandidateWalkModel, Provider, ScanContext, ScanResult, completes, discovered,
    measured_candidates, offered, walk_options_of, walks_fit,
};
use crate::platform::Os;
use crate::providers::AnyProvider;
use crate::providers::probes::{
    all_listings, all_places, all_thumbnail_places, below, below_each, below_projects,
    cache_places, cargo_places, command_names, conda_names, developer_listings, developer_places,
    editor_data, editor_names, editor_places, home_listings, home_places, home_side,
    marking_files, marks_below, port_numbers, project_places, registrations, sdk_places,
    signed_dirs, thumbnail_places,
};
use crate::providers::support::{
    ProjectOffers, SubdirOffers, any_file, offers_in_all, offers_of_all,
};
use crate::sort::sorting_has_one_result;
use crate::staleness::{FilterModel, candidate_le, scored, total_freed};
use crate::text::views;
use crate::providers::node::{
    NodeCaches, NodeModules, browsers_offer, bun_offer, lockfiles, modules_offer, node_gyp_offer,
    npm_offer, pnpm_offer, yarn_offer,
};
use crate::providers::python::{
    PythonCaches, PythonProjects, conda_offer, dependency_specs, poetry_venvs_offer, pypi_offer,
    python_markers, tool_cache_offer, venv_offer,
};
use crate::providers::rust::{
    RustCaches, RustTargets, Toolchain, git_checkouts_offer, rebuilt_offer, registry_cache_offer,
    registry_src_offer, target_offer, toolchains_offer,
};
use crate::providers::jvm::{
    JvmCaches, JvmProjects, configured_offer, gradle_markers, gradle_offer, gradle_state_offer,
    jvm_markers, output_offer, repository_offer,
};
use crate::providers::go::{GoCaches, mod_cache_offer};
use crate::providers::apple::{
    CocoaPods, DeviceBackup, SimulatorRuntimes, XcodeArtifacts, archives_offer, backups_offer,
    derived_data_offer, device_support_offer, pods_cache_offer, pods_offer, scratch_offer,
    simulators_offer, unavailable_offer,
};
use crate::providers::android::{
    AndroidAvds, AndroidSdk, NdkVersion, SystemImage, VirtualDevice, emulator_tmp_offer,
    images_offer, ndks_offer,
};
use crate::providers::containers::{
    ContainerVms, Docker, dangling_images_offer, docker_disk_offer, docker_logs_offer,
    layer_cache_offer, machine_offer, unused_images_offer, unused_volumes_offer,
};
use crate::providers::misc::{
    BuildToolProjects, BuildTools, Dart, DartProjects, DotNet, DotNetProjects, Editors,
    MachineLearning, Php, PhpProjects, Ruby, RubyProjects, System, app_support, bundler_offer,
    cmake_build_offer, compiled_offer, composer_offer, dart_output_offer, dotnet_output_offer,
    editor_cache_offer, editor_offer, flutter_engine_offer, gems_offer, homebrew_offer,
    jetbrains_offer, logs_offer, nix_offer, nuget_http_offer, nuget_offer, pub_cache_offer,
    vendored_gems_offer, vendored_packages_offer, workspaces_offer,
};
use crate::providers::ai_tools::{
    Automatic1111, ComfyUi, LocalAiTools, SillyTavern, all_thumbnails_offer, comfyui_models_offer,
    comfyui_output_offer, tavern_cache_offer, thumbnails_offer, webui_models_offer,
    webui_output_offer,
};

verus! {

/// Two disks say the same of a path.
pub open spec fn alike_at(a: DiskModel, b: DiskModel, path: Seq<char>) -> bool {
    &&& a.present(path) == b.present(path)
    &&& a.is_dir(path) == b.is_dir(path)
    &&& a.is_file(path) == b.is_file(path)
}

/// The places that depend on what the listed directories hold.
pub open spec fn further(ctx: &ScanContext) -> Seq<Seq<char>> {
    registrations(
        ctx.paths@.android_avd,
        ctx.disk@.subdir_names(ctx.paths@.android_avd),
    ) + all_thumbnail_places(ctx.disk@, views(ctx.projects@))
}

/// Two contexts agree on everything that the probes name.
pub open spec fn alike(a: &ScanContext, b: &ScanContext) -> bool {
    let places = all_places(a.paths@, views(a.projects@));
    let listed = all_listings(a.paths@, views(a.projects@));
    &&& a.paths@ == b.paths@
    &&& a.config.providers == b.config.providers
    &&& views(a.projects@) == views(b.projects@)
    &&& forall|i: int| 0 <= i < places.len() ==> alike_at(a.disk@, b.disk@, #[trigger] places[i])
    &&& forall|i: int|
        0 <= i < listed.len() ==> a.disk@.children(#[trigger] listed[i]) == b.disk@.children(
            listed[i],
        )
    &&& forall|i: int|
        0 <= i < further(a).len() ==> alike_at(a.disk@, b.disk@, #[trigger] further(a)[i])
    &&& forall|i: int|
        0 <= i < command_names().len() ==> a.disk@.commands.contains(
            #[trigger] command_names()[i],
        ) == b.disk@.commands.contains(command_names()[i])
    &&& a.disk@.daemons.contains("docker"@) == b.disk@.daemons.contains("docker"@)
    &&& forall|i: int|
        0 <= i < port_numbers().len() ==> a.disk@.ports.contains(#[trigger] port_numbers()[i])
            == b.disk@.ports.contains(port_numbers()[i])
    &&& a.disk@.maven == b.disk@.maven
}

proof fn lemma_in_sum(x: Seq<Seq<char>>, y: Seq<Seq<char>>, path: Seq<char>)
    requires
        x.contains(path) || y.contains(path),
    ensures
        (x + y).contains(path),
{
    if x.contains(path) {
        let i = x.index_of(path);
        assert((x + y)[i] == path);
    } else {
        let i = y.index_of(path);
        assert((x + y)[x.len() + i] == path);
    }
}

proof fn lemma_in_below(base: Seq<char>, names: Seq<Seq<char>>, k: int)
    requires
        0 <= k < names.len(),
    ensures
        below(base, names).contains(join(base, names[k])),
{
    assert(below(base, names)[k] == join(base, names[k]));
}

proof fn lemma_in_below_each(
    base: Seq<char>,
    dirs: Seq<Seq<char>>,
    names: Seq<Seq<char>>,
    i: int,
    k: int,
)
    requires
        0 <= i < dirs.len(),
        0 <= k < names.len(),
    ensures
        below_each(base, dirs, names).contains(join(join(base, dirs[i]), names[k])),
    decreases dirs.len(),
{
    if i < dirs.len() - 1 {
        lemma_in_below_each(base, dirs.drop_last(), names, i, k);
    } else {
        lemma_in_below(join(base, dirs.last()), names, k);
    }
    lemma_in_sum(
        below_each(base, dirs.drop_last(), names),
        below(join(base, dirs.last()), names),
        join(join(base, dirs[i]), names[k]),
    );
}

proof fn lemma_in_below_projects(
    projects: Seq<ProjectModel>,
    names: Seq<Seq<char>>,
    i: int,
    k: int,
)
    requires
        0 <= i < projects.len(),
        0 <= k < names.len(),
    ensures
        below_projects(projects, names).contains(join(projects[i].path, names[k])),
    decreases projects.len(),
{
    if i < projects.len() - 1 {
        lemma_in_below_projects(projects.drop_last(), names, i, k);
    } else {
        lemma_in_below(projects.last().path, names, k);
    }
    lemma_in_sum(
        below_projects(projects.drop_last(), names),
        below(projects.last().path, names),
        join(projects[i].path, names[k]),
    );
}

proof fn lemma_in_marks(projects: Seq<ProjectModel>, i: int, d: int, f: int)
    requires
        0 <= i < projects.len(),
        0 <= d < signed_dirs().len(),
        0 <= f < marking_files().len(),
    ensures
        marks_below(projects).contains(
            join(join(projects[i].path, signed_dirs()[d]), marking_files()[f]),
        ),
    decreases projects.len(),
{
    if i < projects.len() - 1 {
        lemma_in_marks(projects.drop_last(), i, d, f);
    } else {
        lemma_in_below_each(projects.last().path, signed_dirs(), marking_files(), d, f);
    }
    lemma_in_sum(
        marks_below(projects.drop_last()),
        below_each(projects.last().path, signed_dirs(), marking_files()),
        join(join(projects[i].path, signed_dirs()[d]), marking_files()[f]),
    );
}

proof fn lemma_in_thumbnails(disk: DiskModel, projects: Seq<ProjectModel>, i: int, k: int)
    requires
        0 <= i < projects.len(),
        0 <= k < disk.subdir_names(join(projects[i].path, "data"@)).len(),
    ensures
        all_thumbnail_places(disk, projects).contains(
            join(
                join(
                    join(projects[i].path, "data"@),
                    disk.subdir_names(join(projects[i].path, "data"@))[k],
                ),
                "thumbnails"@,
            ),
        ),
    decreases projects.len(),
{
    let dir = join(projects.last().path, "data"@);
    let here = thumbnail_places(dir, disk.subdir_names(dir));
    let wanted = join(
        join(
            join(projects[i].path, "data"@),
            disk.subdir_names(join(projects[i].path, "data"@))[k],
        ),
        "thumbnails"@,
    );
    if i < projects.len() - 1 {
        lemma_in_thumbnails(disk, projects.drop_last(), i, k);
    } else {
        assert(here[k] == wanted);
    }
    lemma_in_sum(all_thumbnail_places(disk, projects.drop_last()), here, wanted);
}

/// The parts of the list of places, one by one.
spec fn parts(ctx: &ScanContext) -> Seq<Seq<Seq<char>>> {
    let paths = ctx.paths@;
    let projects = views(ctx.projects@);
    seq![
        home_side(paths.home),
        below(paths.cache_dir, cache_places()),
        below(paths.cargo_home, cargo_places()),
        seq![paths.go_build_cache, paths.go_mod_cache, paths.android_avd],
        sdk_places(paths.android_sdk),
        below_projects(projects, project_places()),
        marks_below(projects),
    ]
}

proof fn lemma_part(a: &ScanContext, b: &ScanContext, part: int, path: Seq<char>)
    requires
        alike(a, b),
        0 <= part < 7,
        parts(a)[part].contains(path),
    ensures
        alike_at(a.disk@, b.disk@, path),
{
    let p = parts(a);
    if part <= 1 {
        lemma_in_sum(p[0], p[1], path);
    }
    if part <= 2 {
        lemma_in_sum(p[0] + p[1], p[2], path);
    }
    if part <= 3 {
        lemma_in_sum(p[0] + p[1] + p[2], p[3], path);
    }
    if part <= 4 {
        lemma_in_sum(p[0] + p[1] + p[2] + p[3], p[4], path);
    }
    if part <= 5 {
        lemma_in_sum(p[0] + p[1] + p[2] + p[3] + p[4], p[5], path);
    }
    lemma_in_sum(p[0] + p[1] + p[2] + p[3] + p[4] + p[5], p[6], path);
    let places = all_places(a.paths@, views(a.projects@));
    assert(places.contains(path));
    let i = places.index_of(path);
    assert(alike_at(a.disk@, b.disk@, places[i]));
}

proof fn lemma_home_part(a: &ScanContext, b: &ScanContext, part: int, path: Seq<char>)
    requires
        alike(a, b),
        0 <= part < 5,
        ({
            let home = a.paths@.home;
            seq![
                below(home, home_places()),
                below(join(home, "Library/Developer"@), developer_places()),
                below_each(home, conda_names(), seq!["pkgs"@]),
                editor_data(join(home, "Library/Application Support"@)),
                editor_data(join(home, ".config"@)),
            ][part].contains(path)
        }),
    ensures
        alike_at(a.disk@, b.disk@, path),
{
    let home = a.paths@.home;
    let p = seq![
        below(home, home_places()),
        below(join(home, "Library/Developer"@), developer_places()),
        below_each(home, conda_names(), seq!["pkgs"@]),
        editor_data(join(home, "Library/Application Support"@)),
        editor_data(join(home, ".config"@)),
    ];
    if part <= 1 {
        lemma_in_sum(p[0], p[1], path);
    }
    if part <= 2 {
        lemma_in_sum(p[0] + p[1], p[2], path);
    }
    if part <= 3 {
        lemma_in_sum(p[0] + p[1] + p[2], p[3], path);
    }
    lemma_in_sum(p[0] + p[1] + p[2] + p[3], p[4], path);
    assert(home_side(home).contains(path));
    lemma_part(a, b, 0, path);
}

proof fn lemma_home_place(a: &ScanContext, b: &ScanContext, k: int)
    requires
        alike(a, b),
        0 <= k < home_places().len(),
    ensures
        alike_at(a.disk@, b.disk@, join(a.paths@.home, home_places()[k])),
{
    lemma_in_below(a.paths@.home, home_places(), k);
    lemma_home_part(a, b, 0, join(a.paths@.home, home_places()[k]));
}

proof fn lemma_cache_place(a: &ScanContext, b: &ScanContext, k: int)
    requires
        alike(a, b),
        0 <= k < cache_places().len(),
    ensures
        alike_at(a.disk@, b.disk@, join(a.paths@.cache_dir, cache_places()[k])),
{
    lemma_in_below(a.paths@.cache_dir, cache_places(), k);
    lemma_part(a, b, 1, join(a.paths@.cache_dir, cache_places()[k]));
}

proof fn lemma_cargo_place(a: &ScanContext, b: &ScanContext, k: int)
    requires
        alike(a, b),
        0 <= k < cargo_places().len(),
    ensures
        alike_at(a.disk@, b.disk@, join(a.paths@.cargo_home, cargo_places()[k])),
{
    lemma_in_below(a.paths@.cargo_home, cargo_places(), k);
    lemma_part(a, b, 2, join(a.paths@.cargo_home, cargo_places()[k]));
}

proof fn lemma_developer_place(a: &ScanContext, b: &ScanContext, k: int)
    requires
        alike(a, b),
        0 <= k < developer_places().len(),
    ensures
        alike_at(
            a.disk@,
            b.disk@,
            join(join(a.paths@.home, "Library/Developer"@), developer_places()[k]),
        ),
{
    let developer = join(a.paths@.home, "Library/Developer"@);
    lemma_in_below(developer, developer_places(), k);
    lemma_home_part(a, b, 1, join(developer, developer_places()[k]));
}

proof fn lemma_conda_place(a: &ScanContext, b: &ScanContext, i: int)
    requires
        alike(a, b),
        0 <= i < conda_names().len(),
    ensures
        alike_at(a.disk@, b.disk@, join(join(a.paths@.home, conda_names()[i]), "pkgs"@)),
{
    lemma_in_below_each(a.paths@.home, conda_names(), seq!["pkgs"@], i, 0);
    lemma_home_part(a, b, 2, join(join(a.paths@.home, conda_names()[i]), "pkgs"@));
}

proof fn lemma_editor_place(a: &ScanContext, b: &ScanContext, i: int, k: int)
    requires
        alike(a, b),
        0 <= i < editor_names().len(),
        0 <= k < editor_places().len(),
    ensures
        alike_at(a.disk@, b.disk@, join(app_support(a), editor_names()[i])),
        alike_at(
            a.disk@,
            b.disk@,
            join(join(app_support(a), editor_names()[i]), editor_places()[k]),
        ),
{
    let base = app_support(a);
    let part: int = if a.paths@.os == Os::MacOs {
        3
    } else {
        4
    };
    lemma_in_below(base, editor_names(), i);
    lemma_in_below_each(base, editor_names(), editor_places(), i, k);
    lemma_in_sum(
        below(base, editor_names()),
        below_each(base, editor_names(), editor_places()),
        join(base, editor_names()[i]),
    );
    lemma_in_sum(
        below(base, editor_names()),
        below_each(base, editor_names(), editor_places()),
        join(join(base, editor_names()[i]), editor_places()[k]),
    );
    lemma_home_part(a, b, part, join(base, editor_names()[i]));
    lemma_home_part(a, b, part, join(join(base, editor_names()[i]), editor_places()[k]));
}

proof fn lemma_project_place(a: &ScanContext, b: &ScanContext, i: int, k: int)
    requires
        alike(a, b),
        0 <= i < a.projects@.len(),
        0 <= k < project_places().len(),
    ensures
        alike_at(a.disk@, b.disk@, join(views(a.projects@)[i].path, project_places()[k])),
{
    let projects = views(a.projects@);
    lemma_in_below_projects(projects, project_places(), i, k);
    lemma_part(a, b, 5, join(projects[i].path, project_places()[k]));
}

proof fn lemma_mark_place(a: &ScanContext, b: &ScanContext, i: int, d: int, f: int)
    requires
        alike(a, b),
        0 <= i < a.projects@.len(),
        0 <= d < signed_dirs().len(),
        0 <= f < marking_files().len(),
    ensures
        alike_at(
            a.disk@,
            b.disk@,
            join(join(views(a.projects@)[i].path, signed_dirs()[d]), marking_files()[f]),
        ),
{
    let projects = views(a.projects@);
    lemma_in_marks(projects, i, d, f);
    lemma_part(a, b, 6, join(join(projects[i].path, signed_dirs()[d]), marking_files()[f]));
}

/// The parts of the list of listed directories, one by one.
spec fn listed_parts(ctx: &ScanContext) -> Seq<Seq<Seq<char>>> {
    let paths = ctx.paths@;
    seq![
        below(paths.home, home_listings()),
        below(join(paths.home, "Library/Developer"@), developer_listings()),
        seq![paths.android_avd],
        sdk_places(paths.android_sdk),
        below_projects(views(ctx.projects@), seq!["data"@]),
    ]
}

proof fn lemma_listed(a: &ScanContext, b: &ScanContext, part: int, path: Seq<char>)
    requires
        alike(a, b),
        0 <= part < 5,
        listed_parts(a)[part].contains(path),
    ensures
        a.disk@.children(path) == b.disk@.children(path),
        a.disk@.subdir_names(path) == b.disk@.subdir_names(path),
{
    let p = listed_parts(a);
    if part <= 1 {
        lemma_in_sum(p[0], p[1], path);
    }
    if part <= 2 {
        lemma_in_sum(p[0] + p[1], p[2], path);
    }
    if part <= 3 {
        lemma_in_sum(p[0] + p[1] + p[2], p[3], path);
    }
    lemma_in_sum(p[0] + p[1] + p[2] + p[3], p[4], path);
    let listed = all_listings(a.paths@, views(a.projects@));
    assert(listed.contains(path));
    let i = listed.index_of(path);
    assert(a.disk@.children(listed[i]) == b.disk@.children(listed[i]));
}

proof fn lemma_home_known(a: &ScanContext, b: &ScanContext)
    requires
        alike(a, b),
    ensures
        alike_at(a.disk@, b.disk@, join(a.paths@.home, ".npm"@)),
        alike_at(a.disk@, b.disk@, join(a.paths@.home, ".bun/install/cache"@)),
        alike_at(a.disk@, b.disk@, join(a.paths@.home, ".node-gyp"@)),
        alike_at(a.disk@, b.disk@, join(a.paths@.home, "Library/pnpm/store"@)),
        alike_at(a.disk@, b.disk@, join(a.paths@.home, ".pnpm-store"@)),
        alike_at(a.disk@, b.disk@, join(a.paths@.home, ".local/share/pnpm/store"@)),
        alike_at(a.disk@, b.disk@, join(a.paths@.home, ".yarn/berry/cache"@)),
        alike_at(a.disk@, b.disk@, join(a.paths@.home, ".cache/yarn"@)),
        alike_at(a.disk@, b.disk@, join(a.paths@.home, ".cache/pip"@)),
        alike_at(a.disk@, b.disk@, join(a.paths@.home, ".rustup/toolchains"@)),
        alike_at(a.disk@, b.disk@, join(a.paths@.home, ".rustup/downloads"@)),
        alike_at(a.disk@, b.disk@, join(a.paths@.home, ".rustup/tmp"@)),
        alike_at(a.disk@, b.disk@, join(a.paths@.home, ".m2/repository"@)),
        alike_at(a.disk@, b.disk@, join(a.paths@.home, ".gradle/caches"@)),
        alike_at(a.disk@, b.disk@, join(a.paths@.home, ".gradle/daemon"@)),
        alike_at(a.disk@, b.disk@, join(a.paths@.home, ".gradle/native"@)),
        alike_at(a.disk@, b.disk@, join(a.paths@.home, ".gradle/wrapper/dists"@)),
        alike_at(a.disk@, b.disk@, join(a.paths@.home, ".ivy2/cache"@)),
        alike_at(a.disk@, b.disk@, join(a.paths@.home, ".sbt/boot"@)),
        alike_at(a.disk@, b.disk@, join(a.paths@.home, ".cache/coursier"@)),
        alike_at(a.disk@, b.disk@, join(a.paths@.home, ".konan"@)),
        alike_at(
            a.disk@,
            b.disk@,
            join(a.paths@.home, "Library/Application Support/MobileSync/Backup"@),
        ),
        alike_at(a.disk@, b.disk@, join(a.paths@.home, "Library/Developer/CoreSimulator/Caches"@)),
        alike_at(a.disk@, b.disk@, join(a.paths@.home, "Library/Developer/CoreSimulator/Devices"@)),
        alike_at(a.disk@, b.disk@, join(a.paths@.home, ".android/tmp"@)),
        alike_at(a.disk@, b.disk@, join(a.paths@.home, ".android/build-cache"@)),
        alike_at(a.disk@, b.disk@, join(a.paths@.home, ".android/cache"@)),
        alike_at(
            a.disk@,
            b.disk@,
            join(a.paths@.home, "Library/Containers/com.docker.docker/Data/vms"@),
        ),
        alike_at(
            a.disk@,
            b.disk@,
            join(a.paths@.home, "Library/Containers/com.docker.docker/Data/log"@),
        ),
        alike_at(a.disk@, b.disk@, join(a.paths@.home, ".colima"@)),
        alike_at(a.disk@, b.disk@, join(a.paths@.home, ".lima"@)),
        alike_at(a.disk@, b.disk@, join(a.paths@.home, ".local/share/containers"@)),
        alike_at(a.disk@, b.disk@, join(a.paths@.home, ".nuget/packages"@)),
        alike_at(a.disk@, b.disk@, join(a.paths@.home, ".local/share/NuGet/http-cache"@)),
        alike_at(a.disk@, b.disk@, join(a.paths@.home, ".gem/cache"@)),
        alike_at(a.disk@, b.disk@, join(a.paths@.home, ".gem/ruby"@)),
        alike_at(a.disk@, b.disk@, join(a.paths@.home, ".composer/cache"@)),
        alike_at(a.disk@, b.disk@, join(a.paths@.home, ".pub-cache"@)),
        alike_at(a.disk@, b.disk@, join(a.paths@.home, "flutter/bin/cache"@)),
        alike_at(a.disk@, b.disk@, join(a.paths@.home, "development/flutter/bin/cache"@)),
        alike_at(a.disk@, b.disk@, join(a.paths@.home, ".ccache"@)),
        alike_at(a.disk@, b.disk@, join(a.paths@.home, "Library/Caches/JetBrains"@)),
        alike_at(a.disk@, b.disk@, join(a.paths@.home, "Library/Logs/JetBrains"@)),
        alike_at(a.disk@, b.disk@, join(a.paths@.home, ".cache/JetBrains"@)),
        alike_at(a.disk@, b.disk@, join(a.paths@.home, "Library/Logs"@)),
        alike_at(a.disk@, b.disk@, join(a.paths@.home, "Library/Logs/DiagnosticReports"@)),
        alike_at(a.disk@, b.disk@, join(a.paths@.home, ".cache/huggingface"@)),
        alike_at(a.disk@, b.disk@, join(a.paths@.home, ".ollama/models"@)),
        alike_at(a.disk@, b.disk@, join(a.paths@.home, ".lmstudio/models"@)),
        alike_at(a.disk@, b.disk@, join(a.paths@.home, ".cache/lm-studio"@)),
{
    assert(home_places()[0] == ".npm"@);
    lemma_home_place(a, b, 0);
    assert(home_places()[1] == ".bun/install/cache"@);
    lemma_home_place(a, b, 1);
    assert(home_places()[2] == ".node-gyp"@);
    lemma_home_place(a, b, 2);
    assert(home_places()[3] == "Library/pnpm/store"@);
    lemma_home_place(a, b, 3);
    assert(home_places()[4] == ".pnpm-store"@);
    lemma_home_place(a, b, 4);
    assert(home_places()[5] == ".local/share/pnpm/store"@);
    lemma_home_place(a, b, 5);
    assert(home_places()[6] == ".yarn/berry/cache"@);
    lemma_home_place(a, b, 6);
    assert(home_places()[7] == ".cache/yarn"@);
    lemma_home_place(a, b, 7);
    assert(home_places()[8] == ".cache/pip"@);
    lemma_home_place(a, b, 8);
    assert(home_places()[9] == ".rustup/toolchains"@);
    lemma_home_place(a, b, 9);
    assert(home_places()[10] == ".rustup/downloads"@);
    lemma_home_place(a, b, 10);
    assert(home_places()[11] == ".rustup/tmp"@);
    lemma_home_place(a, b, 11);
    assert(home_places()[12] == ".m2/repository"@);
    lemma_home_place(a, b, 12);
    assert(home_places()[13] == ".gradle/caches"@);
    lemma_home_place(a, b, 13);
    assert(home_places()[14] == ".gradle/daemon"@);
    lemma_home_place(a, b, 14);
    assert(home_places()[15] == ".gradle/native"@);
    lemma_home_place(a, b, 15);
    assert(home_places()[16] == ".gradle/wrapper/dists"@);
    lemma_home_place(a, b, 16);
    assert(home_places()[17] == ".ivy2/cache"@);
    lemma_home_place(a, b, 17);
    assert(home_places()[18] == ".sbt/boot"@);
    lemma_home_place(a, b, 18);
    assert(home_places()[19] == ".cache/coursier"@);
    lemma_home_place(a, b, 19);
    assert(home_places()[20] == ".konan"@);
    lemma_home_place(a, b, 20);
    assert(home_places()[21] == "Library/Application Support/MobileSync/Backup"@);
    lemma_home_place(a, b, 21);
    assert(home_places()[22] == "Library/Developer/CoreSimulator/Caches"@);
    lemma_home_place(a, b, 22);
    assert(home_places()[23] == "Library/Developer/CoreSimulator/Devices"@);
    lemma_home_place(a, b, 23);
    assert(home_places()[24] == ".android/tmp"@);
    lemma_home_place(a, b, 24);
    assert(home_places()[25] == ".android/build-cache"@);
    lemma_home_place(a, b, 25);
    assert(home_places()[26] == ".android/cache"@);
    lemma_home_place(a, b, 26);
    assert(home_places()[27] == "Library/Containers/com.docker.docker/Data/vms"@);
    lemma_home_place(a, b, 27);
    assert(home_places()[28] == "Library/Containers/com.docker.docker/Data/log"@);
    lemma_home_place(a, b, 28);
    assert(home_places()[29] == ".colima"@);
    lemma_home_place(a, b, 29);
    assert(home_places()[30] == ".lima"@);
    lemma_home_place(a, b, 30);
    assert(home_places()[31] == ".local/share/containers"@);
    lemma_home_place(a, b, 31);
    assert(home_places()[32] == ".nuget/packages"@);
    lemma_home_place(a, b, 32);
    assert(home_places()[33] == ".local/share/NuGet/http-cache"@);
    lemma_home_place(a, b, 33);
    assert(home_places()[34] == ".gem/cache"@);
    lemma_home_place(a, b, 34);
    assert(home_places()[35] == ".gem/ruby"@);
    lemma_home_place(a, b, 35);
    assert(home_places()[36] == ".composer/cache"@);
    lemma_home_place(a, b, 36);
    assert(home_places()[37] == ".pub-cache"@);
    lemma_home_place(a, b, 37);
    assert(home_places()[38] == "flutter/bin/cache"@);
    lemma_home_place(a, b, 38);
    assert(home_places()[39] == "development/flutter/bin/cache"@);
    lemma_home_place(a, b, 39);
    assert(home_places()[40] == ".ccache"@);
    lemma_home_place(a, b, 40);
    assert(home_places()[41] == "Library/Caches/JetBrains"@);
    lemma_home_place(a, b, 41);
    assert(home_places()[42] == "Library/Logs/JetBrains"@);
    lemma_home_place(a, b, 42);
    assert(home_places()[43] == ".cache/JetBrains"@);
    lemma_home_place(a, b, 43);
    assert(home_places()[44] == "Library/Logs"@);
    lemma_home_place(a, b, 44);
    assert(home_places()[45] == "Library/Logs/DiagnosticReports"@);
    lemma_home_place(a, b, 45);
    assert(home_places()[46] == ".cache/huggingface"@);
    lemma_home_place(a, b, 46);
    assert(home_places()[47] == ".ollama/models"@);
    lemma_home_place(a, b, 47);
    assert(home_places()[48] == ".lmstudio/models"@);
    lemma_home_place(a, b, 48);
    assert(home_places()[49] == ".cache/lm-studio"@);
    lemma_home_place(a, b, 49);
}

proof fn lemma_cache_known(a: &ScanContext, b: &ScanContext)
    requires
        alike(a, b),
    ensures
        alike_at(a.disk@, b.disk@, join(a.paths@.cache_dir, "Yarn"@)),
        alike_at(a.disk@, b.disk@, join(a.paths@.cache_dir, "ms-playwright"@)),
        alike_at(a.disk@, b.disk@, join(a.paths@.cache_dir, "puppeteer"@)),
        alike_at(a.disk@, b.disk@, join(a.paths@.cache_dir, "Cypress"@)),
        alike_at(a.disk@, b.disk@, join(a.paths@.cache_dir, "electron"@)),
        alike_at(a.disk@, b.disk@, join(a.paths@.cache_dir, "pypoetry/virtualenvs"@)),
        alike_at(a.disk@, b.disk@, join(a.paths@.cache_dir, "pip"@)),
        alike_at(a.disk@, b.disk@, join(a.paths@.cache_dir, "uv"@)),
        alike_at(a.disk@, b.disk@, join(a.paths@.cache_dir, "pypoetry"@)),
        alike_at(a.disk@, b.disk@, join(a.paths@.cache_dir, "pipenv"@)),
        alike_at(a.disk@, b.disk@, join(a.paths@.cache_dir, "pre-commit"@)),
        alike_at(a.disk@, b.disk@, join(a.paths@.cache_dir, "sccache"@)),
        alike_at(a.disk@, b.disk@, join(a.paths@.cache_dir, "Coursier"@)),
        alike_at(a.disk@, b.disk@, join(a.paths@.cache_dir, "CocoaPods"@)),
        alike_at(a.disk@, b.disk@, join(a.paths@.cache_dir, "org.swift.swiftpm"@)),
        alike_at(a.disk@, b.disk@, join(a.paths@.cache_dir, "com.apple.dt.Xcode"@)),
        alike_at(a.disk@, b.disk@, join(a.paths@.cache_dir, "bundle"@)),
        alike_at(a.disk@, b.disk@, join(a.paths@.cache_dir, "composer"@)),
        alike_at(a.disk@, b.disk@, join(a.paths@.cache_dir, "ccache"@)),
        alike_at(a.disk@, b.disk@, join(a.paths@.cache_dir, "bazel"@)),
        alike_at(a.disk@, b.disk@, join(a.paths@.cache_dir, "bazelisk"@)),
        alike_at(a.disk@, b.disk@, join(a.paths@.cache_dir, "zig"@)),
        alike_at(a.disk@, b.disk@, join(a.paths@.cache_dir, "huggingface"@)),
        alike_at(a.disk@, b.disk@, join(a.paths@.cache_dir, "torch"@)),
{
    assert(cache_places()[0] == "Yarn"@);
    lemma_cache_place(a, b, 0);
    assert(cache_places()[1] == "ms-playwright"@);
    lemma_cache_place(a, b, 1);
    assert(cache_places()[2] == "puppeteer"@);
    lemma_cache_place(a, b, 2);
    assert(cache_places()[3] == "Cypress"@);
    lemma_cache_place(a, b, 3);
    assert(cache_places()[4] == "electron"@);
    lemma_cache_place(a, b, 4);
    assert(cache_places()[5] == "pypoetry/virtualenvs"@);
    lemma_cache_place(a, b, 5);
    assert(cache_places()[6] == "pip"@);
    lemma_cache_place(a, b, 6);
    assert(cache_places()[7] == "uv"@);
    lemma_cache_place(a, b, 7);
    assert(cache_places()[8] == "pypoetry"@);
    lemma_cache_place(a, b, 8);
    assert(cache_places()[9] == "pipenv"@);
    lemma_cache_place(a, b, 9);
    assert(cache_places()[10] == "pre-commit"@);
    lemma_cache_place(a, b, 10);
    assert(cache_places()[11] == "sccache"@);
    lemma_cache_place(a, b, 11);
    assert(cache_places()[12] == "Coursier"@);
    lemma_cache_place(a, b, 12);
    assert(cache_places()[13] == "CocoaPods"@);
    lemma_cache_place(a, b, 13);
    assert(cache_places()[14] == "org.swift.swiftpm"@);
    lemma_cache_place(a, b, 14);
    assert(cache_places()[15] == "com.apple.dt.Xcode"@);
    lemma_cache_place(a, b, 15);
    assert(cache_places()[16] == "bundle"@);
    lemma_cache_place(a, b, 16);
    assert(cache_places()[17] == "composer"@);
    lemma_cache_place(a, b, 17);
    assert(cache_places()[18] == "ccache"@);
    lemma_cache_place(a, b, 18);
    assert(cache_places()[19] == "bazel"@);
    lemma_cache_place(a, b, 19);
    assert(cache_places()[20] == "bazelisk"@);
    lemma_cache_place(a, b, 20);
    assert(cache_places()[21] == "zig"@);
    lemma_cache_place(a, b, 21);
    assert(cache_places()[22] == "huggingface"@);
    lemma_cache_place(a, b, 22);
    assert(cache_places()[23] == "torch"@);
    lemma_cache_place(a, b, 23);
}

proof fn lemma_cargo_known(a: &ScanContext, b: &ScanContext)
    requires
        alike(a, b),
    ensures
        alike_at(a.disk@, b.disk@, join(a.paths@.cargo_home, "registry/src"@)),
        alike_at(a.disk@, b.disk@, join(a.paths@.cargo_home, "registry/cache"@)),
        alike_at(a.disk@, b.disk@, join(a.paths@.cargo_home, "git"@)),
{
    assert(cargo_places()[0] == "registry/src"@);
    lemma_cargo_place(a, b, 0);
    assert(cargo_places()[1] == "registry/cache"@);
    lemma_cargo_place(a, b, 1);
    assert(cargo_places()[2] == "git"@);
    lemma_cargo_place(a, b, 2);
}

proof fn lemma_developer_known(a: &ScanContext, b: &ScanContext)
    requires
        alike(a, b),
    ensures
        alike_at(
            a.disk@,
            b.disk@,
            join(join(a.paths@.home, "Library/Developer"@), "Xcode/DerivedData"@),
        ),
        alike_at(
            a.disk@,
            b.disk@,
            join(join(a.paths@.home, "Library/Developer"@), "Xcode/Archives"@),
        ),
        alike_at(
            a.disk@,
            b.disk@,
            join(join(a.paths@.home, "Library/Developer"@), "Xcode/iOS DeviceSupport"@),
        ),
        alike_at(
            a.disk@,
            b.disk@,
            join(join(a.paths@.home, "Library/Developer"@), "Xcode/watchOS DeviceSupport"@),
        ),
        alike_at(
            a.disk@,
            b.disk@,
            join(join(a.paths@.home, "Library/Developer"@), "Xcode/tvOS DeviceSupport"@),
        ),
        alike_at(
            a.disk@,
            b.disk@,
            join(join(a.paths@.home, "Library/Developer"@), "Xcode/visionOS DeviceSupport"@),
        ),
{
    assert(developer_places()[0] == "Xcode/DerivedData"@);
    lemma_developer_place(a, b, 0);
    assert(developer_places()[1] == "Xcode/Archives"@);
    lemma_developer_place(a, b, 1);
    assert(developer_places()[2] == "Xcode/iOS DeviceSupport"@);
    lemma_developer_place(a, b, 2);
    assert(developer_places()[3] == "Xcode/watchOS DeviceSupport"@);
    lemma_developer_place(a, b, 3);
    assert(developer_places()[4] == "Xcode/tvOS DeviceSupport"@);
    lemma_developer_place(a, b, 4);
    assert(developer_places()[5] == "Xcode/visionOS DeviceSupport"@);
    lemma_developer_place(a, b, 5);
}

proof fn lemma_conda_known(a: &ScanContext, b: &ScanContext)
    requires
        alike(a, b),
    ensures
        alike_at(a.disk@, b.disk@, join(join(a.paths@.home, "miniconda3"@), "pkgs"@)),
        alike_at(a.disk@, b.disk@, join(join(a.paths@.home, "anaconda3"@), "pkgs"@)),
        alike_at(a.disk@, b.disk@, join(join(a.paths@.home, "miniforge3"@), "pkgs"@)),
        alike_at(a.disk@, b.disk@, join(join(a.paths@.home, "mambaforge"@), "pkgs"@)),
{
    assert(conda_names()[0] == "miniconda3"@);
    lemma_conda_place(a, b, 0);
    assert(conda_names()[1] == "anaconda3"@);
    lemma_conda_place(a, b, 1);
    assert(conda_names()[2] == "miniforge3"@);
    lemma_conda_place(a, b, 2);
    assert(conda_names()[3] == "mambaforge"@);
    lemma_conda_place(a, b, 3);
}

proof fn lemma_project_known(a: &ScanContext, b: &ScanContext, project: ProjectModel)
    requires
        alike(a, b),
        views(a.projects@).contains(project),
    ensures
        alike_at(a.disk@, b.disk@, join(project.path, "package-lock.json"@)),
        alike_at(a.disk@, b.disk@, join(project.path, "yarn.lock"@)),
        alike_at(a.disk@, b.disk@, join(project.path, "pnpm-lock.yaml"@)),
        alike_at(a.disk@, b.disk@, join(project.path, "bun.lockb"@)),
        alike_at(a.disk@, b.disk@, join(project.path, "bun.lock"@)),
        alike_at(a.disk@, b.disk@, join(project.path, "npm-shrinkwrap.json"@)),
        alike_at(a.disk@, b.disk@, join(project.path, "node_modules"@)),
        alike_at(a.disk@, b.disk@, join(project.path, ".next"@)),
        alike_at(a.disk@, b.disk@, join(project.path, ".nuxt"@)),
        alike_at(a.disk@, b.disk@, join(project.path, ".turbo"@)),
        alike_at(a.disk@, b.disk@, join(project.path, ".parcel-cache"@)),
        alike_at(a.disk@, b.disk@, join(project.path, ".svelte-kit"@)),
        alike_at(a.disk@, b.disk@, join(project.path, ".angular"@)),
        alike_at(a.disk@, b.disk@, join(project.path, "requirements.txt"@)),
        alike_at(a.disk@, b.disk@, join(project.path, "pyproject.toml"@)),
        alike_at(a.disk@, b.disk@, join(project.path, "Pipfile.lock"@)),
        alike_at(a.disk@, b.disk@, join(project.path, "poetry.lock"@)),
        alike_at(a.disk@, b.disk@, join(project.path, "uv.lock"@)),
        alike_at(a.disk@, b.disk@, join(project.path, "environment.yml"@)),
        alike_at(a.disk@, b.disk@, join(project.path, "setup.py"@)),
        alike_at(a.disk@, b.disk@, join(project.path, ".venv"@)),
        alike_at(a.disk@, b.disk@, join(project.path, "venv"@)),
        alike_at(a.disk@, b.disk@, join(project.path, "env"@)),
        alike_at(a.disk@, b.disk@, join(project.path, ".virtualenv"@)),
        alike_at(a.disk@, b.disk@, join(project.path, ".tox"@)),
        alike_at(a.disk@, b.disk@, join(project.path, ".nox"@)),
        alike_at(a.disk@, b.disk@, join(project.path, ".mypy_cache"@)),
        alike_at(a.disk@, b.disk@, join(project.path, ".pytest_cache"@)),
        alike_at(a.disk@, b.disk@, join(project.path, ".ruff_cache"@)),
        alike_at(a.disk@, b.disk@, join(project.path, ".coverage_cache"@)),
        alike_at(a.disk@, b.disk@, join(project.path, "__pycache__"@)),
        alike_at(a.disk@, b.disk@, join(project.path, ".ipynb_checkpoints"@)),
        alike_at(a.disk@, b.disk@, join(project.path, "target"@)),
        alike_at(a.disk@, b.disk@, join(project.path, "build"@)),
        alike_at(a.disk@, b.disk@, join(project.path, "out"@)),
        alike_at(a.disk@, b.disk@, join(project.path, ".gradle"@)),
        alike_at(a.disk@, b.disk@, join(project.path, "Podfile.lock"@)),
        alike_at(a.disk@, b.disk@, join(project.path, "Pods"@)),
        alike_at(a.disk@, b.disk@, join(project.path, "Carthage/Build"@)),
        alike_at(a.disk@, b.disk@, join(project.path, ".build"@)),
        alike_at(a.disk@, b.disk@, join(project.path, "DerivedData"@)),
        alike_at(a.disk@, b.disk@, join(project.path, "bin"@)),
        alike_at(a.disk@, b.disk@, join(project.path, "obj"@)),
        alike_at(a.disk@, b.disk@, join(project.path, "Gemfile.lock"@)),
        alike_at(a.disk@, b.disk@, join(project.path, "vendor/bundle"@)),
        alike_at(a.disk@, b.disk@, join(project.path, "composer.lock"@)),
        alike_at(a.disk@, b.disk@, join(project.path, "vendor"@)),
        alike_at(a.disk@, b.disk@, join(project.path, ".dart_tool"@)),
        alike_at(a.disk@, b.disk@, join(project.path, ".comfy_environment"@)),
        alike_at(a.disk@, b.disk@, join(project.path, "models"@)),
        alike_at(a.disk@, b.disk@, join(project.path, "output"@)),
        alike_at(a.disk@, b.disk@, join(project.path, "public/scripts/world-info.js"@)),
        alike_at(a.disk@, b.disk@, join(project.path, "data/_cache"@)),
        alike_at(a.disk@, b.disk@, join(project.path, "data/_webpack"@)),
        alike_at(a.disk@, b.disk@, join(project.path, "data/_uploads"@)),
        alike_at(a.disk@, b.disk@, join(project.path, "data"@)),
        alike_at(a.disk@, b.disk@, join(project.path, "webui.py"@)),
        alike_at(a.disk@, b.disk@, join(project.path, "modules/paths_internal.py"@)),
        alike_at(a.disk@, b.disk@, join(project.path, "outputs"@)),
{
    let i = views(a.projects@).index_of(project);
    assert(project_places()[0] == "package-lock.json"@);
    lemma_project_place(a, b, i, 0);
    assert(project_places()[1] == "yarn.lock"@);
    lemma_project_place(a, b, i, 1);
    assert(project_places()[2] == "pnpm-lock.yaml"@);
    lemma_project_place(a, b, i, 2);
    assert(project_places()[3] == "bun.lockb"@);
    lemma_project_place(a, b, i, 3);
    assert(project_places()[4] == "bun.lock"@);
    lemma_project_place(a, b, i, 4);
    assert(project_places()[5] == "npm-shrinkwrap.json"@);
    lemma_project_place(a, b, i, 5);
    assert(project_places()[6] == "node_modules"@);
    lemma_project_place(a, b, i, 6);
    assert(project_places()[7] == ".next"@);
    lemma_project_place(a, b, i, 7);
    assert(project_places()[8] == ".nuxt"@);
    lemma_project_place(a, b, i, 8);
    assert(project_places()[9] == ".turbo"@);
    lemma_project_place(a, b, i, 9);
    assert(project_places()[10] == ".parcel-cache"@);
    lemma_project_place(a, b, i, 10);
    assert(project_places()[11] == ".svelte-kit"@);
    lemma_project_place(a, b, i, 11);
    assert(project_places()[12] == ".angular"@);
    lemma_project_place(a, b, i, 12);
    assert(project_places()[13] == "requirements.txt"@);
    lemma_project_place(a, b, i, 13);
    assert(project_places()[14] == "pyproject.toml"@);
    lemma_project_place(a, b, i, 14);
    assert(project_places()[15] == "Pipfile.lock"@);
    lemma_project_place(a, b, i, 15);
    assert(project_places()[16] == "poetry.lock"@);
    lemma_project_place(a, b, i, 16);
    assert(project_places()[17] == "uv.lock"@);
    lemma_project_place(a, b, i, 17);
    assert(project_places()[18] == "environment.yml"@);
    lemma_project_place(a, b, i, 18);
    assert(project_places()[19] == "setup.py"@);
    lemma_project_place(a, b, i, 19);
    assert(project_places()[20] == ".venv"@);
    lemma_project_place(a, b, i, 20);
    assert(project_places()[21] == "venv"@);
    lemma_project_place(a, b, i, 21);
    assert(project_places()[22] == "env"@);
    lemma_project_place(a, b, i, 22);
    assert(project_places()[23] == ".virtualenv"@);
    lemma_project_place(a, b, i, 23);
    assert(project_places()[24] == ".tox"@);
    lemma_project_place(a, b, i, 24);
    assert(project_places()[25] == ".nox"@);
    lemma_project_place(a, b, i, 25);
    assert(project_places()[26] == ".mypy_cache"@);
    lemma_project_place(a, b, i, 26);
    assert(project_places()[27] == ".pytest_cache"@);
    lemma_project_place(a, b, i, 27);
    assert(project_places()[28] == ".ruff_cache"@);
    lemma_project_place(a, b, i, 28);
    assert(project_places()[29] == ".coverage_cache"@);
    lemma_project_place(a, b, i, 29);
    assert(project_places()[30] == "__pycache__"@);
    lemma_project_place(a, b, i, 30);
    assert(project_places()[31] == ".ipynb_checkpoints"@);
    lemma_project_place(a, b, i, 31);
    assert(project_places()[32] == "target"@);
    lemma_project_place(a, b, i, 32);
    assert(project_places()[33] == "build"@);
    lemma_project_place(a, b, i, 33);
    assert(project_places()[34] == "out"@);
    lemma_project_place(a, b, i, 34);
    assert(project_places()[35] == ".gradle"@);
    lemma_project_place(a, b, i, 35);
    assert(project_places()[36] == "Podfile.lock"@);
    lemma_project_place(a, b, i, 36);
    assert(project_places()[37] == "Pods"@);
    lemma_project_place(a, b, i, 37);
    assert(project_places()[38] == "Carthage/Build"@);
    lemma_project_place(a, b, i, 38);
    assert(project_places()[39] == ".build"@);
    lemma_project_place(a, b, i, 39);
    assert(project_places()[40] == "DerivedData"@);
    lemma_project_place(a, b, i, 40);
    assert(project_places()[41] == "bin"@);
    lemma_project_place(a, b, i, 41);
    assert(project_places()[42] == "obj"@);
    lemma_project_place(a, b, i, 42);
    assert(project_places()[43] == "Gemfile.lock"@);
    lemma_project_place(a, b, i, 43);
    assert(project_places()[44] == "vendor/bundle"@);
    lemma_project_place(a, b, i, 44);
    assert(project_places()[45] == "composer.lock"@);
    lemma_project_place(a, b, i, 45);
    assert(project_places()[46] == "vendor"@);
    lemma_project_place(a, b, i, 46);
    assert(project_places()[47] == ".dart_tool"@);
    lemma_project_place(a, b, i, 47);
    assert(project_places()[48] == ".comfy_environment"@);
    lemma_project_place(a, b, i, 48);
    assert(project_places()[49] == "models"@);
    lemma_project_place(a, b, i, 49);
    assert(project_places()[50] == "output"@);
    lemma_project_place(a, b, i, 50);
    assert(project_places()[51] == "public/scripts/world-info.js"@);
    lemma_project_place(a, b, i, 51);
    assert(project_places()[52] == "data/_cache"@);
    lemma_project_place(a, b, i, 52);
    assert(project_places()[53] == "data/_webpack"@);
    lemma_project_place(a, b, i, 53);
    assert(project_places()[54] == "data/_uploads"@);
    lemma_project_place(a, b, i, 54);
    assert(project_places()[55] == "data"@);
    lemma_project_place(a, b, i, 55);
    assert(project_places()[56] == "webui.py"@);
    lemma_project_place(a, b, i, 56);
    assert(project_places()[57] == "modules/paths_internal.py"@);
    lemma_project_place(a, b, i, 57);
    assert(project_places()[58] == "outputs"@);
    lemma_project_place(a, b, i, 58);
}

proof fn lemma_marks_known(a: &ScanContext, b: &ScanContext, project: ProjectModel)
    requires
        alike(a, b),
        views(a.projects@).contains(project),
    ensures
        alike_at(a.disk@, b.disk@, join(join(project.path, ".venv"@), "pyvenv.cfg"@)),
        alike_at(a.disk@, b.disk@, join(join(project.path, "venv"@), "pyvenv.cfg"@)),
        alike_at(a.disk@, b.disk@, join(join(project.path, "env"@), "pyvenv.cfg"@)),
        alike_at(a.disk@, b.disk@, join(join(project.path, ".virtualenv"@), "pyvenv.cfg"@)),
        alike_at(a.disk@, b.disk@, join(join(project.path, "build"@), "CMakeCache.txt"@)),
{
    let i = views(a.projects@).index_of(project);
    assert(marking_files()[0] == "pyvenv.cfg"@);
    assert(marking_files()[1] == "CMakeCache.txt"@);
    assert(signed_dirs()[0] == ".venv"@);
    lemma_mark_place(a, b, i, 0, 0);
    assert(signed_dirs()[1] == "venv"@);
    lemma_mark_place(a, b, i, 1, 0);
    assert(signed_dirs()[2] == "env"@);
    lemma_mark_place(a, b, i, 2, 0);
    assert(signed_dirs()[3] == ".virtualenv"@);
    lemma_mark_place(a, b, i, 3, 0);
    assert(signed_dirs()[4] == "build"@);
    lemma_mark_place(a, b, i, 4, 1);
}

proof fn lemma_machine_known(a: &ScanContext, b: &ScanContext)
    requires
        alike(a, b),
    ensures
        a.disk@.commands.contains("go"@) == b.disk@.commands.contains("go"@),
        a.disk@.commands.contains("docker"@) == b.disk@.commands.contains("docker"@),
        a.disk@.commands.contains("xcrun"@) == b.disk@.commands.contains("xcrun"@),
        a.disk@.commands.contains("brew"@) == b.disk@.commands.contains("brew"@),
        a.disk@.commands.contains("nix-collect-garbage"@) == b.disk@.commands.contains(
            "nix-collect-garbage"@,
        ),
        a.disk@.ports.contains(11_434) == b.disk@.ports.contains(11_434),
        a.disk@.ports.contains(1_234) == b.disk@.ports.contains(1_234),
        a.disk@.ports.contains(8_188) == b.disk@.ports.contains(8_188),
        a.disk@.ports.contains(8_000) == b.disk@.ports.contains(8_000),
        a.disk@.ports.contains(7_860) == b.disk@.ports.contains(7_860),
{
    assert(command_names()[0] == "go"@);
    assert(command_names()[1] == "docker"@);
    assert(command_names()[2] == "xcrun"@);
    assert(command_names()[3] == "brew"@);
    assert(command_names()[4] == "nix-collect-garbage"@);
    assert(port_numbers()[0] == 11_434);
    assert(port_numbers()[1] == 1_234);
    assert(port_numbers()[2] == 8_188);
    assert(port_numbers()[3] == 8_000);
    assert(port_numbers()[4] == 7_860);
}

proof fn lemma_marked_member(projects: Seq<ProjectModel>, markers: Seq<Seq<char>>, i: int)
    requires
        0 <= i < marked_with(projects, markers).len(),
    ensures
        projects.contains(marked_with(projects, markers)[i]),
    decreases projects.len(),
{
    let before = projects.drop_last();
    let marked = marked_with(projects, markers);
    if i < marked_with(before, markers).len() {
        lemma_marked_member(before, markers, i);
        let k = before.index_of(marked[i]);
        assert(projects[k] == marked[i]);
    } else {
        assert(projects[projects.len() - 1] == marked[i]);
    }
}

proof fn lemma_alike_projects<B: ProjectOffers>(
    build: &B,
    a: &ScanContext,
    b: &ScanContext,
    projects: Seq<ProjectModel>,
)
    requires
        forall|i: int|
            0 <= i < projects.len() ==> build.offers_in(a, #[trigger] projects[i])
                == build.offers_in(b, projects[i]),
    ensures
        offers_in_all(build, a, projects) == offers_in_all(build, b, projects),
    decreases projects.len(),
{
    if projects.len() > 0 {
        let before = projects.drop_last();
        assert forall|i: int| 0 <= i < before.len() implies build.offers_in(a, #[trigger] before[i])
            == build.offers_in(b, before[i]) by {
            assert(before[i] == projects[i]);
        }
        lemma_alike_projects(build, a, b, before);
        assert(projects[projects.len() - 1] == projects.last());
    }
}

proof fn lemma_alike_subdirs<B: SubdirOffers>(
    build: &B,
    a: &ScanContext,
    b: &ScanContext,
    dir: Seq<char>,
    names: Seq<Seq<char>>,
)
    requires
        forall|i: int|
            0 <= i < names.len() ==> build.offer_of(a, dir, #[trigger] names[i])
                == build.offer_of(b, dir, names[i]),
    ensures
        offers_of_all(build, a, dir, names) == offers_of_all(build, b, dir, names),
    decreases names.len(),
{
    if names.len() > 0 {
        let before = names.drop_last();
        assert forall|i: int| 0 <= i < before.len() implies build.offer_of(
            a,
            dir,
            #[trigger] before[i],
        ) == build.offer_of(b, dir, before[i]) by {
            assert(before[i] == names[i]);
        }
        lemma_alike_subdirs(build, a, b, dir, before);
        assert(names[names.len() - 1] == names.last());
    }
}

proof fn lemma_any_file(
    a: &ScanContext,
    b: &ScanContext,
    project: ProjectModel,
    names: Seq<Seq<char>>,
    start: int,
)
    requires
        alike(a, b),
        views(a.projects@).contains(project),
        0 <= start,
        start + names.len() <= project_places().len(),
        forall|i: int|
            0 <= i < names.len() ==> #[trigger] names[i] == project_places()[start + i],
    ensures
        any_file(a.disk@, project.path, names) == any_file(b.disk@, project.path, names),
{
    let p = views(a.projects@).index_of(project);
    assert forall|i: int| 0 <= i < names.len() implies a.disk@.is_file(
        join(project.path, #[trigger] names[i]),
    ) == b.disk@.is_file(join(project.path, names[i])) by {
        lemma_project_place(a, b, p, start + i);
    }
}

proof fn lemma_alike_in_node_modules(a: &ScanContext, b: &ScanContext, project: ProjectModel)
    requires
        alike(a, b),
        views(a.projects@).contains(project),
    ensures
        NodeModules.offers_in(a, project) == NodeModules.offers_in(b, project),
{
    lemma_project_known(a, b, project);
    let at = project.path;
    let locked = any_file(a.disk@, at, lockfiles());
    lemma_any_file(a, b, project, lockfiles(), 0);
    assert(locked == any_file(b.disk@, at, lockfiles()));
    assert(modules_offer(a, at, locked) == modules_offer(b, at, locked));
    assert(crate::providers::node::build_output_offer(a, at, "Next.js build output"@, ".next"@)
        == crate::providers::node::build_output_offer(b, at, "Next.js build output"@, ".next"@));
    assert(crate::providers::node::build_output_offer(a, at, "Nuxt build output"@, ".nuxt"@)
        == crate::providers::node::build_output_offer(b, at, "Nuxt build output"@, ".nuxt"@));
    assert(crate::providers::node::build_output_offer(a, at, "Turborepo cache"@, ".turbo"@)
        == crate::providers::node::build_output_offer(b, at, "Turborepo cache"@, ".turbo"@));
    assert(crate::providers::node::build_output_offer(a, at, "Parcel cache"@, ".parcel-cache"@)
        == crate::providers::node::build_output_offer(b, at, "Parcel cache"@, ".parcel-cache"@));
    assert(crate::providers::node::build_output_offer(
        a,
        at,
        "SvelteKit build output"@,
        ".svelte-kit"@,
    ) == crate::providers::node::build_output_offer(
        b,
        at,
        "SvelteKit build output"@,
        ".svelte-kit"@,
    ));
    assert(crate::providers::node::build_output_offer(a, at, "Angular cache"@, ".angular"@)
        == crate::providers::node::build_output_offer(b, at, "Angular cache"@, ".angular"@));
}

proof fn lemma_alike_in_python_projects(a: &ScanContext, b: &ScanContext, project: ProjectModel)
    requires
        alike(a, b),
        views(a.projects@).contains(project),
    ensures
        PythonProjects.offers_in(a, project) == PythonProjects.offers_in(b, project),
{
    lemma_project_known(a, b, project);
    lemma_marks_known(a, b, project);
    let at = project.path;
    let reproducible = any_file(a.disk@, at, dependency_specs());
    lemma_any_file(a, b, project, dependency_specs(), 13);
    assert(reproducible == any_file(b.disk@, at, dependency_specs()));
    assert(venv_offer(a, at, ".venv"@, reproducible) == venv_offer(b, at, ".venv"@, reproducible));
    assert(venv_offer(a, at, "venv"@, reproducible) == venv_offer(b, at, "venv"@, reproducible));
    assert(venv_offer(a, at, "env"@, reproducible) == venv_offer(b, at, "env"@, reproducible));
    assert(venv_offer(a, at, ".virtualenv"@, reproducible)
        == venv_offer(b, at, ".virtualenv"@, reproducible));
    assert(tool_cache_offer(a, at, ".tox"@, "tox environments"@)
        == tool_cache_offer(b, at, ".tox"@, "tox environments"@));
    assert(tool_cache_offer(a, at, ".nox"@, "nox environments"@)
        == tool_cache_offer(b, at, ".nox"@, "nox environments"@));
    assert(tool_cache_offer(a, at, ".mypy_cache"@, "mypy cache"@)
        == tool_cache_offer(b, at, ".mypy_cache"@, "mypy cache"@));
    assert(tool_cache_offer(a, at, ".pytest_cache"@, "pytest cache"@)
        == tool_cache_offer(b, at, ".pytest_cache"@, "pytest cache"@));
    assert(tool_cache_offer(a, at, ".ruff_cache"@, "Ruff cache"@)
        == tool_cache_offer(b, at, ".ruff_cache"@, "Ruff cache"@));
    assert(tool_cache_offer(a, at, ".coverage_cache"@, "coverage cache"@)
        == tool_cache_offer(b, at, ".coverage_cache"@, "coverage cache"@));
    assert(tool_cache_offer(a, at, "__pycache__"@, "bytecode cache"@)
        == tool_cache_offer(b, at, "__pycache__"@, "bytecode cache"@));
    assert(tool_cache_offer(a, at, ".ipynb_checkpoints"@, "notebook checkpoints"@)
        == tool_cache_offer(b, at, ".ipynb_checkpoints"@, "notebook checkpoints"@));
}

proof fn lemma_alike_in_rust_targets(a: &ScanContext, b: &ScanContext, project: ProjectModel)
    requires
        alike(a, b),
        views(a.projects@).contains(project),
    ensures
        RustTargets.offers_in(a, project) == RustTargets.offers_in(b, project),
{
    lemma_project_known(a, b, project);
    let at = project.path;
    assert(target_offer(a, at) == target_offer(b, at));
}

proof fn lemma_alike_in_jvm_projects(a: &ScanContext, b: &ScanContext, project: ProjectModel)
    requires
        alike(a, b),
        views(a.projects@).contains(project),
    ensures
        JvmProjects.offers_in(a, project) == JvmProjects.offers_in(b, project),
{
    lemma_project_known(a, b, project);
    let at = project.path;
    let is_maven = project.marked("pom.xml"@);
    let is_gradle = project.marked_any(gradle_markers());
    assert(output_offer(a, at, "build"@, "Gradle build output"@, is_gradle)
        == output_offer(b, at, "build"@, "Gradle build output"@, is_gradle));
    assert(output_offer(a, at, "target"@, "Maven build output"@, is_maven)
        == output_offer(b, at, "target"@, "Maven build output"@, is_maven));
    assert(output_offer(a, at, "out"@, "IDE build output"@, is_maven || is_gradle)
        == output_offer(b, at, "out"@, "IDE build output"@, is_maven || is_gradle));
    assert(gradle_state_offer(a, at) == gradle_state_offer(b, at));
}

proof fn lemma_alike_in_cocoa_pods(a: &ScanContext, b: &ScanContext, project: ProjectModel)
    requires
        alike(a, b),
        views(a.projects@).contains(project),
    ensures
        CocoaPods.offers_in(a, project) == CocoaPods.offers_in(b, project),
{
    lemma_project_known(a, b, project);
    let at = project.path;
    let locked = a.disk@.is_file(join(at, "Podfile.lock"@));
    assert(pods_offer(a, at, locked) == pods_offer(b, at, locked));
    assert(crate::providers::apple::build_output_offer(
        a,
        at,
        "Carthage/Build"@,
        "Carthage build output"@,
    ) == crate::providers::apple::build_output_offer(
        b,
        at,
        "Carthage/Build"@,
        "Carthage build output"@,
    ));
    assert(crate::providers::apple::build_output_offer(a, at, ".build"@, "SwiftPM build output"@)
        == crate::providers::apple::build_output_offer(b, at, ".build"@, "SwiftPM build output"@));
    assert(crate::providers::apple::build_output_offer(
        a,
        at,
        "DerivedData"@,
        "project DerivedData"@,
    ) == crate::providers::apple::build_output_offer(
        b,
        at,
        "DerivedData"@,
        "project DerivedData"@,
    ));
}

proof fn lemma_alike_in_dot_net_projects(a: &ScanContext, b: &ScanContext, project: ProjectModel)
    requires
        alike(a, b),
        views(a.projects@).contains(project),
    ensures
        DotNetProjects.offers_in(a, project) == DotNetProjects.offers_in(b, project),
{
    lemma_project_known(a, b, project);
    let at = project.path;
    assert(dotnet_output_offer(a, at, "bin"@, ".NET bin output"@)
        == dotnet_output_offer(b, at, "bin"@, ".NET bin output"@));
    assert(dotnet_output_offer(a, at, "obj"@, ".NET obj output"@)
        == dotnet_output_offer(b, at, "obj"@, ".NET obj output"@));
}

proof fn lemma_alike_in_ruby_projects(a: &ScanContext, b: &ScanContext, project: ProjectModel)
    requires
        alike(a, b),
        views(a.projects@).contains(project),
    ensures
        RubyProjects.offers_in(a, project) == RubyProjects.offers_in(b, project),
{
    lemma_project_known(a, b, project);
    let at = project.path;
    let locked = a.disk@.is_file(join(at, "Gemfile.lock"@));
    assert(vendored_gems_offer(a, at, locked) == vendored_gems_offer(b, at, locked));
}

proof fn lemma_alike_in_php_projects(a: &ScanContext, b: &ScanContext, project: ProjectModel)
    requires
        alike(a, b),
        views(a.projects@).contains(project),
    ensures
        PhpProjects.offers_in(a, project) == PhpProjects.offers_in(b, project),
{
    lemma_project_known(a, b, project);
    let at = project.path;
    let locked = a.disk@.is_file(join(at, "composer.lock"@));
    assert(vendored_packages_offer(a, at, locked) == vendored_packages_offer(b, at, locked));
}

proof fn lemma_alike_in_dart_projects(a: &ScanContext, b: &ScanContext, project: ProjectModel)
    requires
        alike(a, b),
        views(a.projects@).contains(project),
    ensures
        DartProjects.offers_in(a, project) == DartProjects.offers_in(b, project),
{
    lemma_project_known(a, b, project);
    let at = project.path;
    assert(dart_output_offer(a, at, ".dart_tool"@, "Dart tool cache"@)
        == dart_output_offer(b, at, ".dart_tool"@, "Dart tool cache"@));
    assert(dart_output_offer(a, at, "build"@, "Flutter build output"@)
        == dart_output_offer(b, at, "build"@, "Flutter build output"@));
}

proof fn lemma_alike_in_build_tool_projects(a: &ScanContext, b: &ScanContext, project: ProjectModel)
    requires
        alike(a, b),
        views(a.projects@).contains(project),
    ensures
        BuildToolProjects.offers_in(a, project) == BuildToolProjects.offers_in(b, project),
{
    lemma_project_known(a, b, project);
    lemma_marks_known(a, b, project);
    let at = project.path;
    assert(cmake_build_offer(a, at) == cmake_build_offer(b, at));
}

proof fn lemma_alike_in_comfy_ui(a: &ScanContext, b: &ScanContext, project: ProjectModel)
    requires
        alike(a, b),
        views(a.projects@).contains(project),
    ensures
        ComfyUi.offers_in(a, project) == ComfyUi.offers_in(b, project),
{
    lemma_project_known(a, b, project);
    lemma_machine_known(a, b);
    let at = project.path;
    assert(comfyui_models_offer(a, at) == comfyui_models_offer(b, at));
    assert(comfyui_output_offer(a, at) == comfyui_output_offer(b, at));
}

proof fn lemma_alike_thumbnails(a: &ScanContext, b: &ScanContext, project: ProjectModel)
    requires
        alike(a, b),
        views(a.projects@).contains(project),
    ensures
        ({
            let data = join(project.path, "data"@);
            all_thumbnails_offer(a, project.path, data, a.disk@.subdir_names(data))
                == all_thumbnails_offer(b, project.path, data, b.disk@.subdir_names(data))
        }),
{
    let data = join(project.path, "data"@);
    let projects = views(a.projects@);
    let i = projects.index_of(project);
    lemma_machine_known(a, b);
    lemma_in_below_projects(projects, seq!["data"@], i, 0);
    lemma_listed(a, b, 4, data);
    let names = a.disk@.subdir_names(data);
    assert forall|k: int| 0 <= k < names.len() implies alike_at(
        a.disk@,
        b.disk@,
        join(join(data, #[trigger] names[k]), "thumbnails"@),
    ) by {
        let path = join(join(data, names[k]), "thumbnails"@);
        lemma_in_thumbnails(a.disk@, projects, i, k);
        lemma_in_sum(
            registrations(
                a.paths@.android_avd,
                a.disk@.subdir_names(a.paths@.android_avd),
            ),
            all_thumbnail_places(a.disk@, projects),
            path,
        );
        let at = further(a).index_of(path);
        assert(alike_at(a.disk@, b.disk@, further(a)[at]));
    }
    lemma_thumbnails_alike(a, b, project.path, data, names);
}

proof fn lemma_thumbnails_alike(
    a: &ScanContext,
    b: &ScanContext,
    at: Seq<char>,
    dir: Seq<char>,
    names: Seq<Seq<char>>,
)
    requires
        a.config.providers == b.config.providers,
        a.disk@.ports.contains(8_000) == b.disk@.ports.contains(8_000),
        forall|k: int|
            0 <= k < names.len() ==> alike_at(
                a.disk@,
                b.disk@,
                join(join(dir, #[trigger] names[k]), "thumbnails"@),
            ),
    ensures
        all_thumbnails_offer(a, at, dir, names) == all_thumbnails_offer(b, at, dir, names),
    decreases names.len(),
{
    if names.len() > 0 {
        let before = names.drop_last();
        assert forall|k: int| 0 <= k < before.len() implies alike_at(
            a.disk@,
            b.disk@,
            join(join(dir, #[trigger] before[k]), "thumbnails"@),
        ) by {
            assert(before[k] == names[k]);
        }
        lemma_thumbnails_alike(a, b, at, dir, before);
        let path = join(join(dir, names[names.len() - 1]), "thumbnails"@);
        assert(alike_at(a.disk@, b.disk@, path));
        assert(thumbnails_offer(a, at, path) == thumbnails_offer(b, at, path));
    }
}

proof fn lemma_alike_in_silly_tavern(a: &ScanContext, b: &ScanContext, project: ProjectModel)
    requires
        alike(a, b),
        views(a.projects@).contains(project),
    ensures
        SillyTavern.offers_in(a, project) == SillyTavern.offers_in(b, project),
{
    lemma_project_known(a, b, project);
    lemma_machine_known(a, b);
    let at = project.path;
    let data = join(at, "data"@);
    lemma_alike_thumbnails(a, b, project);
    assert(tavern_cache_offer(a, at, "SillyTavern content cache"@, "data/_cache"@)
        == tavern_cache_offer(b, at, "SillyTavern content cache"@, "data/_cache"@));
    assert(tavern_cache_offer(a, at, "SillyTavern webpack cache"@, "data/_webpack"@)
        == tavern_cache_offer(b, at, "SillyTavern webpack cache"@, "data/_webpack"@));
    assert(tavern_cache_offer(a, at, "SillyTavern upload cache"@, "data/_uploads"@)
        == tavern_cache_offer(b, at, "SillyTavern upload cache"@, "data/_uploads"@));
}

proof fn lemma_alike_in_automatic1111(a: &ScanContext, b: &ScanContext, project: ProjectModel)
    requires
        alike(a, b),
        views(a.projects@).contains(project),
    ensures
        Automatic1111.offers_in(a, project) == Automatic1111.offers_in(b, project),
{
    lemma_project_known(a, b, project);
    lemma_machine_known(a, b);
    let at = project.path;
    assert(webui_models_offer(a, at) == webui_models_offer(b, at));
    assert(webui_output_offer(a, at) == webui_output_offer(b, at));
}

proof fn lemma_alike_device_support(a: &ScanContext, b: &ScanContext)
    requires
        alike(a, b),
    ensures
        ({
            let developer = join(a.paths@.home, "Library/Developer"@);
            &&& device_support_offer(a, developer, "iOS"@) == device_support_offer(
                b,
                developer,
                "iOS"@,
            )
            &&& device_support_offer(a, developer, "watchOS"@) == device_support_offer(
                b,
                developer,
                "watchOS"@,
            )
            &&& device_support_offer(a, developer, "tvOS"@) == device_support_offer(
                b,
                developer,
                "tvOS"@,
            )
            &&& device_support_offer(a, developer, "visionOS"@) == device_support_offer(
                b,
                developer,
                "visionOS"@,
            )
        }),
{
    let developer = join(a.paths@.home, "Library/Developer"@);
    lemma_developer_known(a, b);
    reveal_strlit("Xcode/");
    reveal_strlit(" DeviceSupport");
    reveal_strlit("iOS");
    reveal_strlit("Xcode/iOS DeviceSupport");
    assert("Xcode/"@ + "iOS"@ + " DeviceSupport"@ =~= "Xcode/iOS DeviceSupport"@);
    assert(developer_listings()[1] == "Xcode/iOS DeviceSupport"@);
    lemma_in_below(developer, developer_listings(), 1);
    lemma_listed(a, b, 1, join(developer, "Xcode/iOS DeviceSupport"@));
    reveal_strlit("watchOS");
    reveal_strlit("Xcode/watchOS DeviceSupport");
    assert("Xcode/"@ + "watchOS"@ + " DeviceSupport"@ =~= "Xcode/watchOS DeviceSupport"@);
    assert(developer_listings()[2] == "Xcode/watchOS DeviceSupport"@);
    lemma_in_below(developer, developer_listings(), 2);
    lemma_listed(a, b, 1, join(developer, "Xcode/watchOS DeviceSupport"@));
    reveal_strlit("tvOS");
    reveal_strlit("Xcode/tvOS DeviceSupport");
    assert("Xcode/"@ + "tvOS"@ + " DeviceSupport"@ =~= "Xcode/tvOS DeviceSupport"@);
    assert(developer_listings()[3] == "Xcode/tvOS DeviceSupport"@);
    lemma_in_below(developer, developer_listings(), 3);
    lemma_listed(a, b, 1, join(developer, "Xcode/tvOS DeviceSupport"@));
    reveal_strlit("visionOS");
    reveal_strlit("Xcode/visionOS DeviceSupport");
    assert("Xcode/"@ + "visionOS"@ + " DeviceSupport"@ =~= "Xcode/visionOS DeviceSupport"@);
    assert(developer_listings()[4] == "Xcode/visionOS DeviceSupport"@);
    lemma_in_below(developer, developer_listings(), 4);
    lemma_listed(a, b, 1, join(developer, "Xcode/visionOS DeviceSupport"@));
}

proof fn lemma_alike_editor(a: &ScanContext, b: &ScanContext, i: int)
    requires
        alike(a, b),
        0 <= i < editor_names().len(),
    ensures
        editor_offer(a, editor_names()[i]) == editor_offer(b, editor_names()[i]),
{
    let editor = editor_names()[i];
    let base = join(app_support(a), editor);
    assert(base == join(app_support(b), editor));
    assert(editor_places()[0] == "Cache"@);
    lemma_editor_place(a, b, i, 0);
    assert(editor_places()[1] == "CachedData"@);
    lemma_editor_place(a, b, i, 1);
    assert(editor_places()[2] == "CachedExtensionVSIXs"@);
    lemma_editor_place(a, b, i, 2);
    assert(editor_places()[3] == "logs"@);
    lemma_editor_place(a, b, i, 3);
    assert(editor_places()[4] == "Crashpad"@);
    lemma_editor_place(a, b, i, 4);
    assert(editor_places()[5] == "User/workspaceStorage"@);
    lemma_editor_place(a, b, i, 5);
    assert(editor_cache_offer(a, base, editor, "Cache"@, "cache"@)
        == editor_cache_offer(b, base, editor, "Cache"@, "cache"@));
    assert(editor_cache_offer(a, base, editor, "CachedData"@, "cached data"@)
        == editor_cache_offer(b, base, editor, "CachedData"@, "cached data"@));
    assert(editor_cache_offer(
        a,
        base,
        editor,
        "CachedExtensionVSIXs"@,
        "cached extension packages"@,
    ) == editor_cache_offer(
        b,
        base,
        editor,
        "CachedExtensionVSIXs"@,
        "cached extension packages"@,
    ));
    assert(editor_cache_offer(a, base, editor, "logs"@, "logs"@)
        == editor_cache_offer(b, base, editor, "logs"@, "logs"@));
    assert(editor_cache_offer(a, base, editor, "Crashpad"@, "crash reports"@)
        == editor_cache_offer(b, base, editor, "Crashpad"@, "crash reports"@));
    assert(workspaces_offer(a, base, editor) == workspaces_offer(b, base, editor));
}

proof fn lemma_alike_node_caches(a: &ScanContext, b: &ScanContext)
    requires
        alike(a, b),
    ensures
        NodeCaches.offers(a) == NodeCaches.offers(b),
{
    lemma_home_known(a, b);
    lemma_cache_known(a, b);
    lemma_machine_known(a, b);
    assert(npm_offer(a) == npm_offer(b));
    assert(pnpm_offer(a, join(a.paths@.home, "Library/pnpm/store"@))
        == pnpm_offer(b, join(b.paths@.home, "Library/pnpm/store"@)));
    assert(pnpm_offer(a, join(a.paths@.home, ".pnpm-store"@))
        == pnpm_offer(b, join(b.paths@.home, ".pnpm-store"@)));
    assert(pnpm_offer(a, join(a.paths@.home, ".local/share/pnpm/store"@))
        == pnpm_offer(b, join(b.paths@.home, ".local/share/pnpm/store"@)));
    assert(yarn_offer(a, "Yarn v1 cache"@, join(a.paths@.cache_dir, "Yarn"@))
        == yarn_offer(b, "Yarn v1 cache"@, join(b.paths@.cache_dir, "Yarn"@)));
    assert(yarn_offer(a, "Yarn Berry cache"@, join(a.paths@.home, ".yarn/berry/cache"@))
        == yarn_offer(b, "Yarn Berry cache"@, join(b.paths@.home, ".yarn/berry/cache"@)));
    assert(yarn_offer(a, "Yarn global cache"@, join(a.paths@.home, ".cache/yarn"@))
        == yarn_offer(b, "Yarn global cache"@, join(b.paths@.home, ".cache/yarn"@)));
    assert(bun_offer(a) == bun_offer(b));
    assert(node_gyp_offer(a) == node_gyp_offer(b));
    assert(browsers_offer(
        a,
        "node.playwright"@,
        "Playwright browsers"@,
        join(a.paths@.cache_dir, "ms-playwright"@),
        "Playwright CDN"@,
    ) == browsers_offer(
        b,
        "node.playwright"@,
        "Playwright browsers"@,
        join(b.paths@.cache_dir, "ms-playwright"@),
        "Playwright CDN"@,
    ));
    assert(browsers_offer(
        a,
        "node.puppeteer"@,
        "Puppeteer browsers"@,
        join(a.paths@.cache_dir, "puppeteer"@),
        "the Chromium CDN"@,
    ) == browsers_offer(
        b,
        "node.puppeteer"@,
        "Puppeteer browsers"@,
        join(b.paths@.cache_dir, "puppeteer"@),
        "the Chromium CDN"@,
    ));
    assert(browsers_offer(
        a,
        "node.cypress"@,
        "Cypress binaries"@,
        join(a.paths@.cache_dir, "Cypress"@),
        "the Cypress CDN"@,
    ) == browsers_offer(
        b,
        "node.cypress"@,
        "Cypress binaries"@,
        join(b.paths@.cache_dir, "Cypress"@),
        "the Cypress CDN"@,
    ));
    assert(browsers_offer(
        a,
        "node.electron"@,
        "Electron binaries"@,
        join(a.paths@.cache_dir, "electron"@),
        "the Electron CDN"@,
    ) == browsers_offer(
        b,
        "node.electron"@,
        "Electron binaries"@,
        join(b.paths@.cache_dir, "electron"@),
        "the Electron CDN"@,
    ));
}

proof fn lemma_alike_node_modules(a: &ScanContext, b: &ScanContext)
    requires
        alike(a, b),
    ensures
        NodeModules.offers(a) == NodeModules.offers(b),
{
    lemma_home_known(a, b);
    lemma_cache_known(a, b);
    lemma_machine_known(a, b);
    let node_modules = a.marked(seq!["package.json"@]);
    assert forall|i: int| 0 <= i < node_modules.len() implies NodeModules.offers_in(a, #[trigger] node_modules[i])
        == NodeModules.offers_in(b, node_modules[i]) by {
        lemma_marked_member(views(a.projects@), seq!["package.json"@], i);
        lemma_alike_in_node_modules(a, b, node_modules[i]);
    }
    lemma_alike_projects(&NodeModules, a, b, node_modules);
}

proof fn lemma_alike_python_caches(a: &ScanContext, b: &ScanContext)
    requires
        alike(a, b),
    ensures
        PythonCaches.offers(a) == PythonCaches.offers(b),
{
    lemma_home_known(a, b);
    lemma_cache_known(a, b);
    lemma_machine_known(a, b);
    lemma_conda_known(a, b);
    assert(pypi_offer(
        a,
        "python.pip-cache"@,
        "pip download cache"@,
        join(a.paths@.cache_dir, "pip"@),
    ) == pypi_offer(
        b,
        "python.pip-cache"@,
        "pip download cache"@,
        join(b.paths@.cache_dir, "pip"@),
    ));
    assert(pypi_offer(a, "python.uv-cache"@, "uv cache"@, join(a.paths@.cache_dir, "uv"@))
        == pypi_offer(b, "python.uv-cache"@, "uv cache"@, join(b.paths@.cache_dir, "uv"@)));
    assert(pypi_offer(
        a,
        "python.poetry-cache"@,
        "Poetry cache"@,
        join(a.paths@.cache_dir, "pypoetry"@),
    ) == pypi_offer(
        b,
        "python.poetry-cache"@,
        "Poetry cache"@,
        join(b.paths@.cache_dir, "pypoetry"@),
    ));
    assert(pypi_offer(
        a,
        "python.pipenv-cache"@,
        "Pipenv cache"@,
        join(a.paths@.cache_dir, "pipenv"@),
    ) == pypi_offer(
        b,
        "python.pipenv-cache"@,
        "Pipenv cache"@,
        join(b.paths@.cache_dir, "pipenv"@),
    ));
    assert(pypi_offer(
        a,
        "python.pre-commit"@,
        "pre-commit hook environments"@,
        join(a.paths@.cache_dir, "pre-commit"@),
    ) == pypi_offer(
        b,
        "python.pre-commit"@,
        "pre-commit hook environments"@,
        join(b.paths@.cache_dir, "pre-commit"@),
    ));
    assert(pypi_offer(
        a,
        "python.pip-cache"@,
        "pip download cache"@,
        join(a.paths@.home, ".cache/pip"@),
    ) == pypi_offer(
        b,
        "python.pip-cache"@,
        "pip download cache"@,
        join(b.paths@.home, ".cache/pip"@),
    ));
    assert(conda_offer(a, "miniconda3"@) == conda_offer(b, "miniconda3"@));
    assert(conda_offer(a, "anaconda3"@) == conda_offer(b, "anaconda3"@));
    assert(conda_offer(a, "miniforge3"@) == conda_offer(b, "miniforge3"@));
    assert(conda_offer(a, "mambaforge"@) == conda_offer(b, "mambaforge"@));
    assert(poetry_venvs_offer(a) == poetry_venvs_offer(b));
}

proof fn lemma_alike_python_projects(a: &ScanContext, b: &ScanContext)
    requires
        alike(a, b),
    ensures
        PythonProjects.offers(a) == PythonProjects.offers(b),
{
    lemma_home_known(a, b);
    lemma_cache_known(a, b);
    lemma_machine_known(a, b);
    let python_projects = a.marked(python_markers());
    assert forall|i: int| 0 <= i < python_projects.len() implies PythonProjects.offers_in(a, #[trigger] python_projects[i])
        == PythonProjects.offers_in(b, python_projects[i]) by {
        lemma_marked_member(views(a.projects@), python_markers(), i);
        lemma_alike_in_python_projects(a, b, python_projects[i]);
    }
    lemma_alike_projects(&PythonProjects, a, b, python_projects);
}

proof fn lemma_alike_rust_caches(a: &ScanContext, b: &ScanContext)
    requires
        alike(a, b),
    ensures
        RustCaches.offers(a) == RustCaches.offers(b),
{
    lemma_home_known(a, b);
    lemma_cache_known(a, b);
    lemma_cargo_known(a, b);
    lemma_machine_known(a, b);
    let dir = join(a.paths@.home, ".rustup/toolchains"@);
    assert(home_listings()[0] == ".rustup/toolchains"@);
    lemma_in_below(a.paths@.home, home_listings(), 0);
    lemma_listed(a, b, 0, dir);
    lemma_alike_subdirs(&Toolchain, a, b, dir, a.disk@.subdir_names(dir));
    assert(registry_src_offer(a) == registry_src_offer(b));
    assert(registry_cache_offer(a) == registry_cache_offer(b));
    assert(git_checkouts_offer(a) == git_checkouts_offer(b));
    assert(rebuilt_offer(a, "rust.sccache"@, "sccache"@, join(a.paths@.cache_dir, "sccache"@))
        == rebuilt_offer(b, "rust.sccache"@, "sccache"@, join(b.paths@.cache_dir, "sccache"@)));
    assert(rebuilt_offer(
        a,
        "rust.rustup-downloads"@,
        "rustup downloads"@,
        join(a.paths@.home, ".rustup/downloads"@),
    ) == rebuilt_offer(
        b,
        "rust.rustup-downloads"@,
        "rustup downloads"@,
        join(b.paths@.home, ".rustup/downloads"@),
    ));
    assert(rebuilt_offer(
        a,
        "rust.rustup-tmp"@,
        "rustup temp files"@,
        join(a.paths@.home, ".rustup/tmp"@),
    ) == rebuilt_offer(
        b,
        "rust.rustup-tmp"@,
        "rustup temp files"@,
        join(b.paths@.home, ".rustup/tmp"@),
    ));
    assert(toolchains_offer(a) == toolchains_offer(b));
}

proof fn lemma_alike_rust_targets(a: &ScanContext, b: &ScanContext)
    requires
        alike(a, b),
    ensures
        RustTargets.offers(a) == RustTargets.offers(b),
{
    lemma_home_known(a, b);
    lemma_cache_known(a, b);
    lemma_cargo_known(a, b);
    lemma_machine_known(a, b);
    let rust_targets = a.marked(seq!["Cargo.toml"@]);
    assert forall|i: int| 0 <= i < rust_targets.len() implies RustTargets.offers_in(a, #[trigger] rust_targets[i])
        == RustTargets.offers_in(b, rust_targets[i]) by {
        lemma_marked_member(views(a.projects@), seq!["Cargo.toml"@], i);
        lemma_alike_in_rust_targets(a, b, rust_targets[i]);
    }
    lemma_alike_projects(&RustTargets, a, b, rust_targets);
}

proof fn lemma_alike_jvm_caches(a: &ScanContext, b: &ScanContext)
    requires
        alike(a, b),
    ensures
        JvmCaches.offers(a) == JvmCaches.offers(b),
{
    lemma_home_known(a, b);
    lemma_cache_known(a, b);
    lemma_machine_known(a, b);
    assert(gradle_offer(
        a,
        "jvm.gradle-caches"@,
        "Gradle caches"@,
        join(a.paths@.home, ".gradle/caches"@),
        "Downloaded dependencies and build caches."@,
    ) == gradle_offer(
        b,
        "jvm.gradle-caches"@,
        "Gradle caches"@,
        join(b.paths@.home, ".gradle/caches"@),
        "Downloaded dependencies and build caches."@,
    ));
    assert(gradle_offer(
        a,
        "jvm.gradle-daemon"@,
        "Gradle daemon logs"@,
        join(a.paths@.home, ".gradle/daemon"@),
        "Daemon logs and registry files."@,
    ) == gradle_offer(
        b,
        "jvm.gradle-daemon"@,
        "Gradle daemon logs"@,
        join(b.paths@.home, ".gradle/daemon"@),
        "Daemon logs and registry files."@,
    ));
    assert(gradle_offer(
        a,
        "jvm.gradle-native"@,
        "Gradle native binaries"@,
        join(a.paths@.home, ".gradle/native"@),
        "Platform helper binaries."@,
    ) == gradle_offer(
        b,
        "jvm.gradle-native"@,
        "Gradle native binaries"@,
        join(b.paths@.home, ".gradle/native"@),
        "Platform helper binaries."@,
    ));
    assert(gradle_offer(
        a,
        "jvm.gradle-wrapper"@,
        "Gradle wrapper distributions"@,
        join(a.paths@.home, ".gradle/wrapper/dists"@),
        "Downloaded Gradle distributions, one per version any project has used."@,
    ) == gradle_offer(
        b,
        "jvm.gradle-wrapper"@,
        "Gradle wrapper distributions"@,
        join(b.paths@.home, ".gradle/wrapper/dists"@),
        "Downloaded Gradle distributions, one per version any project has used."@,
    ));
    assert(repository_offer(a) == repository_offer(b));
    assert(configured_offer(a, "jvm.ivy"@, "Ivy cache"@, join(a.paths@.home, ".ivy2/cache"@))
        == configured_offer(b, "jvm.ivy"@, "Ivy cache"@, join(b.paths@.home, ".ivy2/cache"@)));
    assert(configured_offer(
        a,
        "jvm.sbt"@,
        "sbt boot and cache"@,
        join(a.paths@.home, ".sbt/boot"@),
    ) == configured_offer(
        b,
        "jvm.sbt"@,
        "sbt boot and cache"@,
        join(b.paths@.home, ".sbt/boot"@),
    ));
    assert(configured_offer(
        a,
        "jvm.coursier"@,
        "Coursier cache"@,
        join(a.paths@.home, ".cache/coursier"@),
    ) == configured_offer(
        b,
        "jvm.coursier"@,
        "Coursier cache"@,
        join(b.paths@.home, ".cache/coursier"@),
    ));
    assert(configured_offer(
        a,
        "jvm.konan"@,
        "Kotlin/Native dependencies"@,
        join(a.paths@.home, ".konan"@),
    ) == configured_offer(
        b,
        "jvm.konan"@,
        "Kotlin/Native dependencies"@,
        join(b.paths@.home, ".konan"@),
    ));
    assert(configured_offer(
        a,
        "jvm.coursier"@,
        "Coursier cache"@,
        join(a.paths@.cache_dir, "Coursier"@),
    ) == configured_offer(
        b,
        "jvm.coursier"@,
        "Coursier cache"@,
        join(b.paths@.cache_dir, "Coursier"@),
    ));
}

proof fn lemma_alike_jvm_projects(a: &ScanContext, b: &ScanContext)
    requires
        alike(a, b),
    ensures
        JvmProjects.offers(a) == JvmProjects.offers(b),
{
    lemma_home_known(a, b);
    lemma_cache_known(a, b);
    lemma_machine_known(a, b);
    let jvm_projects = a.marked(jvm_markers());
    assert forall|i: int| 0 <= i < jvm_projects.len() implies JvmProjects.offers_in(a, #[trigger] jvm_projects[i])
        == JvmProjects.offers_in(b, jvm_projects[i]) by {
        lemma_marked_member(views(a.projects@), jvm_markers(), i);
        lemma_alike_in_jvm_projects(a, b, jvm_projects[i]);
    }
    lemma_alike_projects(&JvmProjects, a, b, jvm_projects);
}

proof fn lemma_alike_go_caches(a: &ScanContext, b: &ScanContext)
    requires
        alike(a, b),
    ensures
        GoCaches.offers(a) == GoCaches.offers(b),
{
    lemma_cache_known(a, b);
    lemma_machine_known(a, b);
    let part = parts(a)[3];
    assert(part[0] == a.paths@.go_build_cache);
    assert(part[1] == a.paths@.go_mod_cache);
    lemma_part(a, b, 3, a.paths@.go_build_cache);
    lemma_part(a, b, 3, a.paths@.go_mod_cache);
    assert(crate::providers::go::build_cache_offer(a)
        == crate::providers::go::build_cache_offer(b));
    assert(mod_cache_offer(a) == mod_cache_offer(b));
}

proof fn lemma_alike_xcode_artifacts(a: &ScanContext, b: &ScanContext)
    requires
        alike(a, b),
    ensures
        XcodeArtifacts.offers(a) == XcodeArtifacts.offers(b),
{
    lemma_home_known(a, b);
    lemma_cache_known(a, b);
    lemma_developer_known(a, b);
    lemma_machine_known(a, b);
    let developer = join(a.paths@.home, "Library/Developer"@);
    lemma_alike_device_support(a, b);
    let dir = join(a.paths@.home, "Library/Application Support/MobileSync/Backup"@);
    assert(home_listings()[1] == "Library/Application Support/MobileSync/Backup"@);
    lemma_in_below(a.paths@.home, home_listings(), 1);
    lemma_listed(a, b, 0, dir);
    lemma_alike_subdirs(&DeviceBackup, a, b, dir, a.disk@.subdir_names(dir));
    assert(developer_listings()[0] == "Xcode/Archives"@);
    lemma_in_below(developer, developer_listings(), 0);
    lemma_listed(a, b, 1, join(developer, "Xcode/Archives"@));
    assert(derived_data_offer(a, developer) == derived_data_offer(b, developer));
    assert(archives_offer(a, developer) == archives_offer(b, developer));
    assert(scratch_offer(
        a,
        "apple.swiftpm-cache"@,
        "SwiftPM cache"@,
        join(a.paths@.cache_dir, "org.swift.swiftpm"@),
        "Cloned and resolved Swift package dependencies."@,
    ) == scratch_offer(
        b,
        "apple.swiftpm-cache"@,
        "SwiftPM cache"@,
        join(b.paths@.cache_dir, "org.swift.swiftpm"@),
        "Cloned and resolved Swift package dependencies."@,
    ));
    assert(scratch_offer(
        a,
        "apple.xcode-caches"@,
        "Xcode caches"@,
        join(a.paths@.cache_dir, "com.apple.dt.Xcode"@),
        "Xcode's own scratch caches."@,
    ) == scratch_offer(
        b,
        "apple.xcode-caches"@,
        "Xcode caches"@,
        join(b.paths@.cache_dir, "com.apple.dt.Xcode"@),
        "Xcode's own scratch caches."@,
    ));
    assert(scratch_offer(
        a,
        "apple.simulator-caches"@,
        "Simulator caches"@,
        join(a.paths@.home, "Library/Developer/CoreSimulator/Caches"@),
        "Simulator runtime scratch data."@,
    ) == scratch_offer(
        b,
        "apple.simulator-caches"@,
        "Simulator caches"@,
        join(b.paths@.home, "Library/Developer/CoreSimulator/Caches"@),
        "Simulator runtime scratch data."@,
    ));
    assert(pods_cache_offer(a) == pods_cache_offer(b));
    assert(backups_offer(a) == backups_offer(b));
}

proof fn lemma_alike_simulator_runtimes(a: &ScanContext, b: &ScanContext)
    requires
        alike(a, b),
    ensures
        SimulatorRuntimes.offers(a) == SimulatorRuntimes.offers(b),
{
    lemma_home_known(a, b);
    lemma_cache_known(a, b);
    lemma_developer_known(a, b);
    lemma_machine_known(a, b);
    assert(home_listings()[2] == "Library/Developer/CoreSimulator/Devices"@);
    lemma_in_below(a.paths@.home, home_listings(), 2);
    lemma_listed(a, b, 0, join(a.paths@.home, "Library/Developer/CoreSimulator/Devices"@));
    assert(unavailable_offer(a) == unavailable_offer(b));
    assert(simulators_offer(a) == simulators_offer(b));
}

proof fn lemma_alike_cocoa_pods(a: &ScanContext, b: &ScanContext)
    requires
        alike(a, b),
    ensures
        CocoaPods.offers(a) == CocoaPods.offers(b),
{
    lemma_home_known(a, b);
    lemma_cache_known(a, b);
    lemma_developer_known(a, b);
    lemma_machine_known(a, b);
    let cocoa_pods = a.marked(seq!["Podfile"@, "Package.swift"@, "Cartfile"@]);
    assert forall|i: int| 0 <= i < cocoa_pods.len() implies CocoaPods.offers_in(a, #[trigger] cocoa_pods[i])
        == CocoaPods.offers_in(b, cocoa_pods[i]) by {
        lemma_marked_member(views(a.projects@), seq!["Podfile"@, "Package.swift"@, "Cartfile"@], i);
        lemma_alike_in_cocoa_pods(a, b, cocoa_pods[i]);
    }
    lemma_alike_projects(&CocoaPods, a, b, cocoa_pods);
}

proof fn lemma_alike_android_sdk(a: &ScanContext, b: &ScanContext)
    requires
        alike(a, b),
    ensures
        AndroidSdk.offers(a) == AndroidSdk.offers(b),
{
    lemma_home_known(a, b);
    lemma_cache_known(a, b);
    lemma_machine_known(a, b);
    if a.paths@.android_sdk is Some {
        let sdk = a.paths@.android_sdk->0;
        let images = join(sdk, "system-images"@);
        let ndk = join(sdk, "ndk"@);
        let part = sdk_places(a.paths@.android_sdk);
        assert(part[0] == sdk);
        assert(part[1] == images);
        assert(part[2] == ndk);
        lemma_part(a, b, 4, sdk);
        lemma_part(a, b, 4, images);
        lemma_part(a, b, 4, ndk);
        lemma_listed(a, b, 3, images);
        lemma_listed(a, b, 3, ndk);
        lemma_alike_subdirs(&SystemImage, a, b, images, a.disk@.subdir_names(images));
        lemma_alike_subdirs(&NdkVersion, a, b, ndk, a.disk@.subdir_names(ndk));
        assert(images_offer(a, sdk) == images_offer(b, sdk));
        assert(ndks_offer(a, sdk) == ndks_offer(b, sdk));
    }
    assert(crate::providers::android::build_cache_offer(
        a,
        "android.build-cache"@,
        "Android build cache"@,
        join(a.paths@.home, ".android/build-cache"@),
    ) == crate::providers::android::build_cache_offer(
        b,
        "android.build-cache"@,
        "Android build cache"@,
        join(b.paths@.home, ".android/build-cache"@),
    ));
    assert(crate::providers::android::build_cache_offer(
        a,
        "android.cache"@,
        "Android SDK cache"@,
        join(a.paths@.home, ".android/cache"@),
    ) == crate::providers::android::build_cache_offer(
        b,
        "android.cache"@,
        "Android SDK cache"@,
        join(b.paths@.home, ".android/cache"@),
    ));
    assert(emulator_tmp_offer(a) == emulator_tmp_offer(b));
}

proof fn lemma_alike_android_avds(a: &ScanContext, b: &ScanContext)
    requires
        alike(a, b),
    ensures
        AndroidAvds.offers(a) == AndroidAvds.offers(b),
{
    lemma_home_known(a, b);
    lemma_cache_known(a, b);
    lemma_machine_known(a, b);
    let dir = a.paths@.android_avd;
    assert(parts(a)[3][2] == dir);
    lemma_part(a, b, 3, dir);
    assert(listed_parts(a)[2][0] == dir);
    lemma_listed(a, b, 2, dir);
    let names = a.disk@.subdir_names(dir);
    assert forall|i: int| 0 <= i < names.len() implies VirtualDevice.offer_of(
        a,
        dir,
        #[trigger] names[i],
    ) == VirtualDevice.offer_of(b, dir, names[i]) by {
        let entry = join(dir, stem(join(dir, names[i])) + ".ini"@);
        assert(further(a)[i] == entry);
        assert(alike_at(a.disk@, b.disk@, further(a)[i]));
    }
    lemma_alike_subdirs(&VirtualDevice, a, b, dir, names);
}

proof fn lemma_alike_docker(a: &ScanContext, b: &ScanContext)
    requires
        alike(a, b),
    ensures
        Docker.offers(a) == Docker.offers(b),
{
    lemma_home_known(a, b);
    lemma_cache_known(a, b);
    lemma_machine_known(a, b);
    assert(layer_cache_offer(a) == layer_cache_offer(b));
    assert(dangling_images_offer(a) == dangling_images_offer(b));
    assert(unused_images_offer(a) == unused_images_offer(b));
    assert(unused_volumes_offer(a) == unused_volumes_offer(b));
}

proof fn lemma_alike_container_vms(a: &ScanContext, b: &ScanContext)
    requires
        alike(a, b),
    ensures
        ContainerVms.offers(a) == ContainerVms.offers(b),
{
    lemma_home_known(a, b);
    lemma_cache_known(a, b);
    lemma_machine_known(a, b);
    assert(docker_disk_offer(a) == docker_disk_offer(b));
    assert(docker_logs_offer(a) == docker_logs_offer(b));
    assert(machine_offer(
        a,
        "containers.colima"@,
        "Colima VM data"@,
        join(a.paths@.home, ".colima"@),
    ) == machine_offer(
        b,
        "containers.colima"@,
        "Colima VM data"@,
        join(b.paths@.home, ".colima"@),
    ));
    assert(machine_offer(a, "containers.lima"@, "Lima VM data"@, join(a.paths@.home, ".lima"@))
        == machine_offer(b, "containers.lima"@, "Lima VM data"@, join(b.paths@.home, ".lima"@)));
    assert(machine_offer(
        a,
        "containers.podman"@,
        "Podman machine data"@,
        join(a.paths@.home, ".local/share/containers"@),
    ) == machine_offer(
        b,
        "containers.podman"@,
        "Podman machine data"@,
        join(b.paths@.home, ".local/share/containers"@),
    ));
}

proof fn lemma_alike_dot_net(a: &ScanContext, b: &ScanContext)
    requires
        alike(a, b),
    ensures
        DotNet.offers(a) == DotNet.offers(b),
{
    lemma_home_known(a, b);
    lemma_cache_known(a, b);
    lemma_machine_known(a, b);
    let dot_net_projects = a.marked(seq!["Directory.Build.props"@, "*.csproj"@, "*.sln"@]);
    assert forall|i: int| 0 <= i < dot_net_projects.len() implies DotNetProjects.offers_in(a, #[trigger] dot_net_projects[i])
        == DotNetProjects.offers_in(b, dot_net_projects[i]) by {
        lemma_marked_member(
            views(a.projects@),
            seq!["Directory.Build.props"@, "*.csproj"@, "*.sln"@],
            i,
        );
        lemma_alike_in_dot_net_projects(a, b, dot_net_projects[i]);
    }
    lemma_alike_projects(&DotNetProjects, a, b, dot_net_projects);
    assert(nuget_offer(a) == nuget_offer(b));
    assert(nuget_http_offer(a) == nuget_http_offer(b));
}

proof fn lemma_alike_ruby(a: &ScanContext, b: &ScanContext)
    requires
        alike(a, b),
    ensures
        Ruby.offers(a) == Ruby.offers(b),
{
    lemma_home_known(a, b);
    lemma_cache_known(a, b);
    lemma_machine_known(a, b);
    let ruby_projects = a.marked(seq!["Gemfile"@]);
    assert forall|i: int| 0 <= i < ruby_projects.len() implies RubyProjects.offers_in(a, #[trigger] ruby_projects[i])
        == RubyProjects.offers_in(b, ruby_projects[i]) by {
        lemma_marked_member(views(a.projects@), seq!["Gemfile"@], i);
        lemma_alike_in_ruby_projects(a, b, ruby_projects[i]);
    }
    lemma_alike_projects(&RubyProjects, a, b, ruby_projects);
    assert(gems_offer(a, join(a.paths@.home, ".gem/cache"@))
        == gems_offer(b, join(b.paths@.home, ".gem/cache"@)));
    assert(gems_offer(a, join(a.paths@.home, ".gem/ruby"@))
        == gems_offer(b, join(b.paths@.home, ".gem/ruby"@)));
    assert(bundler_offer(a) == bundler_offer(b));
}

proof fn lemma_alike_php(a: &ScanContext, b: &ScanContext)
    requires
        alike(a, b),
    ensures
        Php.offers(a) == Php.offers(b),
{
    lemma_home_known(a, b);
    lemma_cache_known(a, b);
    lemma_machine_known(a, b);
    let php_projects = a.marked(seq!["composer.json"@]);
    assert forall|i: int| 0 <= i < php_projects.len() implies PhpProjects.offers_in(a, #[trigger] php_projects[i])
        == PhpProjects.offers_in(b, php_projects[i]) by {
        lemma_marked_member(views(a.projects@), seq!["composer.json"@], i);
        lemma_alike_in_php_projects(a, b, php_projects[i]);
    }
    lemma_alike_projects(&PhpProjects, a, b, php_projects);
    assert(composer_offer(a, join(a.paths@.cache_dir, "composer"@))
        == composer_offer(b, join(b.paths@.cache_dir, "composer"@)));
    assert(composer_offer(a, join(a.paths@.home, ".composer/cache"@))
        == composer_offer(b, join(b.paths@.home, ".composer/cache"@)));
}

proof fn lemma_alike_dart(a: &ScanContext, b: &ScanContext)
    requires
        alike(a, b),
    ensures
        Dart.offers(a) == Dart.offers(b),
{
    lemma_home_known(a, b);
    lemma_cache_known(a, b);
    lemma_machine_known(a, b);
    let dart_projects = a.marked(seq!["pubspec.yaml"@]);
    assert forall|i: int| 0 <= i < dart_projects.len() implies DartProjects.offers_in(a, #[trigger] dart_projects[i])
        == DartProjects.offers_in(b, dart_projects[i]) by {
        lemma_marked_member(views(a.projects@), seq!["pubspec.yaml"@], i);
        lemma_alike_in_dart_projects(a, b, dart_projects[i]);
    }
    lemma_alike_projects(&DartProjects, a, b, dart_projects);
    assert(pub_cache_offer(a) == pub_cache_offer(b));
    assert(flutter_engine_offer(a, join(a.paths@.home, "flutter/bin/cache"@))
        == flutter_engine_offer(b, join(b.paths@.home, "flutter/bin/cache"@)));
    assert(flutter_engine_offer(a, join(a.paths@.home, "development/flutter/bin/cache"@))
        == flutter_engine_offer(b, join(b.paths@.home, "development/flutter/bin/cache"@)));
}

proof fn lemma_alike_build_tools(a: &ScanContext, b: &ScanContext)
    requires
        alike(a, b),
    ensures
        BuildTools.offers(a) == BuildTools.offers(b),
{
    lemma_home_known(a, b);
    lemma_cache_known(a, b);
    lemma_machine_known(a, b);
    let build_tool_projects = a.marked(seq!["CMakeLists.txt"@, "WORKSPACE"@, "MODULE.bazel"@]);
    assert forall|i: int| 0 <= i < build_tool_projects.len() implies BuildToolProjects.offers_in(a, #[trigger] build_tool_projects[i])
        == BuildToolProjects.offers_in(b, build_tool_projects[i]) by {
        lemma_marked_member(
            views(a.projects@),
            seq!["CMakeLists.txt"@, "WORKSPACE"@, "MODULE.bazel"@],
            i,
        );
        lemma_alike_in_build_tool_projects(a, b, build_tool_projects[i]);
    }
    lemma_alike_projects(&BuildToolProjects, a, b, build_tool_projects);
    assert(compiled_offer(a, "buildtools.ccache"@, "ccache"@, join(a.paths@.cache_dir, "ccache"@))
        == compiled_offer(b, "buildtools.ccache"@, "ccache"@, join(b.paths@.cache_dir, "ccache"@)));
    assert(compiled_offer(a, "buildtools.ccache"@, "ccache"@, join(a.paths@.home, ".ccache"@))
        == compiled_offer(b, "buildtools.ccache"@, "ccache"@, join(b.paths@.home, ".ccache"@)));
    assert(compiled_offer(
        a,
        "buildtools.bazel"@,
        "Bazel disk cache"@,
        join(a.paths@.cache_dir, "bazel"@),
    ) == compiled_offer(
        b,
        "buildtools.bazel"@,
        "Bazel disk cache"@,
        join(b.paths@.cache_dir, "bazel"@),
    ));
    assert(compiled_offer(
        a,
        "buildtools.bazelisk"@,
        "Bazelisk downloads"@,
        join(a.paths@.cache_dir, "bazelisk"@),
    ) == compiled_offer(
        b,
        "buildtools.bazelisk"@,
        "Bazelisk downloads"@,
        join(b.paths@.cache_dir, "bazelisk"@),
    ));
    assert(compiled_offer(a, "buildtools.zig"@, "Zig cache"@, join(a.paths@.cache_dir, "zig"@))
        == compiled_offer(b, "buildtools.zig"@, "Zig cache"@, join(b.paths@.cache_dir, "zig"@)));
}

proof fn lemma_alike_editors(a: &ScanContext, b: &ScanContext)
    requires
        alike(a, b),
    ensures
        Editors.offers(a) == Editors.offers(b),
{
    lemma_home_known(a, b);
    lemma_cache_known(a, b);
    lemma_machine_known(a, b);
    assert(editor_names()[0] == "Code"@);
    lemma_alike_editor(a, b, 0);
    assert(editor_names()[1] == "Cursor"@);
    lemma_alike_editor(a, b, 1);
    assert(editor_names()[2] == "VSCodium"@);
    lemma_alike_editor(a, b, 2);
    assert(editor_names()[3] == "Code - Insiders"@);
    lemma_alike_editor(a, b, 3);
    assert(editor_names()[4] == "Windsurf"@);
    lemma_alike_editor(a, b, 4);
    assert(jetbrains_offer(
        a,
        "JetBrains caches"@,
        join(a.paths@.home, "Library/Caches/JetBrains"@),
    ) == jetbrains_offer(
        b,
        "JetBrains caches"@,
        join(b.paths@.home, "Library/Caches/JetBrains"@),
    ));
    assert(jetbrains_offer(a, "JetBrains logs"@, join(a.paths@.home, "Library/Logs/JetBrains"@))
        == jetbrains_offer(b, "JetBrains logs"@, join(b.paths@.home, "Library/Logs/JetBrains"@)));
    assert(jetbrains_offer(a, "JetBrains caches"@, join(a.paths@.home, ".cache/JetBrains"@))
        == jetbrains_offer(b, "JetBrains caches"@, join(b.paths@.home, ".cache/JetBrains"@)));
}

proof fn lemma_alike_system(a: &ScanContext, b: &ScanContext)
    requires
        alike(a, b),
    ensures
        System.offers(a) == System.offers(b),
{
    lemma_home_known(a, b);
    lemma_cache_known(a, b);
    lemma_machine_known(a, b);
    assert(homebrew_offer(a) == homebrew_offer(b));
    assert(nix_offer(a) == nix_offer(b));
    assert(logs_offer(
        a,
        "system.logs"@,
        "Application logs"@,
        join(a.paths@.home, "Library/Logs"@),
    ) == logs_offer(
        b,
        "system.logs"@,
        "Application logs"@,
        join(b.paths@.home, "Library/Logs"@),
    ));
    assert(logs_offer(
        a,
        "system.crash-reports"@,
        "Crash reports"@,
        join(a.paths@.home, "Library/Logs/DiagnosticReports"@),
    ) == logs_offer(
        b,
        "system.crash-reports"@,
        "Crash reports"@,
        join(b.paths@.home, "Library/Logs/DiagnosticReports"@),
    ));
}

proof fn lemma_alike_machine_learning(a: &ScanContext, b: &ScanContext)
    requires
        alike(a, b),
    ensures
        MachineLearning.offers(a) == MachineLearning.offers(b),
{
    lemma_home_known(a, b);
    lemma_cache_known(a, b);
    lemma_machine_known(a, b);
    assert(crate::providers::misc::weights_offer(
        a,
        "ml.huggingface"@,
        "Hugging Face model cache"@,
        join(a.paths@.cache_dir, "huggingface"@),
        "the Hugging Face Hub"@,
    ) == crate::providers::misc::weights_offer(
        b,
        "ml.huggingface"@,
        "Hugging Face model cache"@,
        join(b.paths@.cache_dir, "huggingface"@),
        "the Hugging Face Hub"@,
    ));
    assert(crate::providers::misc::weights_offer(
        a,
        "ml.huggingface"@,
        "Hugging Face model cache"@,
        join(a.paths@.home, ".cache/huggingface"@),
        "the Hugging Face Hub"@,
    ) == crate::providers::misc::weights_offer(
        b,
        "ml.huggingface"@,
        "Hugging Face model cache"@,
        join(b.paths@.home, ".cache/huggingface"@),
        "the Hugging Face Hub"@,
    ));
    assert(crate::providers::misc::weights_offer(
        a,
        "ml.torch"@,
        "PyTorch hub cache"@,
        join(a.paths@.cache_dir, "torch"@),
        "the PyTorch hub"@,
    ) == crate::providers::misc::weights_offer(
        b,
        "ml.torch"@,
        "PyTorch hub cache"@,
        join(b.paths@.cache_dir, "torch"@),
        "the PyTorch hub"@,
    ));
    assert(crate::providers::misc::weights_offer(
        a,
        "ml.ollama"@,
        "Ollama models"@,
        join(a.paths@.home, ".ollama/models"@),
        "the Ollama registry"@,
    ) == crate::providers::misc::weights_offer(
        b,
        "ml.ollama"@,
        "Ollama models"@,
        join(b.paths@.home, ".ollama/models"@),
        "the Ollama registry"@,
    ));
}

proof fn lemma_alike_local_models(a: &ScanContext, b: &ScanContext)
    requires
        alike(a, b),
    ensures
        crate::providers::ai_tools::MachineLearning.offers(a) == crate::providers::ai_tools::MachineLearning.offers(b),
{
    lemma_home_known(a, b);
    lemma_cache_known(a, b);
    lemma_machine_known(a, b);
    assert(crate::providers::ai_tools::weights_offer(
        a,
        "ml.huggingface"@,
        "Hugging Face model cache"@,
        join(a.paths@.cache_dir, "huggingface"@),
        "the Hugging Face Hub"@,
        None,
    ) == crate::providers::ai_tools::weights_offer(
        b,
        "ml.huggingface"@,
        "Hugging Face model cache"@,
        join(b.paths@.cache_dir, "huggingface"@),
        "the Hugging Face Hub"@,
        None,
    ));
    assert(crate::providers::ai_tools::weights_offer(
        a,
        "ml.huggingface"@,
        "Hugging Face model cache"@,
        join(a.paths@.home, ".cache/huggingface"@),
        "the Hugging Face Hub"@,
        None,
    ) == crate::providers::ai_tools::weights_offer(
        b,
        "ml.huggingface"@,
        "Hugging Face model cache"@,
        join(b.paths@.home, ".cache/huggingface"@),
        "the Hugging Face Hub"@,
        None,
    ));
    assert(crate::providers::ai_tools::weights_offer(
        a,
        "ml.torch"@,
        "PyTorch hub cache"@,
        join(a.paths@.cache_dir, "torch"@),
        "the PyTorch hub"@,
        None,
    ) == crate::providers::ai_tools::weights_offer(
        b,
        "ml.torch"@,
        "PyTorch hub cache"@,
        join(b.paths@.cache_dir, "torch"@),
        "the PyTorch hub"@,
        None,
    ));
    assert(crate::providers::ai_tools::weights_offer(
        a,
        "ml.ollama"@,
        "Ollama models"@,
        join(a.paths@.home, ".ollama/models"@),
        "the Ollama registry"@,
        Some(("Ollama"@, 11_434)),
    ) == crate::providers::ai_tools::weights_offer(
        b,
        "ml.ollama"@,
        "Ollama models"@,
        join(b.paths@.home, ".ollama/models"@),
        "the Ollama registry"@,
        Some(("Ollama"@, 11_434)),
    ));
    assert(crate::providers::ai_tools::weights_offer(
        a,
        "ml.lmstudio"@,
        "LM Studio models"@,
        join(a.paths@.home, ".lmstudio/models"@),
        "the LM Studio model catalog"@,
        Some(("LM Studio"@, 1_234)),
    ) == crate::providers::ai_tools::weights_offer(
        b,
        "ml.lmstudio"@,
        "LM Studio models"@,
        join(b.paths@.home, ".lmstudio/models"@),
        "the LM Studio model catalog"@,
        Some(("LM Studio"@, 1_234)),
    ));
    assert(crate::providers::ai_tools::weights_offer(
        a,
        "ml.lmstudio"@,
        "LM Studio model cache"@,
        join(a.paths@.home, ".cache/lm-studio"@),
        "the LM Studio model catalog"@,
        Some(("LM Studio"@, 1_234)),
    ) == crate::providers::ai_tools::weights_offer(
        b,
        "ml.lmstudio"@,
        "LM Studio model cache"@,
        join(b.paths@.home, ".cache/lm-studio"@),
        "the LM Studio model catalog"@,
        Some(("LM Studio"@, 1_234)),
    ));
}

proof fn lemma_alike_local_ai_tools(a: &ScanContext, b: &ScanContext)
    requires
        alike(a, b),
    ensures
        LocalAiTools.offers(a) == LocalAiTools.offers(b),
{
    lemma_home_known(a, b);
    lemma_cache_known(a, b);
    lemma_machine_known(a, b);
    let comfy_ui = a.marked(seq!["requirements.txt"@, "pyproject.toml"@]);
    assert forall|i: int| 0 <= i < comfy_ui.len() implies ComfyUi.offers_in(a, #[trigger] comfy_ui[i])
        == ComfyUi.offers_in(b, comfy_ui[i]) by {
        lemma_marked_member(views(a.projects@), seq!["requirements.txt"@, "pyproject.toml"@], i);
        lemma_alike_in_comfy_ui(a, b, comfy_ui[i]);
    }
    lemma_alike_projects(&ComfyUi, a, b, comfy_ui);
    let silly_tavern = a.marked(seq!["package.json"@]);
    assert forall|i: int| 0 <= i < silly_tavern.len() implies SillyTavern.offers_in(a, #[trigger] silly_tavern[i])
        == SillyTavern.offers_in(b, silly_tavern[i]) by {
        lemma_marked_member(views(a.projects@), seq!["package.json"@], i);
        lemma_alike_in_silly_tavern(a, b, silly_tavern[i]);
    }
    lemma_alike_projects(&SillyTavern, a, b, silly_tavern);
    let automatic1111 = a.marked(seq!["requirements.txt"@, "pyproject.toml"@]);
    assert forall|i: int| 0 <= i < automatic1111.len() implies Automatic1111.offers_in(a, #[trigger] automatic1111[i])
        == Automatic1111.offers_in(b, automatic1111[i]) by {
        lemma_marked_member(views(a.projects@), seq!["requirements.txt"@, "pyproject.toml"@], i);
        lemma_alike_in_automatic1111(a, b, automatic1111[i]);
    }
    lemma_alike_projects(&Automatic1111, a, b, automatic1111);
}

/// What a provider offers is decided by the places, commands and ports that the probes name:
/// looking nowhere else misses nothing.
pub proof fn a_scan_needs_to_look_nowhere_else(p: AnyProvider, a: &ScanContext, b: &ScanContext)
    requires
        alike(a, b),
    ensures
        p.offers(a) == p.offers(b),
{
    match p {
        AnyProvider::NodeCaches(_) => lemma_alike_node_caches(a, b),
        AnyProvider::NodeModules(_) => lemma_alike_node_modules(a, b),
        AnyProvider::PythonCaches(_) => lemma_alike_python_caches(a, b),
        AnyProvider::PythonProjects(_) => lemma_alike_python_projects(a, b),
        AnyProvider::RustCaches(_) => lemma_alike_rust_caches(a, b),
        AnyProvider::RustTargets(_) => lemma_alike_rust_targets(a, b),
        AnyProvider::JvmCaches(_) => lemma_alike_jvm_caches(a, b),
        AnyProvider::JvmProjects(_) => lemma_alike_jvm_projects(a, b),
        AnyProvider::GoCaches(_) => lemma_alike_go_caches(a, b),
        AnyProvider::XcodeArtifacts(_) => lemma_alike_xcode_artifacts(a, b),
        AnyProvider::SimulatorRuntimes(_) => lemma_alike_simulator_runtimes(a, b),
        AnyProvider::CocoaPods(_) => lemma_alike_cocoa_pods(a, b),
        AnyProvider::AndroidSdk(_) => lemma_alike_android_sdk(a, b),
        AnyProvider::AndroidAvds(_) => lemma_alike_android_avds(a, b),
        AnyProvider::Docker(_) => lemma_alike_docker(a, b),
        AnyProvider::ContainerVms(_) => lemma_alike_container_vms(a, b),
        AnyProvider::DotNet(_) => lemma_alike_dot_net(a, b),
        AnyProvider::Ruby(_) => lemma_alike_ruby(a, b),
        AnyProvider::Php(_) => lemma_alike_php(a, b),
        AnyProvider::Dart(_) => lemma_alike_dart(a, b),
        AnyProvider::BuildTools(_) => lemma_alike_build_tools(a, b),
        AnyProvider::Editors(_) => lemma_alike_editors(a, b),
        AnyProvider::System(_) => lemma_alike_system(a, b),
        AnyProvider::MachineLearning(_) => lemma_alike_machine_learning(a, b),
        AnyProvider::LocalModels(_) => lemma_alike_local_models(a, b),
        AnyProvider::LocalAiTools(_) => lemma_alike_local_ai_tools(a, b),
    }
}

/// Two contexts differ in nothing but the number of threads that the scan may use.
pub open spec fn alike_but_for_threads(a: &ScanContext, b: &ScanContext) -> bool {
    &&& a.paths@ == b.paths@
    &&& views(a.projects@) == views(b.projects@)
    &&& a.disk@ == b.disk@
    &&& a.config == (Config {
        scan: ScanConfig { concurrency: a.config.scan.concurrency, ..b.config.scan },
        ..b.config
    })
}

proof fn lemma_alike_offers(providers: Seq<AnyProvider>, a: &ScanContext, b: &ScanContext)
    requires
        alike(a, b),
    ensures
        offered(providers, a) == offered(providers, b),
    decreases providers.len(),
{
    if providers.len() > 0 {
        lemma_alike_offers(providers.drop_last(), a, b);
        a_scan_needs_to_look_nowhere_else(providers.last(), a, b);
    }
}

/// A scan finds, measures and shows the same on one thread as on many, given what the walks saw
/// and the scores.
pub proof fn the_thread_count_changes_no_scan(
    providers: Seq<AnyProvider>,
    a: &ScanContext,
    b: &ScanContext,
    walks: Seq<CandidateWalkModel>,
    scores: Seq<u64>,
    filter: FilterModel,
    now: Moment,
    r: ScanResult,
    q: ScanResult,
)
    requires
        alike_but_for_threads(a, b),
        completes(
            measured_candidates(
                discovered(providers, a),
                walks,
                walk_options_of(a.config.scan).same_device,
                now,
            ),
            scores,
            filter,
            r,
        ),
        completes(
            measured_candidates(
                discovered(providers, b),
                walks,
                walk_options_of(b.config.scan).same_device,
                now,
            ),
            scores,
            filter,
            q,
        ),
    ensures
        discovered(providers, a) == discovered(providers, b),
        walks_fit(walks, walk_options_of(a.config.scan).same_device) == walks_fit(
            walks,
            walk_options_of(b.config.scan).same_device,
        ),
        views(r.all@) == views(q.all@),
        views(r.candidates@) == views(q.candidates@),
        total_freed(views(r.candidates@)) == total_freed(views(q.candidates@)),
{
    lemma_alike_offers(providers, a, b);
    let found = measured_candidates(
        discovered(providers, a),
        walks,
        walk_options_of(a.config.scan).same_device,
        now,
    );
    sorting_has_one_result(
        scored(found, scores),
        views(r.all@),
        views(q.all@),
        |x: CandidateModel, y: CandidateModel| candidate_le(x, y),
    );
}

} // verus!
