//! Where providers look. A scan is handed what exists at these places.
use vstd::prelude::*;
use vstd::string::*;
use crate::disk::{Disk, DiskModel};
use crate::model::{ProjectModel, ProjectRoot};
use crate::path::{join, join_path, stem, stem_of};
use crate::platform::{Paths, PathsModel};
use crate::text::views;

verus! {

broadcast use crate::text::lemma_views_push;

/// Places below the home directory.
pub open spec fn home_places() -> Seq<Seq<char>> {
    seq![
        ".npm"@,
        ".bun/install/cache"@,
        ".node-gyp"@,
        "Library/pnpm/store"@,
        ".pnpm-store"@,
        ".local/share/pnpm/store"@,
        ".yarn/berry/cache"@,
        ".cache/yarn"@,
        ".cache/pip"@,
        ".rustup/toolchains"@,
        ".rustup/downloads"@,
        ".rustup/tmp"@,
        ".m2/repository"@,
        ".gradle/caches"@,
        ".gradle/daemon"@,
        ".gradle/native"@,
        ".gradle/wrapper/dists"@,
        ".ivy2/cache"@,
        ".sbt/boot"@,
        ".cache/coursier"@,
        ".konan"@,
        "Library/Application Support/MobileSync/Backup"@,
        "Library/Developer/CoreSimulator/Caches"@,
        "Library/Developer/CoreSimulator/Devices"@,
        ".android/tmp"@,
        ".android/build-cache"@,
        ".android/cache"@,
        "Library/Containers/com.docker.docker/Data/vms"@,
        "Library/Containers/com.docker.docker/Data/log"@,
        ".colima"@,
        ".lima"@,
        ".local/share/containers"@,
        ".nuget/packages"@,
        ".local/share/NuGet/http-cache"@,
        ".gem/cache"@,
        ".gem/ruby"@,
        ".composer/cache"@,
        ".pub-cache"@,
        "flutter/bin/cache"@,
        "development/flutter/bin/cache"@,
        ".ccache"@,
        "Library/Caches/JetBrains"@,
        "Library/Logs/JetBrains"@,
        ".cache/JetBrains"@,
        "Library/Logs"@,
        "Library/Logs/DiagnosticReports"@,
        ".cache/huggingface"@,
        ".ollama/models"@,
        ".lmstudio/models"@,
        ".cache/lm-studio"@,
    ]
}

fn home_places_list() -> (v: Vec<&'static str>)
    ensures
        views(v@) == home_places(),
{
    let v = vec![
        ".npm",
        ".bun/install/cache",
        ".node-gyp",
        "Library/pnpm/store",
        ".pnpm-store",
        ".local/share/pnpm/store",
        ".yarn/berry/cache",
        ".cache/yarn",
        ".cache/pip",
        ".rustup/toolchains",
        ".rustup/downloads",
        ".rustup/tmp",
        ".m2/repository",
        ".gradle/caches",
        ".gradle/daemon",
        ".gradle/native",
        ".gradle/wrapper/dists",
        ".ivy2/cache",
        ".sbt/boot",
        ".cache/coursier",
        ".konan",
        "Library/Application Support/MobileSync/Backup",
        "Library/Developer/CoreSimulator/Caches",
        "Library/Developer/CoreSimulator/Devices",
        ".android/tmp",
        ".android/build-cache",
        ".android/cache",
        "Library/Containers/com.docker.docker/Data/vms",
        "Library/Containers/com.docker.docker/Data/log",
        ".colima",
        ".lima",
        ".local/share/containers",
        ".nuget/packages",
        ".local/share/NuGet/http-cache",
        ".gem/cache",
        ".gem/ruby",
        ".composer/cache",
        ".pub-cache",
        "flutter/bin/cache",
        "development/flutter/bin/cache",
        ".ccache",
        "Library/Caches/JetBrains",
        "Library/Logs/JetBrains",
        ".cache/JetBrains",
        "Library/Logs",
        "Library/Logs/DiagnosticReports",
        ".cache/huggingface",
        ".ollama/models",
        ".lmstudio/models",
        ".cache/lm-studio",
    ];
    assert(views(v@) =~= home_places());
    v
}

/// Places below the cache directory.
pub open spec fn cache_places() -> Seq<Seq<char>> {
    seq![
        "Yarn"@,
        "ms-playwright"@,
        "puppeteer"@,
        "Cypress"@,
        "electron"@,
        "pypoetry/virtualenvs"@,
        "pip"@,
        "uv"@,
        "pypoetry"@,
        "pipenv"@,
        "pre-commit"@,
        "sccache"@,
        "Coursier"@,
        "CocoaPods"@,
        "org.swift.swiftpm"@,
        "com.apple.dt.Xcode"@,
        "bundle"@,
        "composer"@,
        "ccache"@,
        "bazel"@,
        "bazelisk"@,
        "zig"@,
        "huggingface"@,
        "torch"@,
    ]
}

fn cache_places_list() -> (v: Vec<&'static str>)
    ensures
        views(v@) == cache_places(),
{
    let v = vec![
        "Yarn",
        "ms-playwright",
        "puppeteer",
        "Cypress",
        "electron",
        "pypoetry/virtualenvs",
        "pip",
        "uv",
        "pypoetry",
        "pipenv",
        "pre-commit",
        "sccache",
        "Coursier",
        "CocoaPods",
        "org.swift.swiftpm",
        "com.apple.dt.Xcode",
        "bundle",
        "composer",
        "ccache",
        "bazel",
        "bazelisk",
        "zig",
        "huggingface",
        "torch",
    ];
    assert(views(v@) =~= cache_places());
    v
}

/// Places below the cargo home.
pub open spec fn cargo_places() -> Seq<Seq<char>> {
    seq![
        "registry/src"@,
        "registry/cache"@,
        "git"@,
    ]
}

fn cargo_places_list() -> (v: Vec<&'static str>)
    ensures
        views(v@) == cargo_places(),
{
    let v = vec![
        "registry/src",
        "registry/cache",
        "git",
    ];
    assert(views(v@) =~= cargo_places());
    v
}

/// Places below the developer directory.
pub open spec fn developer_places() -> Seq<Seq<char>> {
    seq![
        "Xcode/DerivedData"@,
        "Xcode/Archives"@,
        "Xcode/iOS DeviceSupport"@,
        "Xcode/watchOS DeviceSupport"@,
        "Xcode/tvOS DeviceSupport"@,
        "Xcode/visionOS DeviceSupport"@,
    ]
}

fn developer_places_list() -> (v: Vec<&'static str>)
    ensures
        views(v@) == developer_places(),
{
    let v = vec![
        "Xcode/DerivedData",
        "Xcode/Archives",
        "Xcode/iOS DeviceSupport",
        "Xcode/watchOS DeviceSupport",
        "Xcode/tvOS DeviceSupport",
        "Xcode/visionOS DeviceSupport",
    ];
    assert(views(v@) =~= developer_places());
    v
}

/// Where conda is installed.
pub open spec fn conda_names() -> Seq<Seq<char>> {
    seq![
        "miniconda3"@,
        "anaconda3"@,
        "miniforge3"@,
        "mambaforge"@,
    ]
}

fn conda_names_list() -> (v: Vec<&'static str>)
    ensures
        views(v@) == conda_names(),
{
    let v = vec![
        "miniconda3",
        "anaconda3",
        "miniforge3",
        "mambaforge",
    ];
    assert(views(v@) =~= conda_names());
    v
}

/// Editors of one family.
pub open spec fn editor_names() -> Seq<Seq<char>> {
    seq![
        "Code"@,
        "Cursor"@,
        "VSCodium"@,
        "Code - Insiders"@,
        "Windsurf"@,
    ]
}

fn editor_names_list() -> (v: Vec<&'static str>)
    ensures
        views(v@) == editor_names(),
{
    let v = vec![
        "Code",
        "Cursor",
        "VSCodium",
        "Code - Insiders",
        "Windsurf",
    ];
    assert(views(v@) =~= editor_names());
    v
}

/// Places below the data of each of those editors.
pub open spec fn editor_places() -> Seq<Seq<char>> {
    seq![
        "Cache"@,
        "CachedData"@,
        "CachedExtensionVSIXs"@,
        "logs"@,
        "Crashpad"@,
        "User/workspaceStorage"@,
    ]
}

fn editor_places_list() -> (v: Vec<&'static str>)
    ensures
        views(v@) == editor_places(),
{
    let v = vec![
        "Cache",
        "CachedData",
        "CachedExtensionVSIXs",
        "logs",
        "Crashpad",
        "User/workspaceStorage",
    ];
    assert(views(v@) =~= editor_places());
    v
}

/// Places below each project.
pub open spec fn project_places() -> Seq<Seq<char>> {
    seq![
        "package-lock.json"@,
        "yarn.lock"@,
        "pnpm-lock.yaml"@,
        "bun.lockb"@,
        "bun.lock"@,
        "npm-shrinkwrap.json"@,
        "node_modules"@,
        ".next"@,
        ".nuxt"@,
        ".turbo"@,
        ".parcel-cache"@,
        ".svelte-kit"@,
        ".angular"@,
        "requirements.txt"@,
        "pyproject.toml"@,
        "Pipfile.lock"@,
        "poetry.lock"@,
        "uv.lock"@,
        "environment.yml"@,
        "setup.py"@,
        ".venv"@,
        "venv"@,
        "env"@,
        ".virtualenv"@,
        ".tox"@,
        ".nox"@,
        ".mypy_cache"@,
        ".pytest_cache"@,
        ".ruff_cache"@,
        ".coverage_cache"@,
        "__pycache__"@,
        ".ipynb_checkpoints"@,
        "target"@,
        "build"@,
        "out"@,
        ".gradle"@,
        "Podfile.lock"@,
        "Pods"@,
        "Carthage/Build"@,
        ".build"@,
        "DerivedData"@,
        "bin"@,
        "obj"@,
        "Gemfile.lock"@,
        "vendor/bundle"@,
        "composer.lock"@,
        "vendor"@,
        ".dart_tool"@,
        ".comfy_environment"@,
        "models"@,
        "output"@,
        "public/scripts/world-info.js"@,
        "data/_cache"@,
        "data/_webpack"@,
        "data/_uploads"@,
        "data"@,
        "webui.py"@,
        "modules/paths_internal.py"@,
        "outputs"@,
    ]
}

fn project_places_list() -> (v: Vec<&'static str>)
    ensures
        views(v@) == project_places(),
{
    let v = vec![
        "package-lock.json",
        "yarn.lock",
        "pnpm-lock.yaml",
        "bun.lockb",
        "bun.lock",
        "npm-shrinkwrap.json",
        "node_modules",
        ".next",
        ".nuxt",
        ".turbo",
        ".parcel-cache",
        ".svelte-kit",
        ".angular",
        "requirements.txt",
        "pyproject.toml",
        "Pipfile.lock",
        "poetry.lock",
        "uv.lock",
        "environment.yml",
        "setup.py",
        ".venv",
        "venv",
        "env",
        ".virtualenv",
        ".tox",
        ".nox",
        ".mypy_cache",
        ".pytest_cache",
        ".ruff_cache",
        ".coverage_cache",
        "__pycache__",
        ".ipynb_checkpoints",
        "target",
        "build",
        "out",
        ".gradle",
        "Podfile.lock",
        "Pods",
        "Carthage/Build",
        ".build",
        "DerivedData",
        "bin",
        "obj",
        "Gemfile.lock",
        "vendor/bundle",
        "composer.lock",
        "vendor",
        ".dart_tool",
        ".comfy_environment",
        "models",
        "output",
        "public/scripts/world-info.js",
        "data/_cache",
        "data/_webpack",
        "data/_uploads",
        "data",
        "webui.py",
        "modules/paths_internal.py",
        "outputs",
    ];
    assert(views(v@) =~= project_places());
    v
}

/// Directories of a project that a file in them marks.
pub open spec fn signed_dirs() -> Seq<Seq<char>> {
    seq![
        ".venv"@,
        "venv"@,
        "env"@,
        ".virtualenv"@,
        "build"@,
    ]
}

fn signed_dirs_list() -> (v: Vec<&'static str>)
    ensures
        views(v@) == signed_dirs(),
{
    let v = vec![
        ".venv",
        "venv",
        "env",
        ".virtualenv",
        "build",
    ];
    assert(views(v@) =~= signed_dirs());
    v
}

/// The files that mark them.
pub open spec fn marking_files() -> Seq<Seq<char>> {
    seq![
        "pyvenv.cfg"@,
        "CMakeCache.txt"@,
    ]
}

fn marking_files_list() -> (v: Vec<&'static str>)
    ensures
        views(v@) == marking_files(),
{
    let v = vec![
        "pyvenv.cfg",
        "CMakeCache.txt",
    ];
    assert(views(v@) =~= marking_files());
    v
}

/// Directories below the developer directory whose contents matter.
pub open spec fn developer_listings() -> Seq<Seq<char>> {
    seq![
        "Xcode/Archives"@,
        "Xcode/iOS DeviceSupport"@,
        "Xcode/watchOS DeviceSupport"@,
        "Xcode/tvOS DeviceSupport"@,
        "Xcode/visionOS DeviceSupport"@,
    ]
}

fn developer_listings_list() -> (v: Vec<&'static str>)
    ensures
        views(v@) == developer_listings(),
{
    let v = vec![
        "Xcode/Archives",
        "Xcode/iOS DeviceSupport",
        "Xcode/watchOS DeviceSupport",
        "Xcode/tvOS DeviceSupport",
        "Xcode/visionOS DeviceSupport",
    ];
    assert(views(v@) =~= developer_listings());
    v
}

/// Directories below the home directory whose contents matter.
pub open spec fn home_listings() -> Seq<Seq<char>> {
    seq![
        ".rustup/toolchains"@,
        "Library/Application Support/MobileSync/Backup"@,
        "Library/Developer/CoreSimulator/Devices"@,
    ]
}

fn home_listings_list() -> (v: Vec<&'static str>)
    ensures
        views(v@) == home_listings(),
{
    let v = vec![
        ".rustup/toolchains",
        "Library/Application Support/MobileSync/Backup",
        "Library/Developer/CoreSimulator/Devices",
    ];
    assert(views(v@) =~= home_listings());
    v
}

/// The names below a directory.
pub open spec fn below(base: Seq<char>, names: Seq<Seq<char>>) -> Seq<Seq<char>> {
    Seq::new(names.len(), |i: int| join(base, names[i]))
}

fn push_below(out: &mut Vec<String>, base: &str, names: &Vec<&'static str>)
    ensures
        views(final(out)@) == views(old(out)@) + below(base@, views(names@)),
{
    let ghost before = views(out@);
    let ghost all = below(base@, views(names@));
    let mut i: usize = 0;
    assert(before + all.take(0) =~= before);
    while i < names.len()
        invariant
            i <= names@.len(),
            all == below(base@, views(names@)),
            views(out@) == before + all.take(i as int),
        decreases names@.len() - i,
    {
        assert(all[i as int] == join(base@, names@[i as int]@));
        assert(before + all.take(i + 1) =~= (before + all.take(i as int)).push(all[i as int]));
        out.push(join_path(base, names[i]));
        i += 1;
    }
    assert(all.take(all.len() as int) =~= all);
}

/// The same names below each of several directories in one.
pub open spec fn below_each(base: Seq<char>, dirs: Seq<Seq<char>>, names: Seq<Seq<char>>) -> Seq<
    Seq<char>,
>
    decreases dirs.len(),
{
    if dirs.len() == 0 {
        Seq::empty()
    } else {
        below_each(base, dirs.drop_last(), names) + below(join(base, dirs.last()), names)
    }
}

fn push_below_each(
    out: &mut Vec<String>,
    base: &str,
    dirs: &Vec<&'static str>,
    names: &Vec<&'static str>,
)
    ensures
        views(final(out)@) == views(old(out)@) + below_each(base@, views(dirs@), views(names@)),
{
    let ghost before = views(out@);
    let ghost all = views(dirs@);
    let mut i: usize = 0;
    assert(all.take(0) =~= Seq::empty());
    assert(before + Seq::<Seq<char>>::empty() =~= before);
    while i < dirs.len()
        invariant
            i <= dirs@.len(),
            all == views(dirs@),
            views(out@) == before + below_each(base@, all.take(i as int), views(names@)),
        decreases dirs@.len() - i,
    {
        assert(all.take(i + 1).drop_last() =~= all.take(i as int));
        assert(all.take(i + 1).last() == dirs@[i as int]@);
        let ghost so_far = below_each(base@, all.take(i as int), views(names@));
        let dir = join_path(base, dirs[i]);
        push_below(out, dir.as_str(), names);
        assert(views(out@) =~= before + (so_far + below(dir@, views(names@))));
        i += 1;
    }
    assert(all.take(all.len() as int) =~= all);
}

/// The same places below every project.
pub open spec fn below_projects(projects: Seq<ProjectModel>, names: Seq<Seq<char>>) -> Seq<
    Seq<char>,
>
    decreases projects.len(),
{
    if projects.len() == 0 {
        Seq::empty()
    } else {
        below_projects(projects.drop_last(), names) + below(projects.last().path, names)
    }
}

fn push_below_projects(
    out: &mut Vec<String>,
    projects: &Vec<ProjectRoot>,
    names: &Vec<&'static str>,
)
    ensures
        views(final(out)@) == views(old(out)@) + below_projects(
            views(projects@),
            views(names@),
        ),
{
    let ghost before = views(out@);
    let ghost all = views(projects@);
    let mut i: usize = 0;
    assert(all.take(0) =~= Seq::empty());
    assert(before + Seq::<Seq<char>>::empty() =~= before);
    while i < projects.len()
        invariant
            i <= projects@.len(),
            all == views(projects@),
            views(out@) == before + below_projects(all.take(i as int), views(names@)),
        decreases projects@.len() - i,
    {
        assert(all.take(i + 1).drop_last() =~= all.take(i as int));
        assert(all.take(i + 1).last() == projects@[i as int]@);
        let ghost so_far = below_projects(all.take(i as int), views(names@));
        push_below(out, projects[i].path.as_str(), names);
        assert(views(out@) =~= before + (so_far + below(
            projects@[i as int]@.path,
            views(names@),
        )));
        i += 1;
    }
    assert(all.take(all.len() as int) =~= all);
}

/// The files that mark directories of the projects.
pub open spec fn marks_below(projects: Seq<ProjectModel>) -> Seq<Seq<char>>
    decreases projects.len(),
{
    if projects.len() == 0 {
        Seq::empty()
    } else {
        marks_below(projects.drop_last()) + below_each(
            projects.last().path,
            signed_dirs(),
            marking_files(),
        )
    }
}

fn push_marks_below(out: &mut Vec<String>, projects: &Vec<ProjectRoot>)
    ensures
        views(final(out)@) == views(old(out)@) + marks_below(views(projects@)),
{
    let ghost before = views(out@);
    let ghost all = views(projects@);
    let dirs = signed_dirs_list();
    let files = marking_files_list();
    let mut i: usize = 0;
    assert(all.take(0) =~= Seq::empty());
    assert(before + Seq::<Seq<char>>::empty() =~= before);
    while i < projects.len()
        invariant
            i <= projects@.len(),
            all == views(projects@),
            views(dirs@) == signed_dirs(),
            views(files@) == marking_files(),
            views(out@) == before + marks_below(all.take(i as int)),
        decreases projects@.len() - i,
    {
        assert(all.take(i + 1).drop_last() =~= all.take(i as int));
        assert(all.take(i + 1).last() == projects@[i as int]@);
        let ghost so_far = marks_below(all.take(i as int));
        push_below_each(out, projects[i].path.as_str(), &dirs, &files);
        assert(views(out@) =~= before + (so_far + below_each(
            projects@[i as int]@.path,
            signed_dirs(),
            marking_files(),
        )));
        i += 1;
    }
    assert(all.take(all.len() as int) =~= all);
}

/// What editors keep below a directory.
pub open spec fn editor_data(base: Seq<char>) -> Seq<Seq<char>> {
    below(base, editor_names()) + below_each(base, editor_names(), editor_places())
}

fn push_editor_data(out: &mut Vec<String>, base: &str)
    ensures
        views(final(out)@) == views(old(out)@) + editor_data(base@),
{
    let ghost before = views(out@);
    push_below(out, base, &editor_names_list());
    push_below_each(out, base, &editor_names_list(), &editor_places_list());
    assert(views(out@) =~= before + editor_data(base@));
}

/// What the SDK holds that matters.
pub open spec fn sdk_places(sdk: Option<Seq<char>>) -> Seq<Seq<char>> {
    match sdk {
        Some(dir) => seq![dir, join(dir, "system-images"@), join(dir, "ndk"@)],
        None => Seq::empty(),
    }
}

/// Places that the home directory alone gives.
pub open spec fn home_side(home: Seq<char>) -> Seq<Seq<char>> {
    below(home, home_places()) + below(join(home, "Library/Developer"@), developer_places())
        + below_each(home, conda_names(), seq!["pkgs"@]) + editor_data(
        join(home, "Library/Application Support"@),
    ) + editor_data(join(home, ".config"@))
}

/// Every place that a provider looks at, but for those that `further_places` gives.
pub open spec fn all_places(paths: PathsModel, projects: Seq<ProjectModel>) -> Seq<Seq<char>> {
    home_side(paths.home) + below(paths.cache_dir, cache_places()) + below(
        paths.cargo_home,
        cargo_places(),
    ) + seq![paths.go_build_cache, paths.go_mod_cache, paths.android_avd] + sdk_places(
        paths.android_sdk,
    ) + below_projects(projects, project_places()) + marks_below(projects)
}

fn push_home_side(out: &mut Vec<String>, paths: &Paths)
    ensures
        views(final(out)@) == views(old(out)@) + home_side(paths@.home),
{
    let ghost before = views(out@);
    let pkgs = vec!["pkgs"];
    assert(views(pkgs@) =~= seq!["pkgs"@]);
    push_below(out, paths.home(), &home_places_list());
    push_below(out, paths.home_join("Library/Developer").as_str(), &developer_places_list());
    push_below_each(out, paths.home(), &conda_names_list(), &pkgs);
    push_editor_data(out, paths.home_join("Library/Application Support").as_str());
    push_editor_data(out, paths.home_join(".config").as_str());
    assert(views(out@) =~= before + home_side(paths@.home));
}

/// Every place that a provider looks at, but for those that `further_places` gives.
pub fn places(paths: &Paths, projects: &Vec<ProjectRoot>) -> (out: Vec<String>)
    ensures
        views(out@) == all_places(paths@, views(projects@)),
{
    let mut out: Vec<String> = Vec::new();
    assert(views(out@) =~= Seq::<Seq<char>>::empty());
    push_home_side(&mut out, paths);
    assert(views(out@) =~= home_side(paths@.home));
    push_below(&mut out, paths.cache_dir().as_str(), &cache_places_list());
    push_below(&mut out, paths.cargo_home().as_str(), &cargo_places_list());
    let ghost before = views(out@);
    out.push(paths.go_build_cache());
    out.push(paths.go_mod_cache());
    out.push(paths.android_avd());
    assert(views(out@) =~= before + seq![
        paths@.go_build_cache,
        paths@.go_mod_cache,
        paths@.android_avd,
    ]);
    let ghost before = views(out@);
    match paths.android_sdk() {
        Some(sdk) => {
            let images = join_path(sdk.as_str(), "system-images");
            let ndk = join_path(sdk.as_str(), "ndk");
            out.push(sdk);
            out.push(images);
            out.push(ndk);
        },
        None => {},
    }
    assert(views(out@) =~= before + sdk_places(paths@.android_sdk));
    push_below_projects(&mut out, projects, &project_places_list());
    push_marks_below(&mut out, projects);
    out
}

/// The directories among the places whose contents matter.
pub open spec fn all_listings(paths: PathsModel, projects: Seq<ProjectModel>) -> Seq<Seq<char>> {
    below(paths.home, home_listings()) + below(
        join(paths.home, "Library/Developer"@),
        developer_listings(),
    ) + seq![paths.android_avd] + sdk_places(paths.android_sdk) + below_projects(
        projects,
        seq!["data"@],
    )
}

/// The directories among the places whose contents matter.
pub fn listings(paths: &Paths, projects: &Vec<ProjectRoot>) -> (out: Vec<String>)
    ensures
        views(out@) == all_listings(paths@, views(projects@)),
{
    let mut out: Vec<String> = Vec::new();
    assert(views(out@) =~= Seq::<Seq<char>>::empty());
    push_below(&mut out, paths.home(), &home_listings_list());
    assert(views(out@) =~= below(paths@.home, home_listings()));
    push_below(
        &mut out,
        paths.home_join("Library/Developer").as_str(),
        &developer_listings_list(),
    );
    let ghost before = views(out@);
    out.push(paths.android_avd());
    assert(views(out@) =~= before + seq![paths@.android_avd]);
    let ghost before = views(out@);
    match paths.android_sdk() {
        Some(sdk) => {
            let images = join_path(sdk.as_str(), "system-images");
            let ndk = join_path(sdk.as_str(), "ndk");
            out.push(sdk);
            out.push(images);
            out.push(ndk);
        },
        None => {},
    }
    assert(views(out@) =~= before + sdk_places(paths@.android_sdk));
    let data = vec!["data"];
    assert(views(data@) =~= seq!["data"@]);
    push_below_projects(&mut out, projects, &data);
    out
}

/// The files that register virtual devices.
pub open spec fn registrations(dir: Seq<char>, names: Seq<Seq<char>>) -> Seq<Seq<char>> {
    Seq::new(names.len(), |i: int| join(dir, stem(join(dir, names[i])) + ".ini"@))
}

/// The thumbnails of the profiles of a project.
pub open spec fn thumbnail_places(dir: Seq<char>, names: Seq<Seq<char>>) -> Seq<Seq<char>> {
    Seq::new(names.len(), |i: int| join(join(dir, names[i]), "thumbnails"@))
}

/// The thumbnails of the profiles of all projects.
pub open spec fn all_thumbnail_places(disk: DiskModel, projects: Seq<ProjectModel>) -> Seq<
    Seq<char>,
>
    decreases projects.len(),
{
    if projects.len() == 0 {
        Seq::empty()
    } else {
        let dir = join(projects.last().path, "data"@);
        all_thumbnail_places(disk, projects.drop_last()) + thumbnail_places(
            dir,
            disk.subdir_names(dir),
        )
    }
}

fn push_thumbnails(out: &mut Vec<String>, disk: &Disk, dir: &str)
    ensures
        views(final(out)@) == views(old(out)@) + thumbnail_places(
            dir@,
            disk@.subdir_names(dir@),
        ),
{
    let names = disk.subdirs(dir);
    let ghost before = views(out@);
    let ghost all = thumbnail_places(dir@, disk@.subdir_names(dir@));
    let mut i: usize = 0;
    assert(before + all.take(0) =~= before);
    while i < names.len()
        invariant
            i <= names@.len(),
            views(names@) == disk@.subdir_names(dir@),
            all == thumbnail_places(dir@, views(names@)),
            views(out@) == before + all.take(i as int),
        decreases names@.len() - i,
    {
        assert(all[i as int] == join(join(dir@, names@[i as int]@), "thumbnails"@));
        assert(before + all.take(i + 1) =~= (before + all.take(i as int)).push(all[i as int]));
        out.push(join_path(join_path(dir, names[i].as_str()).as_str(), "thumbnails"));
        i += 1;
    }
    assert(all.take(all.len() as int) =~= all);
}

/// Places that depend on what the listed directories hold.
pub fn further_places(paths: &Paths, projects: &Vec<ProjectRoot>, disk: &Disk) -> (out: Vec<String>)
    ensures
        views(out@) == registrations(
            paths@.android_avd,
            disk@.subdir_names(paths@.android_avd),
        ) + all_thumbnail_places(disk@, views(projects@)),
{
    let avd = paths.android_avd();
    let devices = disk.subdirs(avd.as_str());
    let ghost all = registrations(avd@, views(devices@));
    let mut out: Vec<String> = Vec::new();
    let mut i: usize = 0;
    assert(views(out@) =~= all.take(0));
    while i < devices.len()
        invariant
            i <= devices@.len(),
            all == registrations(avd@, views(devices@)),
            views(out@) == all.take(i as int),
        decreases devices@.len() - i,
    {
        let path = join_path(avd.as_str(), devices[i].as_str());
        let file = stem_of(path.as_str()).concat(".ini");
        assert(all[i as int] == join(avd@, stem(join(avd@, devices@[i as int]@)) + ".ini"@));
        assert(all.take(i + 1) =~= all.take(i as int).push(all[i as int]));
        out.push(join_path(avd.as_str(), file.as_str()));
        i += 1;
    }
    assert(all.take(all.len() as int) =~= all);
    let ghost found = views(projects@);
    let mut k: usize = 0;
    assert(found.take(0) =~= Seq::empty());
    assert(all + Seq::<Seq<char>>::empty() =~= all);
    while k < projects.len()
        invariant
            k <= projects@.len(),
            found == views(projects@),
            views(out@) == all + all_thumbnail_places(disk@, found.take(k as int)),
        decreases projects@.len() - k,
    {
        assert(found.take(k + 1).drop_last() =~= found.take(k as int));
        assert(found.take(k + 1).last() == projects@[k as int]@);
        let dir = join_path(projects[k].path.as_str(), "data");
        let ghost so_far = all_thumbnail_places(disk@, found.take(k as int));
        push_thumbnails(&mut out, disk, dir.as_str());
        assert(views(out@) =~= all + (so_far + thumbnail_places(
            dir@,
            disk@.subdir_names(dir@),
        )));
        k += 1;
    }
    assert(found.take(found.len() as int) =~= found);
    out
}

/// The executables that a provider asks for.
pub open spec fn command_names() -> Seq<Seq<char>> {
    seq!["go"@, "docker"@, "xcrun"@, "brew"@, "nix-collect-garbage"@]
}

/// The executables that a provider asks for.
pub fn commands() -> (v: Vec<&'static str>)
    ensures
        views(v@) == command_names(),
{
    let v = vec!["go", "docker", "xcrun", "brew", "nix-collect-garbage"];
    assert(views(v@) =~= command_names());
    v
}

/// The local ports that a provider asks for.
pub open spec fn port_numbers() -> Seq<u16> {
    seq![11_434, 1_234, 8_188, 8_000, 7_860]
}

/// The local ports that a provider asks for.
pub fn ports() -> (v: Vec<u16>)
    ensures
        v@ == port_numbers(),
{
    let v: Vec<u16> = vec![11_434, 1_234, 8_188, 8_000, 7_860];
    assert(v@ =~= port_numbers());
    v
}

} // verus!
