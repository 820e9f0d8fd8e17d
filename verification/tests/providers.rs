//! The provider set as a whole, and what providers are built from.
use std::collections::HashSet;

use reclaim::model::{Candidate, Group, Kind, Tier};
use reclaim::pipeline::Provider;
use reclaim::providers::ai_tools::LocalAiTools;
use reclaim::providers::support::{any_file_exists, project_artifact};
use reclaim::providers::testing::TestHome;
use reclaim::providers::{all, all_markers, probes, AnyProvider};

#[test]
fn every_provider_has_a_unique_id() {
    let providers = all();
    let ids: HashSet<&str> = providers.iter().map(|p| p.id()).collect();
    assert_eq!(ids.len(), providers.len(), "duplicate provider ids");
}

#[test]
fn every_provider_id_is_dotted_so_group_filtering_works() {
    // `reclaim clean --provider node` relies on the `<group>.<name>` shape.
    for provider in all() {
        let id = provider.id();
        assert!(id.contains('.'), "`{id}` must be `<group>.<name>`");
        assert!(!id.starts_with('.') && !id.ends_with('.'), "`{id}` is malformed");
    }
}

#[test]
fn an_empty_home_produces_no_candidates_from_path_based_providers() {
    // Nothing may be invented on a machine that has none of these toolchains.
    let home = TestHome::new();
    let path_based: Vec<AnyProvider> = all()
        .into_iter()
        .filter(|p| {
            !matches!(p.id(), "system.caches" | "containers.docker" | "apple.simulators")
        })
        .collect();

    let found = home.discover_all(&path_based);
    assert!(found.is_empty(), "unexpected candidates: {found:#?}");
}

#[test]
fn every_discovered_candidate_carries_at_least_one_real_path() {
    let mut home = TestHome::new();
    home.file(".npm/_cacache/index");
    home.file(".gradle/caches/x.jar");
    home.project("dev/app", &["package.json", "package-lock.json"]);
    home.file("dev/app/node_modules/react/index.js");

    let found = home.discover_all(&all());
    assert!(found.len() >= 3);
    for candidate in found {
        assert!(!candidate.paths.is_empty(), "{} has no paths", candidate.provider);
        assert!(
            candidate.paths.iter().all(|p| p.starts_with('/')),
            "{} has a relative path",
            candidate.provider
        );
    }
}

#[test]
fn every_candidate_has_a_label_and_a_regeneration_story() {
    let mut home = TestHome::new();
    home.file(".npm/_cacache/index");
    home.file(".cargo/registry/src/x/lib.rs");
    home.file(".gradle/caches/x.jar");

    let found = home.discover_all(&all());
    assert!(found.len() >= 3);
    for candidate in found {
        assert!(!candidate.label.is_empty(), "{} has no label", candidate.provider);
        assert!(
            !candidate.regen.summary().is_empty(),
            "{} does not say how it comes back",
            candidate.provider
        );
    }
}

#[test]
fn irreplaceable_candidates_always_carry_a_warning() {
    let mut home = TestHome::new();
    home.project("dev/app", &["package.json"]); // no lockfile -> caution
    home.file("dev/app/node_modules/react/index.js");
    home.project("dev/site", &["composer.json"]);
    home.file("dev/site/vendor/autoload.php");

    let found = home.discover_all(&all());
    let caution: Vec<&Candidate> = found.iter().filter(|c| c.tier == Tier::Caution).collect();
    assert_eq!(caution.len(), 2);
    for candidate in caution {
        assert!(
            !candidate.warnings.is_empty(),
            "{} is Caution tier but explains nothing",
            candidate.provider
        );
    }
}

#[test]
fn markers_are_collected_and_deduplicated() {
    let markers = all_markers();
    for expected in ["package.json", "Cargo.toml", "pom.xml"] {
        assert!(markers.iter().any(|m| m == expected));
    }
    let unique: HashSet<&String> = markers.iter().collect();
    assert_eq!(unique.len(), markers.len());
    assert!(markers.windows(2).all(|w| w[0] < w[1]), "sorted");
}

#[test]
fn the_provider_set_covers_every_group_we_advertise() {
    let providers = all();
    let ids: HashSet<&str> =
        providers.iter().map(|p| p.id().split('.').next().unwrap()).collect();
    for expected in [
        "node",
        "python",
        "rust",
        "jvm",
        "go",
        "apple",
        "android",
        "containers",
        "dotnet",
        "ruby",
        "php",
        "dart",
        "buildtools",
        "editors",
        "system",
        "ml",
    ] {
        assert!(ids.contains(expected), "no provider for `{expected}`");
    }
}

#[test]
fn builds_a_tree_and_reports_absolute_paths() {
    let mut home = TestHome::new();
    home.dir(".npm/_cacache");
    home.file(".npm/_cacache/index");
    assert!(home.ctx.disk.is_file(&home.path(".npm/_cacache/index")));
    assert!(home.home().starts_with('/'));
}

#[test]
fn registered_projects_appear_in_the_scan_context() {
    let mut home = TestHome::new();
    home.project("dev/app", &["package.json", "package-lock.json"]);

    let ctx = home.context();
    let node_projects = ctx.projects_with(&["package.json"]);
    assert_eq!(node_projects.len(), 1);
    assert!(node_projects[0].has_marker("package-lock.json"));
}

#[test]
fn subdirs_returns_only_directories_sorted() {
    let mut home = TestHome::new();
    home.dir("tmp/b");
    home.dir("tmp/a");
    home.file("tmp/file.txt");

    let dirs = home.ctx.disk.subdirs(&home.path("tmp"));
    assert_eq!(dirs.len(), 2);
    assert!(dirs[0].ends_with('a'));
    assert!(dirs[1].ends_with('b'));
}

#[test]
fn subdirs_of_a_missing_directory_is_empty() {
    assert!(TestHome::new().ctx.disk.subdirs("/definitely/not/here").is_empty());
}

#[test]
fn has_command_finds_a_ubiquitous_binary() {
    let mut home = TestHome::new();
    home.ctx.disk.commands.push("ls".to_string());
    assert!(home.ctx.disk.has_command("ls"), "ls must be on PATH");
    assert!(!home.ctx.disk.has_command("definitely-not-a-real-binary-xyz"));
}

#[test]
fn any_file_exists_detects_lockfiles() {
    let mut home = TestHome::new();
    home.file("tmp/package-lock.json");
    let dir = home.path("tmp");
    assert!(any_file_exists(&home.ctx, &dir, &["yarn.lock", "package-lock.json"]));
    assert!(!any_file_exists(&home.ctx, &dir, &["pnpm-lock.yaml"]));
}

#[test]
fn count_entries_is_zero_for_missing_directories() {
    assert_eq!(TestHome::new().ctx.disk.count_entries("/definitely/not/here"), 0);
}

#[test]
fn project_artifact_is_none_when_the_directory_is_absent() {
    let mut home = TestHome::new();
    home.dir("tmp");
    let tmp = home.path("tmp");
    let target = home.path("tmp/target");
    let built =
        project_artifact(&home.ctx, "rust.target", Group::Rust, "target/", &tmp, &target);
    assert!(built.is_none());
}

#[test]
fn port_is_open_detects_a_bound_listener() {
    let mut home = TestHome::new();
    home.ctx.disk.ports.push(4242);
    assert!(home.ctx.disk.port_is_open(4242));
    home.ctx.disk.ports.clear();
    assert!(!home.ctx.disk.port_is_open(4242), "nothing should be listening anymore");
}

#[test]
fn project_artifact_links_back_to_its_project() {
    let mut home = TestHome::new();
    home.dir("tmp/target");
    let tmp = home.path("tmp");
    let target = home.path("tmp/target");
    let candidate =
        project_artifact(&home.ctx, "rust.target", Group::Rust, "target/", &tmp, &target)
            .unwrap()
            .build();

    assert!(matches!(candidate.kind, Kind::ProjectArtifact));
    assert_eq!(candidate.project, Some(tmp));
}

#[test]
fn a_scan_looks_where_the_providers_do() {
    let home = TestHome::new();
    let places = probes::places(&home.ctx.paths, &home.ctx.projects);
    for expected in [".npm", ".m2/repository", ".rustup/toolchains"] {
        let path = home.path(expected);
        assert!(places.iter().any(|p| *p == path), "{expected}");
    }
    assert!(probes::commands().iter().any(|c| *c == "docker"));
    assert!(probes::ports().contains(&11434));
}

#[test]
fn looking_nowhere_else_misses_nothing() {
    let mut home = TestHome::new();
    home.file(".npm/_cacache/index");
    home.dir("miniconda3/pkgs");
    home.dir(".rustup/toolchains/stable");
    home.dir(".rustup/toolchains/nightly");
    home.file(".config/Code/User/workspaceStorage/abc/state.vscdb");
    home.project("dev/app", &["package.json", "requirements.txt"]);
    home.file("dev/app/.venv/pyvenv.cfg");
    home.file("dev/app/public/scripts/world-info.js");
    home.file("dev/app/data/default-user/thumbnails/avatar.png");
    home.ctx.config.providers.disabled.clear();
    let mut providers = all();
    providers.push(AnyProvider::LocalAiTools(LocalAiTools));
    let everything = format!("{:?}", home.discover_all(&providers));

    let mut probed = probes::places(&home.ctx.paths, &home.ctx.projects);
    probed.extend(probes::listings(&home.ctx.paths, &home.ctx.projects));
    probed.extend(probes::further_places(&home.ctx.paths, &home.ctx.projects, &home.ctx.disk));
    let before = home.ctx.disk.entries.len();
    home.ctx.disk.entries.retain(|e| probed.contains(&e.path));
    assert!(home.ctx.disk.entries.len() < before);
    assert_eq!(format!("{:?}", home.discover_all(&providers)), everything);
    assert!(everything.contains("ml.sillytavern-thumbnails"));
    assert!(everything.contains("python.conda-pkgs"));
}

#[test]
fn only_existing_paths_are_kept() {
    let mut home = TestHome::new();
    home.dir("there");
    let paths = vec![home.path("there"), home.path("gone")];
    assert_eq!(home.ctx.existing(&paths), vec![home.path("there")]);
}
