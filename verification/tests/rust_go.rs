//! Cargo, rustup and Go.
use reclaim::model::{Action, Candidate, Regen, Tier};
use reclaim::platform::Base;
use reclaim::providers::go::GoCaches;
use reclaim::providers::rust::{RustCaches, RustTargets};
use reclaim::providers::testing::TestHome;

fn first<'a>(found: &'a [Candidate], provider: &str) -> &'a Candidate {
    found.iter().find(|c| c.provider == provider).expect(provider)
}

#[test]
fn registry_sources_are_safe_but_archives_need_review() {
    // src/ is re-extracted locally; cache/ requires the network.
    let mut home = TestHome::new();
    home.file(".cargo/registry/src/index/serde-1.0/lib.rs");
    home.file(".cargo/registry/cache/index/serde-1.0.crate");

    let found = home.discover(&RustCaches);
    assert_eq!(first(&found, "rust.registry-src").tier, Tier::Safe);
    assert_eq!(first(&found, "rust.registry-cache").tier, Tier::Review);
}

#[test]
fn target_directories_are_found_per_project() {
    let mut home = TestHome::new();
    home.project("dev/tool", &["Cargo.toml"]);
    home.file("dev/tool/target/debug/tool");

    let found = home.discover(&RustTargets);
    assert_eq!(found.len(), 1);
    assert_eq!(found[0].project, Some(home.path("dev/tool")));
    assert!(matches!(found[0].regen, Regen::Rebuild { .. }));
}

#[test]
fn a_project_without_a_target_dir_offers_nothing() {
    let mut home = TestHome::new();
    home.project("dev/tool", &["Cargo.toml"]);
    assert!(home.discover(&RustTargets).is_empty());
}

#[test]
fn a_single_toolchain_is_never_offered() {
    // Removing the only toolchain leaves the machine unable to build anything.
    let mut home = TestHome::new();
    home.dir(".rustup/toolchains/stable-aarch64-apple-darwin");
    let found = home.discover(&RustCaches);
    assert!(!found.iter().any(|c| c.provider == "rust.toolchain"));
}

#[test]
fn extra_toolchains_are_offered_with_a_pinning_warning() {
    let mut home = TestHome::new();
    home.dir(".rustup/toolchains/stable-aarch64-apple-darwin");
    home.dir(".rustup/toolchains/1.70.0-aarch64-apple-darwin");

    let found = home.discover(&RustCaches);
    let toolchains: Vec<&Candidate> =
        found.iter().filter(|c| c.provider == "rust.toolchain").collect();
    assert_eq!(toolchains.len(), 2);
    assert!(toolchains.iter().all(|t| t.tier == Tier::Review));
    assert!(toolchains
        .iter()
        .all(|t| t.warnings.iter().any(|w| w.message.contains("rust-toolchain.toml"))));
}

#[test]
fn nothing_is_offered_without_rust_installed() {
    assert!(TestHome::new().discover(&RustCaches).is_empty());
}

/// A home with GOPATH and GOCACHE redirected inside it.
fn go_home() -> TestHome {
    let mut home = TestHome::new();
    home.redirect(Base::GoPath, "go");
    home.redirect(Base::GoBuildCache, "go-cache");
    home
}

#[test]
fn the_build_cache_is_safe() {
    let mut home = go_home();
    home.file("go-cache/ab/abcdef");
    home.dir("go");

    let found = home.discover(&GoCaches);
    assert_eq!(first(&found, "go.build-cache").tier, Tier::Safe);
}

#[test]
fn the_module_cache_uses_go_clean_because_its_files_are_read_only() {
    // A plain rm -rf fails partway through and leaves a broken cache.
    for installed in [false, true] {
        let mut home = go_home();
        home.file("go/pkg/mod/github.com/x/y@v1.0.0/go.mod");
        home.dir("go-cache");
        if installed {
            home.ctx.disk.commands.push("go".to_string());
        }

        let found = home.discover(&GoCaches);
        let modcache = first(&found, "go.mod-cache");
        assert_eq!(modcache.tier, Tier::Review);
        assert!(modcache.warnings.iter().any(|w| w.message.contains("read-only")));

        if installed {
            match &modcache.action {
                Action::Shell { program, args } => {
                    assert_eq!(program, "go");
                    assert_eq!(args, &["clean", "-modcache"]);
                }
                other => panic!("expected a shell action, got {other:?}"),
            }
        }
    }
}

#[test]
fn nothing_is_offered_without_go() {
    assert!(go_home().discover(&GoCaches).is_empty());
}
