//! JavaScript caches and dependencies.
use reclaim::model::{Candidate, Regen, Tier};
use reclaim::platform::Os;
use reclaim::providers::node::{NodeCaches, NodeModules};
use reclaim::providers::testing::TestHome;

fn first<'a>(found: &'a [Candidate], provider: &str) -> &'a Candidate {
    found.iter().find(|c| c.provider == provider).expect(provider)
}

#[test]
fn finds_the_npm_cache() {
    let mut home = TestHome::new();
    home.dir(".npm/_cacache");
    home.file(".npm/_cacache/index");

    let found = home.discover(&NodeCaches);
    let npm = first(&found, "node.npm-cache");
    assert_eq!(npm.tier, Tier::Safe);
    assert!(matches!(npm.regen, Regen::Automatic { .. }));
    assert_eq!(npm.paths, vec!["/home/tester/.npm".to_string()]);
}

#[test]
fn no_candidates_on_a_machine_without_node() {
    assert!(TestHome::new().discover(&NodeCaches).is_empty());
}

#[test]
fn the_pnpm_store_is_withheld_by_default() {
    // Deleting it breaks every existing install for a small real gain.
    let mut home = TestHome::new();
    home.dir("Library/pnpm/store/v3");
    home.file("Library/pnpm/store/v3/blob");
    home.dir(".local/share/pnpm/store/v3");

    let found = home.discover(&NodeCaches);
    assert!(!found.iter().any(|c| c.provider == "node.pnpm-store"));
}

#[test]
fn the_pnpm_store_warns_about_hardlinks_when_enabled() {
    let mut home = TestHome::new();
    home.ctx.config.providers.node.keep_pnpm_store = false;
    home.dir("Library/pnpm/store/v3");
    home.file("Library/pnpm/store/v3/blob");

    let found = home.discover(&NodeCaches);
    let store = first(&found, "node.pnpm-store");
    assert_eq!(store.tier, Tier::Review);
    assert!(
        store.warnings.iter().any(|w| w.message.contains("hardlinked")),
        "the hardlink hazard must be stated: {:?}",
        store.warnings
    );
}

#[test]
fn node_modules_with_a_lockfile_is_safe() {
    let mut home = TestHome::new();
    home.project("dev/app", &["package.json", "package-lock.json"]);
    home.dir("dev/app/node_modules/react");
    home.file("dev/app/node_modules/react/index.js");

    let found = home.discover(&NodeModules);
    let modules = first(&found, "node.modules");
    assert_eq!(modules.tier, Tier::Safe);
    assert!(modules.warnings.is_empty());
    assert_eq!(modules.project, Some(home.path("dev/app")));
}

#[test]
fn node_modules_without_a_lockfile_is_caution() {
    // A reinstall may silently resolve different versions.
    let mut home = TestHome::new();
    home.project("dev/app", &["package.json"]);
    home.dir("dev/app/node_modules/react");
    home.file("dev/app/node_modules/react/index.js");

    let found = home.discover(&NodeModules);
    let modules = first(&found, "node.modules");
    assert_eq!(modules.tier, Tier::Caution);
    assert!(matches!(modules.regen, Regen::Never));
    assert!(modules.warnings.iter().any(|w| w.message.contains("lockfile")));
}

#[test]
fn framework_build_output_is_found() {
    let mut home = TestHome::new();
    home.project("dev/site", &["package.json", "package-lock.json"]);
    home.dir("dev/site/.next");
    home.file("dev/site/.next/build.js");

    let found = home.discover(&NodeModules);
    assert!(found.iter().any(|c| c.label.contains("Next.js")));
}

#[test]
fn node_modules_can_be_disabled_in_config() {
    let mut home = TestHome::new();
    home.ctx.config.providers.node.offer_node_modules = false;
    home.project("dev/app", &["package.json"]);
    home.dir("dev/app/node_modules");

    assert!(home.discover(&NodeModules).is_empty());
}

#[test]
fn browser_caches_are_flagged_as_a_download() {
    for os in [Os::Linux, Os::MacOs] {
        let mut home = TestHome::on(os);
        home.dir("Library/Caches/ms-playwright/chromium-1234");

        let found = home.discover(&NodeCaches);
        let pw = found.iter().find(|c| c.provider == "node.playwright");
        // Only present on macOS layouts; on Linux the cache dir differs.
        if let Some(pw) = pw {
            assert_eq!(pw.tier, Tier::Review);
            assert!(matches!(pw.regen, Regen::Download { .. }));
        } else {
            assert_eq!(os, Os::Linux);
        }
    }
}
