//! The guard in front of every removal.
use reclaim::platform::{Os, Paths};
use reclaim::safety::{PathFacts, PathGuard};

const HOME: &str = "/home/tester";

fn guard() -> PathGuard {
    PathGuard::new(&Paths::with_home(HOME, Os::Linux))
}

/// A real directory at that path.
fn present(path: &str) -> PathFacts {
    PathFacts { exists: true, symlink: Ok(false), canonical: Ok(path.to_string()) }
}

fn missing() -> PathFacts {
    PathFacts {
        exists: false,
        symlink: Err("not found".to_string()),
        canonical: Err("not found".to_string()),
    }
}

fn allows(g: &PathGuard, path: &str) -> bool {
    g.check(path, &present(path)).is_ok()
}

fn refusal(g: &PathGuard, path: &str) -> String {
    g.check(path, &present(path)).unwrap_err().message()
}

#[test]
fn accepts_a_normal_hidden_cache_directory() {
    let g = guard();
    assert!(allows(&g, "/home/tester/.npm/_cacache"));
    // Depth 1 hidden is the shape of `~/.npm` itself, and must also pass.
    assert!(allows(&g, "/home/tester/.npm"));
}

#[test]
fn refuses_the_home_directory_itself() {
    let err = refusal(&guard(), HOME);
    assert!(err.contains("home directory"), "{err}");
}

#[test]
fn refuses_the_filesystem_root() {
    assert!(!allows(&guard(), "/"));
}

#[test]
fn refuses_system_directories() {
    for path in ["/etc", "/usr", "/System", "/Applications"] {
        assert!(!allows(&guard(), path), "{path} must be refused");
    }
}

#[test]
fn refuses_relative_paths() {
    let err = refusal(&guard(), "relative/path");
    assert!(err.contains("not absolute"), "{err}");
}

#[test]
fn refuses_protected_home_entries_and_their_children() {
    let g = guard();
    assert!(!allows(&g, "/home/tester/.ssh"));
    assert!(
        !allows(&g, "/home/tester/.ssh/keys"),
        "children of protected paths must be refused too"
    );
    assert!(!allows(&g, "/home/tester/Documents/work"));
}

#[test]
fn refuses_user_configured_protected_paths() {
    let precious = "/home/tester/.cache/precious";
    assert!(allows(&guard(), precious));
    let g = guard().protect(vec![precious.to_string()]);
    assert!(!allows(&g, precious));
    assert!(!allows(&g, "/home/tester/.cache/precious/deep"));
    assert!(allows(&g, "/home/tester/.cache/other"), "only more is refused");
}

#[test]
fn refuses_anything_containing_a_dot_git_component() {
    let g = guard();
    assert!(
        !allows(&g, "/home/tester/dev/proj/.git"),
        "deleting .git destroys unrecoverable history"
    );
    assert!(!allows(&g, "/home/tester/dev/proj/.git/objects"));
}

#[test]
fn refuses_a_symlink_rather_than_following_it() {
    let facts = PathFacts {
        exists: true,
        symlink: Ok(true),
        canonical: Ok("/home/tester/.cache/real".to_string()),
    };
    let err = guard().check("/home/tester/.cache/link", &facts).unwrap_err().message();
    assert!(err.contains("symlink"), "{err}");
}

#[test]
fn refuses_traversal_that_escapes_the_allowed_roots() {
    // The string looks like it is inside home, but resolves to /etc.
    let facts =
        PathFacts { exists: true, symlink: Ok(false), canonical: Ok("/etc".to_string()) };
    let err = guard()
        .check("/home/tester/.cache/../../../../../../etc", &facts)
        .unwrap_err()
        .message();
    assert!(
        err.contains("system directory") || err.contains("outside every allowed root"),
        "traversal must be caught after canonicalization: {err}"
    );
}

#[test]
fn refuses_paths_outside_every_allowed_root() {
    let err = refusal(&guard(), "/data/elsewhere/stuff");
    assert!(err.contains("outside every allowed root"), "{err}");
}

#[test]
fn an_allowed_root_widens_what_may_be_removed() {
    let g = guard().allow_root("/data/elsewhere");
    assert!(allows(&g, "/data/elsewhere/stuff"));
    assert!(!allows(&g, "/home/tester/.ssh"), "no protection is lifted");
}

#[test]
fn refuses_top_level_non_hidden_home_folders() {
    let g = guard();
    let err = refusal(&g, "/home/tester/Projects");
    assert!(err.contains("top-level non-hidden"), "{err}");
    // ...but a build artifact one level deeper is fine.
    assert!(allows(&g, "/home/tester/Projects/app/node_modules"));
}

#[test]
fn check_all_skips_missing_and_collects_refusals() {
    let g = guard();
    let good = "/home/tester/.npm/_cacache".to_string();
    let bad = "/home/tester/.ssh".to_string();
    let gone = "/home/tester/.nope".to_string();
    let facts = vec![present(&good), present(&bad), missing()];
    let (ok, errs) = g.check_all(&vec![good.clone(), bad, gone], &facts);
    assert_eq!(ok, vec![good]);
    assert_eq!(errs.len(), 1, "missing paths are not errors, refusals are");
}

#[test]
fn a_swapped_symlink_is_caught_on_recheck() {
    // A real directory passes at scan time, is replaced by a symlink while the user deliberates,
    // and must fail at delete time.
    let g = guard();
    let target = "/home/tester/.cache/target";
    assert!(g.check(target, &present(target)).is_ok(), "passes at scan time");
    let swapped = PathFacts {
        exists: true,
        symlink: Ok(true),
        canonical: Ok("/home/tester/.ssh".to_string()),
    };
    assert!(g.check(target, &swapped).is_err(), "must fail on re-check before deletion");
}

#[test]
fn a_path_that_cannot_be_resolved_is_an_error() {
    let facts = PathFacts {
        exists: true,
        symlink: Err("denied".to_string()),
        canonical: Err("denied".to_string()),
    };
    assert!(guard().check("/home/tester/.npm", &facts).is_err());
}

#[test]
fn the_guard_knows_its_home() {
    assert_eq!(guard().home(), HOME);
}
