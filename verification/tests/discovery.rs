//! Finding projects.
use reclaim::config::ScanConfig;
use reclaim::discovery::{find_projects, keeps_child, projects_with, Discovery, VisitedDir};
use reclaim::model::ProjectRoot;
use reclaim::path::file_name_of;

/// A tree given by the files in it; a path that ends in a slash is a directory.
struct Tree {
    files: Vec<String>,
}

impl Tree {
    fn of(files: &[&str]) -> Tree {
        Tree { files: files.iter().map(|f| f.to_string()).collect() }
    }

    fn children(&self, dir: &str) -> Vec<(String, bool)> {
        let prefix = format!("{dir}/");
        let mut found: Vec<(String, bool)> = Vec::new();
        for file in &self.files {
            if let Some(rest) = file.strip_prefix(&prefix) {
                let mut parts = rest.split('/');
                let name = parts.next().unwrap().to_string();
                let is_dir = parts.next().is_some();
                if !name.is_empty() && !found.iter().any(|(n, _)| *n == name) {
                    found.push((name, is_dir));
                }
            }
        }
        found
    }

    fn visit(&self, dir: &str, depth: usize, config: &ScanConfig, visited: &mut Vec<VisitedDir>) {
        let children = self.children(dir);
        if children.is_empty() {
            return;
        }
        let kept: Vec<(String, bool)> = children
            .into_iter()
            .filter(|(name, is_dir)| {
                keeps_child(*is_dir, name, &format!("{dir}/{name}"), &config.exclude)
            })
            .collect();
        visited.push(VisitedDir {
            path: dir.to_string(),
            names: kept.iter().map(|(name, _)| name.clone()).collect(),
        });
        if depth < config.max_depth {
            for (name, is_dir) in kept {
                if is_dir {
                    self.visit(&format!("{dir}/{name}"), depth + 1, config, visited);
                }
            }
        }
    }

    fn find(&self, roots: &[&str], config: &ScanConfig) -> Discovery {
        let mut visited = Vec::new();
        for root in roots {
            self.visit(root, 0, config, &mut visited);
        }
        find_projects(&visited, Vec::new())
    }
}

fn config() -> ScanConfig {
    ScanConfig { exclude: Vec::new(), max_depth: 8, concurrency: 2, ..Default::default() }
}

fn name_of(project: &ProjectRoot) -> String {
    file_name_of(&project.path).unwrap()
}

#[test]
fn finds_projects_by_their_marker_files() {
    let tree = Tree::of(&[
        "/r/web-app/package.json",
        "/r/rust-tool/Cargo.toml",
        "/r/notes/readme.md",
    ]);
    let found = tree.find(&["/r"], &config());
    let names: Vec<String> = found.projects.iter().map(name_of).collect();

    assert!(names.contains(&"web-app".to_string()));
    assert!(names.contains(&"rust-tool".to_string()));
    assert!(!names.contains(&"notes".to_string()), "a plain folder is not a project");
}

#[test]
fn records_every_marker_in_a_polyglot_project() {
    let tree = Tree::of(&[
        "/r/rn-app/package.json",
        "/r/rn-app/ios/Podfile",
        "/r/rn-app/android/build.gradle",
    ]);
    let found = tree.find(&["/r"], &config());
    let root = found.projects.iter().find(|p| p.path.ends_with("/rn-app")).unwrap();
    assert!(root.has_marker("package.json"));
    // The nested ios/android dirs are separate roots with their own markers.
    assert!(found.projects.iter().any(|p| p.has_marker("Podfile")));
    assert!(found.projects.iter().any(|p| p.has_marker("build.gradle")));
}

#[test]
fn never_descends_into_artifact_directories() {
    // A `package.json` inside node_modules is a dependency, not a project of the user's, and
    // there are tens of thousands of them.
    let tree = Tree::of(&[
        "/r/app/package.json",
        "/r/app/node_modules/lodash/package.json",
        "/r/app/node_modules/react/package.json",
    ]);
    let found = tree.find(&["/r"], &config());
    assert_eq!(found.projects.len(), 1, "found: {:?}", found.projects);
    assert!(found.projects[0].path.ends_with("/app"));
}

#[test]
fn descends_into_a_monorepo_below_its_root_marker() {
    let tree = Tree::of(&[
        "/r/mono/package.json",
        "/r/mono/packages/api/package.json",
        "/r/mono/packages/web/package.json",
    ]);
    let found = tree.find(&["/r"], &config());
    assert_eq!(found.projects.len(), 3, "workspace members are projects too");
}

#[test]
fn respects_the_configured_exclude_globs() {
    let tree = Tree::of(&["/r/keep/Cargo.toml", "/r/skip/Cargo.toml"]);
    let cfg = ScanConfig { exclude: vec!["/r/skip*".to_string()], ..config() };
    let found = tree.find(&["/r"], &cfg);
    assert_eq!(found.projects.len(), 1);
    assert!(found.projects[0].path.ends_with("/keep"));
}

#[test]
fn respects_max_depth() {
    let tree = Tree::of(&["/r/a/b/c/d/e/f/deep/Cargo.toml"]);
    let cfg = ScanConfig { max_depth: 3, ..config() };
    let found = tree.find(&["/r"], &cfg);
    assert!(found.projects.is_empty(), "should not have reached the deep project");
}

#[test]
fn skips_hidden_directories() {
    let tree = Tree::of(&["/r/.dotfiles/package.json", "/r/real/package.json"]);
    let found = tree.find(&["/r"], &config());
    assert_eq!(found.projects.len(), 1);
    assert!(found.projects[0].path.ends_with("/real"));
}

#[test]
fn matches_xcode_project_directories_by_extension() {
    let tree = Tree::of(&["/r/ios-app/MyApp.xcodeproj/"]);
    let found = tree.find(&["/r"], &config());
    let root = found.projects.iter().find(|p| p.path.ends_with("/ios-app"));
    assert!(root.is_some(), "xcodeproj is a directory, not a file: {:?}", found.projects);
}

#[test]
fn scans_a_root_whose_own_name_would_otherwise_be_pruned() {
    // The prune rules apply to children, never to the root the user asked for.
    for root_name in [".hidden-root", "build", "node_modules"] {
        let root = format!("/r/{root_name}");
        let file = format!("{root}/app/Cargo.toml");
        let tree = Tree::of(&[file.as_str()]);
        let found = tree.find(&[root.as_str()], &config());
        assert_eq!(found.projects.len(), 1, "root named `{root_name}` must still be scanned");
    }
}

#[test]
fn a_missing_root_is_skipped_silently() {
    let found = Tree::of(&[]).find(&["/definitely/not/here"], &config());
    assert!(found.projects.is_empty());
}

#[test]
fn results_are_sorted_and_deduplicated() {
    let tree = Tree::of(&["/r/b/Cargo.toml", "/r/a/Cargo.toml"]);
    // The same root listed twice must not yield duplicate projects.
    let found = tree.find(&["/r", "/r"], &config());
    assert_eq!(found.projects.len(), 2);
    assert!(found.projects[0].path < found.projects[1].path);
}

#[test]
fn projects_with_filters_by_marker() {
    let projects = vec![
        ProjectRoot { path: "/a".into(), markers: vec!["package.json".into()] },
        ProjectRoot { path: "/b".into(), markers: vec!["Cargo.toml".into()] },
    ];
    let node = projects_with(&projects, &["package.json"]);
    assert_eq!(node.len(), 1);
    assert_eq!(node[0].path, "/a");
}

#[test]
fn artifact_trees_and_hidden_directories_are_pruned() {
    let none = Vec::new();
    assert!(!keeps_child(true, "node_modules", "/r/node_modules", &none));
    assert!(!keeps_child(true, ".git", "/r/.git", &none));
    assert!(keeps_child(true, "src", "/r/src", &none));
    assert!(keeps_child(false, "Cargo.toml", "/r/Cargo.toml", &none));
}
