//! Python caches, environments and tool caches.
use reclaim::model::{Candidate, ProjectRoot, Regen, Tier};
use reclaim::providers::python::{PythonCaches, PythonProjects};
use reclaim::providers::testing::TestHome;

fn first<'a>(found: &'a [Candidate], provider: &str) -> &'a Candidate {
    found.iter().find(|c| c.provider == provider).expect(provider)
}

#[test]
fn finds_the_pip_cache() {
    let mut home = TestHome::new();
    home.file(".cache/pip/wheels/abc.whl");
    let found = home.discover(&PythonCaches);
    assert!(found.iter().any(|c| c.provider == "python.pip-cache"));
}

#[test]
fn conda_packages_warn_about_hardlinks() {
    let mut home = TestHome::new();
    home.file("miniconda3/pkgs/numpy-1.0/info.json");

    let found = home.discover(&PythonCaches);
    let pkgs = first(&found, "python.conda-pkgs");
    assert_eq!(pkgs.tier, Tier::Review);
    assert!(pkgs.warnings.iter().any(|w| w.message.contains("hardlinked")));
}

#[test]
fn a_venv_with_a_requirements_file_is_rebuildable() {
    let mut home = TestHome::new();
    home.project("dev/svc", &["requirements.txt"]);
    home.file("dev/svc/.venv/pyvenv.cfg");
    home.file("dev/svc/.venv/lib/python3.13/site-packages/x.py");

    let found = home.discover(&PythonProjects);
    let venv = first(&found, "python.venv");
    assert_eq!(venv.tier, Tier::Review);
    assert!(matches!(venv.regen, Regen::Rebuild { .. }));
}

#[test]
fn a_venv_with_no_dependency_spec_is_caution_and_unrecoverable() {
    // The installed packages exist nowhere else; deleting is a one-way door. The project was
    // found by its setup.py, which has since gone.
    let mut home = TestHome::new();
    home.dir("dev/scratch");
    let path = home.path("dev/scratch");
    home.ctx.projects.push(ProjectRoot { path, markers: vec!["setup.py".into()] });
    home.file("dev/scratch/.venv/pyvenv.cfg");

    let found = home.discover(&PythonProjects);
    let venv = first(&found, "python.venv");
    assert_eq!(venv.tier, Tier::Caution);
    assert!(matches!(venv.regen, Regen::Never));
}

#[test]
fn a_source_directory_named_env_is_not_mistaken_for_a_virtualenv() {
    // `env/` holding config code is common; only pyvenv.cfg makes it an env.
    let mut home = TestHome::new();
    home.project("dev/app", &["requirements.txt"]);
    home.file("dev/app/env/settings.py");

    let found = home.discover(&PythonProjects);
    assert!(!found.iter().any(|c| c.provider == "python.venv"));
}

#[test]
fn finds_tool_caches() {
    let mut home = TestHome::new();
    home.project("dev/app", &["pyproject.toml"]);
    home.file("dev/app/.mypy_cache/3.13/x.json");
    home.file("dev/app/.pytest_cache/v/cache/lastfailed");

    let found = home.discover(&PythonProjects);
    let labels: Vec<&str> = found.iter().map(|c| c.label.as_str()).collect();
    assert!(labels.contains(&"mypy cache"));
    assert!(labels.contains(&"pytest cache"));
}

#[test]
fn nothing_is_offered_on_a_machine_without_python() {
    let home = TestHome::new();
    assert!(home.discover(&PythonCaches).is_empty());
    assert!(home.discover(&PythonProjects).is_empty());
}
