//! Python: package caches, virtualenvs and tool caches.
use vstd::prelude::*;
use vstd::string::*;
use crate::model::{
    Candidate, CandidateBuilder, CandidateModel, Group, ProjectModel, ProjectRoot, Regen,
    RegenModel, Tier, Warning,
};
use crate::path::{join, join_path};
use crate::pipeline::{Provider, ScanContext, discover};
use crate::providers::AnyProvider;
use crate::providers::support::{
    ProjectOffers, addition, any_file, any_file_exists, artifact, artifacts_in_projects, auto_on,
    automatic, cache, caution, download, given, global_cache, hardlink_store_warning,
    hardlink_warning, info, nothing, offer, offers_in_all, project_artifact, rebuild, redownload,
    start,
};
use crate::text::views;

verus! {

pub struct PythonCaches;

/// A cache of packages from PyPI.
pub open spec fn pypi_offer(
    ctx: &ScanContext,
    id: Seq<char>,
    label: Seq<char>,
    path: Seq<char>,
) -> Seq<CandidateModel> {
    given(
        ctx.disk@.present(path),
        cache(id, Group::Python, label, path).returning(download("PyPI"@)),
    )
}

fn pypi(ctx: &ScanContext, id: &str, label: &str, path: &str) -> (found: Option<Candidate>)
    ensures
        addition(found) == pypi_offer(ctx, id@, label@, path@),
{
    match global_cache(ctx, id, Group::Python, label, path) {
        Some(c) => Some(c.regen(redownload("PyPI")).build()),
        None => None,
    }
}

/// Extracted conda packages, hardlinked into each environment like the pnpm store.
pub open spec fn conda_offer(ctx: &ScanContext, name: Seq<char>) -> Seq<CandidateModel> {
    let path = join(join(ctx.paths@.home, name), "pkgs"@);
    given(
        ctx.disk@.present(path),
        cache("python.conda-pkgs"@, Group::Python, name + " package cache"@, path).detailed(
            "Extracted conda packages, hardlinked into each environment."@,
        ).tiered(Tier::Review).returning(download("the conda channels"@)).with_warning(
            hardlink_warning("conda environment"@),
        ),
    )
}

fn conda(ctx: &ScanContext, name: &str) -> (found: Option<Candidate>)
    ensures
        addition(found) == conda_offer(ctx, name@),
{
    let path = join_path(ctx.paths.home_join(name).as_str(), "pkgs");
    if ctx.disk.has(path.as_str()) {
        let label = name.to_owned().concat(" package cache");
        Some(
            CandidateBuilder::new("python.conda-pkgs", Group::Python, label.as_str()).path(
                path.as_str(),
            ).detail("Extracted conda packages, hardlinked into each environment.").tier(
                Tier::Review,
            ).regen(redownload("the conda channels")).warn(
                hardlink_store_warning("conda environment"),
            ).build(),
        )
    } else {
        None
    }
}

/// Poetry keeps the environments of projects here rather than in the projects.
pub open spec fn poetry_venvs_offer(ctx: &ScanContext) -> Seq<CandidateModel> {
    let path = join(ctx.paths@.cache_dir, "pypoetry/virtualenvs"@);
    given(ctx.disk@.present(path), cache("python.poetry-venvs"@, Group::Python, "Poetry virtualenvs"@, path)
        .detailed("Poetry keeps per-project environments here rather than in the project."@)
        .tiered(Tier::Review)
        .returning(rebuild(3))
        .with_warning(info("Recreated by `poetry install` in the affected project."@)))
}

fn poetry_venvs(ctx: &ScanContext) -> (found: Option<Candidate>)
    ensures
        addition(found) == poetry_venvs_offer(ctx),
{
    let path = join_path(ctx.paths.cache_dir().as_str(), "pypoetry/virtualenvs");
    match global_cache(
        ctx,
        "python.poetry-venvs",
        Group::Python,
        "Poetry virtualenvs",
        path.as_str(),
    ) {
        Some(c) => Some(c
            .detail("Poetry keeps per-project environments here rather than in the project.")
            .tier(Tier::Review)
            .regen(Regen::Rebuild { minutes: 3 })
            .warn(Warning::info("Recreated by `poetry install` in the affected project.")).build()),
        None => None,
    }
}

impl Provider for PythonCaches {
    open spec fn name(&self) -> Seq<char> {
        "python.caches"@
    }

    open spec fn marks(&self) -> Seq<Seq<char>> {
        Seq::empty()
    }

    open spec fn offers(&self, ctx: &ScanContext) -> Seq<CandidateModel> {
        nothing()
            + pypi_offer(
                ctx,
                "python.pip-cache"@,
                "pip download cache"@,
                join(ctx.paths@.cache_dir, "pip"@),
            )
            + pypi_offer(ctx, "python.uv-cache"@, "uv cache"@, join(ctx.paths@.cache_dir, "uv"@))
            + pypi_offer(
                ctx,
                "python.poetry-cache"@,
                "Poetry cache"@,
                join(ctx.paths@.cache_dir, "pypoetry"@),
            )
            + pypi_offer(
                ctx,
                "python.pipenv-cache"@,
                "Pipenv cache"@,
                join(ctx.paths@.cache_dir, "pipenv"@),
            )
            + pypi_offer(
                ctx,
                "python.pre-commit"@,
                "pre-commit hook environments"@,
                join(ctx.paths@.cache_dir, "pre-commit"@),
            )
            + pypi_offer(
                ctx,
                "python.pip-cache"@,
                "pip download cache"@,
                join(ctx.paths@.home, ".cache/pip"@),
            )
            + conda_offer(ctx, "miniconda3"@)
            + conda_offer(ctx, "anaconda3"@)
            + conda_offer(ctx, "miniforge3"@)
            + conda_offer(ctx, "mambaforge"@)
            + poetry_venvs_offer(ctx)
    }

    fn id(&self) -> (s: &'static str) {
        "python.caches"
    }

    fn markers(&self) -> (v: Vec<&'static str>) {
        let v: Vec<&'static str> = Vec::new();
        assert(views(v@) =~= Seq::empty());
        v
    }

    fn discover(&self, ctx: &ScanContext) -> (out: Vec<Candidate>) {
        let mut out = start();
        offer(
            &mut out,
            pypi(
                ctx,
                "python.pip-cache",
                "pip download cache",
                join_path(ctx.paths.cache_dir().as_str(), "pip").as_str(),
            ),
        );
        offer(
            &mut out,
            pypi(
                ctx,
                "python.uv-cache",
                "uv cache",
                join_path(ctx.paths.cache_dir().as_str(), "uv").as_str(),
            ),
        );
        offer(
            &mut out,
            pypi(
                ctx,
                "python.poetry-cache",
                "Poetry cache",
                join_path(ctx.paths.cache_dir().as_str(), "pypoetry").as_str(),
            ),
        );
        offer(
            &mut out,
            pypi(
                ctx,
                "python.pipenv-cache",
                "Pipenv cache",
                join_path(ctx.paths.cache_dir().as_str(), "pipenv").as_str(),
            ),
        );
        offer(
            &mut out,
            pypi(
                ctx,
                "python.pre-commit",
                "pre-commit hook environments",
                join_path(ctx.paths.cache_dir().as_str(), "pre-commit").as_str(),
            ),
        );
        offer(
            &mut out,
            pypi(
                ctx,
                "python.pip-cache",
                "pip download cache",
                ctx.paths.home_join(".cache/pip").as_str(),
            ),
        );
        offer(&mut out, conda(ctx, "miniconda3"));
        offer(&mut out, conda(ctx, "anaconda3"));
        offer(&mut out, conda(ctx, "miniforge3"));
        offer(&mut out, conda(ctx, "mambaforge"));
        offer(&mut out, poetry_venvs(ctx));
        out
    }
}

/// Files that mark a Python project.
pub open spec fn python_markers() -> Seq<Seq<char>> {
    seq!["pyproject.toml"@, "requirements.txt"@, "Pipfile"@, "setup.py"@, "environment.yml"@]
}

/// Files from which a virtualenv can be faithfully rebuilt.
pub open spec fn dependency_specs() -> Seq<Seq<char>> {
    seq![
        "requirements.txt"@,
        "pyproject.toml"@,
        "Pipfile.lock"@,
        "poetry.lock"@,
        "uv.lock"@,
        "environment.yml"@,
        "setup.py"@,
    ]
}

pub struct PythonProjects;

/// A virtualenv of a project. A directory of that name is one only where it holds the marker
/// file, and can be rebuilt only where the project records its dependencies.
pub open spec fn venv_offer(
    ctx: &ScanContext,
    at: Seq<char>,
    name: Seq<char>,
    reproducible: bool,
) -> Seq<CandidateModel> {
    let path = join(at, name);
    given(
        ctx.disk@.is_dir(path) && ctx.disk@.present(join(path, "pyvenv.cfg"@)),
        artifact("python.venv"@, Group::Python, "virtualenv"@, at, path).detailed(
            "`"@ + name + "` in this project."@,
        ).tiered(
            if reproducible {
                Tier::Review
            } else {
                Tier::Caution
            },
        ).returning(
            if reproducible {
                rebuild(2)
            } else {
                RegenModel::Never
            },
        ).warned_if(
            !reproducible,
            caution(
                "No requirements.txt, pyproject.toml or lockfile in this project, so the installed packages are not recorded anywhere else."@,
            ),
        ),
    )
}

fn venv(ctx: &ScanContext, at: &str, name: &str, reproducible: bool) -> (found: Option<Candidate>)
    ensures
        addition(found) == venv_offer(ctx, at@, name@, reproducible),
{
    let path = join_path(at, name);
    match project_artifact(ctx, "python.venv", Group::Python, "virtualenv", at, path.as_str()) {
        Some(c) => {
            if !ctx.disk.has(join_path(path.as_str(), "pyvenv.cfg").as_str()) {
                return None;
            }
            Some(
                c.detail("`".to_owned().concat(name).concat("` in this project.").as_str()).tier(
                    if reproducible {
                        Tier::Review
                    } else {
                        Tier::Caution
                    },
                ).regen(
                    if reproducible {
                        Regen::Rebuild { minutes: 2 }
                    } else {
                        Regen::Never
                    },
                ).warn_if(
                    !reproducible,
                    Warning::caution(
                        "No requirements.txt, pyproject.toml or lockfile in this project, so the installed packages are not recorded anywhere else.",
                    ),
                ).build(),
            )
        },
        None => None,
    }
}

/// A cache of one of the project's tools.
pub open spec fn tool_cache_offer(
    ctx: &ScanContext,
    at: Seq<char>,
    dir: Seq<char>,
    label: Seq<char>,
) -> Seq<CandidateModel> {
    let path = join(at, dir);
    given(
        ctx.disk@.is_dir(path),
        artifact(
            "python.tool-cache"@,
            Group::Python,
            label,
            at,
            path,
        ).returning(auto_on("the next run"@)),
    )
}

fn tool_cache(ctx: &ScanContext, at: &str, dir: &str, label: &str) -> (found: Option<Candidate>)
    ensures
        addition(found) == tool_cache_offer(ctx, at@, dir@, label@),
{
    let path = join_path(at, dir);
    match project_artifact(ctx, "python.tool-cache", Group::Python, label, at, path.as_str()) {
        Some(c) => Some(c.regen(automatic("the next run")).build()),
        None => None,
    }
}

impl ProjectOffers for PythonProjects {
    open spec fn offers_in(&self, ctx: &ScanContext, project: ProjectModel) -> Seq<CandidateModel> {
        let at = project.path;
        let reproducible = any_file(ctx.disk@, at, dependency_specs());
        nothing()
            + venv_offer(ctx, at, ".venv"@, reproducible)
            + venv_offer(ctx, at, "venv"@, reproducible)
            + venv_offer(ctx, at, "env"@, reproducible)
            + venv_offer(ctx, at, ".virtualenv"@, reproducible)
            + tool_cache_offer(ctx, at, ".tox"@, "tox environments"@)
            + tool_cache_offer(ctx, at, ".nox"@, "nox environments"@)
            + tool_cache_offer(ctx, at, ".mypy_cache"@, "mypy cache"@)
            + tool_cache_offer(ctx, at, ".pytest_cache"@, "pytest cache"@)
            + tool_cache_offer(ctx, at, ".ruff_cache"@, "Ruff cache"@)
            + tool_cache_offer(ctx, at, ".coverage_cache"@, "coverage cache"@)
            + tool_cache_offer(ctx, at, "__pycache__"@, "bytecode cache"@)
            + tool_cache_offer(ctx, at, ".ipynb_checkpoints"@, "notebook checkpoints"@)
    }

    fn build(&self, ctx: &ScanContext, project: &ProjectRoot) -> (out: Vec<Candidate>) {
        let at = project.path.as_str();
        let specs = [
            "requirements.txt",
            "pyproject.toml",
            "Pipfile.lock",
            "poetry.lock",
            "uv.lock",
            "environment.yml",
            "setup.py",
        ];
        assert(views(specs@) =~= dependency_specs());
        let reproducible = any_file_exists(ctx, at, &specs);
        let mut out = start();
        offer(&mut out, venv(ctx, at, ".venv", reproducible));
        offer(&mut out, venv(ctx, at, "venv", reproducible));
        offer(&mut out, venv(ctx, at, "env", reproducible));
        offer(&mut out, venv(ctx, at, ".virtualenv", reproducible));
        offer(&mut out, tool_cache(ctx, at, ".tox", "tox environments"));
        offer(&mut out, tool_cache(ctx, at, ".nox", "nox environments"));
        offer(&mut out, tool_cache(ctx, at, ".mypy_cache", "mypy cache"));
        offer(&mut out, tool_cache(ctx, at, ".pytest_cache", "pytest cache"));
        offer(&mut out, tool_cache(ctx, at, ".ruff_cache", "Ruff cache"));
        offer(&mut out, tool_cache(ctx, at, ".coverage_cache", "coverage cache"));
        offer(&mut out, tool_cache(ctx, at, "__pycache__", "bytecode cache"));
        offer(&mut out, tool_cache(ctx, at, ".ipynb_checkpoints", "notebook checkpoints"));
        out
    }
}

impl Provider for PythonProjects {
    open spec fn name(&self) -> Seq<char> {
        "python.projects"@
    }

    open spec fn marks(&self) -> Seq<Seq<char>> {
        seq!["pyproject.toml"@, "requirements.txt"@, "Pipfile"@, "setup.py"@, "environment.yml"@]
    }

    open spec fn offers(&self, ctx: &ScanContext) -> Seq<CandidateModel> {
        offers_in_all(self, ctx, ctx.marked(python_markers()))
    }

    fn id(&self) -> (s: &'static str) {
        "python.projects"
    }

    fn markers(&self) -> (v: Vec<&'static str>) {
        let v = vec![
            "pyproject.toml",
            "requirements.txt",
            "Pipfile",
            "setup.py",
            "environment.yml",
        ];
        assert(
            views(v@) =~= seq![
                "pyproject.toml"@,
                "requirements.txt"@,
                "Pipfile"@,
                "setup.py"@,
                "environment.yml"@,
            ]
        );
        v
    }

    fn discover(&self, ctx: &ScanContext) -> (out: Vec<Candidate>) {
        let markers = [
            "pyproject.toml",
            "requirements.txt",
            "Pipfile",
            "setup.py",
            "environment.yml",
        ];
        assert(views(markers@) =~= python_markers());
        artifacts_in_projects(ctx, &markers, self)
    }
}

/// The providers of this module.
pub fn providers() -> (v: Vec<AnyProvider>)
    ensures
        v@ == seq![
            AnyProvider::PythonCaches(PythonCaches),
            AnyProvider::PythonProjects(PythonProjects),
        ],
{
    let v = vec![
        AnyProvider::PythonCaches(PythonCaches),
        AnyProvider::PythonProjects(PythonProjects),
    ];
    assert(
        v@ =~= seq![
            AnyProvider::PythonCaches(PythonCaches),
            AnyProvider::PythonProjects(PythonProjects),
        ]
    );
    v
}

} // verus!
