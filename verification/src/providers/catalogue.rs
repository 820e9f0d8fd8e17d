//! What each ecosystem offers, as lists of places: where each of them is, when it counts as
//! there, which tier it is in, whether it is lost for good, and what removes it.
use vstd::prelude::*;
use vstd::string::*;
use crate::disk::DiskModel;
use crate::discovery::a_provider_sees_every_project_it_knows;
use crate::model::{ActionModel, CandidateModel, ProjectModel, Tier};
use crate::path::{extension, join};
use crate::pipeline::{Provider, ScanContext};
use crate::platform::Os;
use crate::providers::ai_tools::{
    Automatic1111, ComfyUi, LocalAiTools, MachineLearning as LocalModels, SillyTavern,
    all_thumbnails_offer, comfyui_models_offer, in_use_warning, is_running, thumbnails_offer,
    webui_models_offer, weights_offer,
};
use crate::providers::android::{
    AndroidAvds, AndroidSdk, NdkVersion, SystemImage, VirtualDevice, build_cache_offer,
    emulator_tmp_offer, images_offer, ndks_offer,
};
use crate::providers::apple::{
    CocoaPods, DeviceBackup, SimulatorRuntimes, XcodeArtifacts, backups_offer,
};
use crate::providers::containers::{ContainerVms, Docker};
use crate::providers::go::GoCaches;
use crate::providers::jvm::{
    JvmCaches, JvmProjects, MAVEN_SCAN_BUDGET, dirs_below, gradle_markers, local_artifacts,
};
use crate::providers::misc::{
    BuildToolProjects, BuildTools, Dart, DartProjects, DotNet, DotNetProjects, Editors,
    MachineLearning, Php, PhpProjects, Ruby, RubyProjects, System, editor_offer, jetbrains_offer,
};
use crate::providers::node::{NodeCaches, NodeModules, lockfiles};
use crate::providers::python::{PythonCaches, PythonProjects, dependency_specs};
use crate::providers::rust::{RustCaches, RustTargets, Toolchain, toolchains_offer};
use crate::providers::support::{
    ProjectOffers, SubdirOffers, any_file, nothing, offers_in_all, offers_of_all,
};
use crate::text::views;

verus! {

/// A place that a provider knows.
#[verifier::ext_equal]
pub struct Place {
    pub provider: Seq<char>,
    pub path: Seq<char>,
    /// The project that it belongs to, if any.
    pub project: Option<Seq<char>>,
    pub tier: Tier,
    /// Nothing brings it back.
    pub lost: bool,
    pub action: ActionModel,
    /// It is offered.
    pub there: bool,
}

impl Place {
    pub open spec fn lost_if(self, lost: bool) -> Place {
        Place { lost, ..self }
    }

    pub open spec fn only_if(self, condition: bool) -> Place {
        Place { there: self.there && condition, ..self }
    }
}

/// A cache of the whole machine: there where anything stands at its path.
pub open spec fn cached(disk: DiskModel, provider: Seq<char>, path: Seq<char>, tier: Tier) -> Place {
    Place {
        provider,
        path,
        project: None,
        tier,
        lost: false,
        action: ActionModel::RemovePaths,
        there: disk.present(path),
    }
}

/// A directory of the whole machine.
pub open spec fn listed(disk: DiskModel, provider: Seq<char>, path: Seq<char>, tier: Tier) -> Place {
    Place { there: disk.is_dir(path), ..cached(disk, provider, path, tier) }
}

/// A directory of a project.
pub open spec fn produced(
    disk: DiskModel,
    provider: Seq<char>,
    at: Seq<char>,
    dir: Seq<char>,
    tier: Tier,
) -> Place {
    Place { project: Some(at), ..listed(disk, provider, join(at, dir), tier) }
}

/// What a tool removes by itself.
pub open spec fn asked_of(
    provider: Seq<char>,
    path: Seq<char>,
    tier: Tier,
    program: Seq<char>,
    args: Seq<Seq<char>>,
) -> Place {
    Place {
        provider,
        path,
        project: None,
        tier,
        lost: false,
        action: ActionModel::Shell { program, args },
        there: true,
    }
}

/// The place of a candidate, which names one path, or one and its registration.
pub open spec fn outline(c: CandidateModel) -> Place {
    Place {
        provider: c.provider,
        path: c.paths[0],
        project: c.project,
        tier: c.tier,
        lost: c.regen is Never,
        action: c.action,
        there: true,
    }
}

pub open spec fn outlines(cs: Seq<CandidateModel>) -> Seq<Place> {
    cs.map_values(|c: CandidateModel| outline(c))
}

/// No place yet.
pub open spec fn places() -> Seq<Place> {
    Seq::empty()
}

/// Of the places, those that are there.
pub open spec fn those_there(places: Seq<Place>) -> Seq<Place> {
    places.filter(|p: Place| p.there)
}

#[verifier::opaque]
spec fn agree(cs: Seq<CandidateModel>, ps: Seq<Place>) -> bool {
    outlines(cs) == those_there(ps)
}

spec fn fits(cs: Seq<CandidateModel>, p: Place) -> bool {
    if p.there {
        cs.len() == 1 && outline(cs[0]) == p
    } else {
        cs.len() == 0
    }
}

broadcast proof fn lemma_agree_none()
    ensures
        #[trigger] agree(nothing(), places()),
{
    reveal(agree);
    reveal(Seq::filter);
    assert(outlines(nothing()) =~= those_there(places()));
}

broadcast proof fn lemma_agree_more(
    a: Seq<CandidateModel>,
    b: Seq<CandidateModel>,
    ps: Seq<Place>,
    p: Place,
)
    requires
        agree(a, ps),
        fits(b, p),
    ensures
        #[trigger] agree(a + b, ps.push(p)),
{
    reveal(agree);
    reveal(Seq::filter);
    assert(ps.push(p).drop_last() =~= ps);
    if p.there {
        assert(outlines(a + b) =~= outlines(a).push(outline(b[0])));
    } else {
        assert(a + b =~= a);
    }
}

broadcast proof fn lemma_agreed(cs: Seq<CandidateModel>, ps: Seq<Place>)
    requires
        agree(cs, ps),
    ensures
        #![trigger outlines(cs), those_there(ps)]
        outlines(cs) == those_there(ps),
{
    reveal(agree);
}

broadcast proof fn lemma_agree_absent(cs: Seq<CandidateModel>, ps: Seq<Place>, p: Place)
    requires
        agree(cs, ps),
        !p.there,
    ensures
        #[trigger] agree(cs, ps.push(p)),
{
    reveal(agree);
    reveal(Seq::filter);
    assert(ps.push(p).drop_last() =~= ps);
}

broadcast proof fn lemma_outlines_sum(a: Seq<CandidateModel>, b: Seq<CandidateModel>)
    ensures
        #[trigger] outlines(a + b) == outlines(a) + outlines(b),
{
    assert(outlines(a + b) =~= outlines(a) + outlines(b));
}

/// The caches of the Node package managers and of the browsers that they fetch. A store that is
/// shared with every installation is offered only where it is not to be kept.
#[verifier::rlimit(40)]
pub proof fn these_node_caches_are_offered(ctx: &ScanContext)
    ensures
        ({
            let disk = ctx.disk@;
            let home = ctx.paths@.home;
            let dir = ctx.paths@.cache_dir;
            let keep = ctx.config.providers.node.keep_pnpm_store;
            outlines(NodeCaches.offers(ctx)) == those_there(
                places()
                    .push(cached(disk, "node.npm-cache"@, join(home, ".npm"@), Tier::Safe))
                    .push(
                        cached(
                            disk,
                            "node.pnpm-store"@,
                            join(home, "Library/pnpm/store"@),
                            Tier::Review,
                        )
                            .only_if(!keep),
                    )
                    .push(
                        cached(disk, "node.pnpm-store"@, join(home, ".pnpm-store"@), Tier::Review)
                            .only_if(!keep),
                    )
                    .push(
                        cached(
                            disk,
                            "node.pnpm-store"@,
                            join(home, ".local/share/pnpm/store"@),
                            Tier::Review,
                        )
                            .only_if(!keep),
                    )
                    .push(cached(disk, "node.yarn-cache"@, join(dir, "Yarn"@), Tier::Safe))
                    .push(
                        cached(
                            disk,
                            "node.yarn-cache"@,
                            join(home, ".yarn/berry/cache"@),
                            Tier::Safe,
                        ),
                    )
                    .push(cached(disk, "node.yarn-cache"@, join(home, ".cache/yarn"@), Tier::Safe))
                    .push(
                        cached(
                            disk,
                            "node.bun-cache"@,
                            join(home, ".bun/install/cache"@),
                            Tier::Safe,
                        ),
                    )
                    .push(cached(disk, "node.node-gyp"@, join(home, ".node-gyp"@), Tier::Safe))
                    .push(
                        cached(disk, "node.playwright"@, join(dir, "ms-playwright"@), Tier::Review),
                    )
                    .push(cached(disk, "node.puppeteer"@, join(dir, "puppeteer"@), Tier::Review))
                    .push(cached(disk, "node.cypress"@, join(dir, "Cypress"@), Tier::Review))
                    .push(cached(disk, "node.electron"@, join(dir, "electron"@), Tier::Review)),
            )
        }),
{
    broadcast use {lemma_agree_none, lemma_agree_more, lemma_agree_absent};
    let disk = ctx.disk@;
    let home = ctx.paths@.home;
    let dir = ctx.paths@.cache_dir;
    let keep = ctx.config.providers.node.keep_pnpm_store;
    let ps = places()
        .push(cached(disk, "node.npm-cache"@, join(home, ".npm"@), Tier::Safe))
        .push(
            cached(disk, "node.pnpm-store"@, join(home, "Library/pnpm/store"@), Tier::Review)
                .only_if(!keep),
        )
        .push(
            cached(disk, "node.pnpm-store"@, join(home, ".pnpm-store"@), Tier::Review)
                .only_if(!keep),
        )
        .push(
            cached(disk, "node.pnpm-store"@, join(home, ".local/share/pnpm/store"@), Tier::Review)
                .only_if(!keep),
        )
        .push(cached(disk, "node.yarn-cache"@, join(dir, "Yarn"@), Tier::Safe))
        .push(cached(disk, "node.yarn-cache"@, join(home, ".yarn/berry/cache"@), Tier::Safe))
        .push(cached(disk, "node.yarn-cache"@, join(home, ".cache/yarn"@), Tier::Safe))
        .push(cached(disk, "node.bun-cache"@, join(home, ".bun/install/cache"@), Tier::Safe))
        .push(cached(disk, "node.node-gyp"@, join(home, ".node-gyp"@), Tier::Safe))
        .push(cached(disk, "node.playwright"@, join(dir, "ms-playwright"@), Tier::Review))
        .push(cached(disk, "node.puppeteer"@, join(dir, "puppeteer"@), Tier::Review))
        .push(cached(disk, "node.cypress"@, join(dir, "Cypress"@), Tier::Review))
        .push(cached(disk, "node.electron"@, join(dir, "electron"@), Tier::Review));
    assert(agree(NodeCaches.offers(ctx), ps));
    lemma_agreed(NodeCaches.offers(ctx), ps);
}

/// Installed packages can be had again only where a lockfile pins them.
#[verifier::rlimit(40)]
pub proof fn a_node_project_has_these_artifacts(ctx: &ScanContext, project: ProjectModel)
    ensures
        ({
            let disk = ctx.disk@;
            let at = project.path;
            let locked = disk.is_file(join(at, "package-lock.json"@))
                || disk.is_file(join(at, "yarn.lock"@))
                || disk.is_file(join(at, "pnpm-lock.yaml"@))
                || disk.is_file(join(at, "bun.lockb"@))
                || disk.is_file(join(at, "bun.lock"@))
                || disk.is_file(join(at, "npm-shrinkwrap.json"@));
            outlines(NodeModules.offers_in(ctx, project)) == those_there(
                places()
                    .push(
                        produced(
                            disk,
                            "node.modules"@,
                            at,
                            "node_modules"@,
                            if locked { Tier::Safe } else { Tier::Caution },
                        )
                            .lost_if(!locked),
                    )
                    .push(produced(disk, "node.build-output"@, at, ".next"@, Tier::Safe))
                    .push(produced(disk, "node.build-output"@, at, ".nuxt"@, Tier::Safe))
                    .push(produced(disk, "node.build-output"@, at, ".turbo"@, Tier::Safe))
                    .push(produced(disk, "node.build-output"@, at, ".parcel-cache"@, Tier::Safe))
                    .push(produced(disk, "node.build-output"@, at, ".svelte-kit"@, Tier::Safe))
                    .push(produced(disk, "node.build-output"@, at, ".angular"@, Tier::Safe)),
            )
        }),
{
    broadcast use {lemma_agree_none, lemma_agree_more, lemma_agree_absent, lemma_agreed};
    let names = lockfiles();
    assert(names[0] == "package-lock.json"@);
    assert(names[1] == "yarn.lock"@);
    assert(names[2] == "pnpm-lock.yaml"@);
    assert(names[3] == "bun.lockb"@);
    assert(names[4] == "bun.lock"@);
    assert(names[5] == "npm-shrinkwrap.json"@);
}

/// The caches of the Python package managers.
#[verifier::rlimit(40)]
pub proof fn these_python_caches_are_offered(ctx: &ScanContext)
    ensures
        ({
            let disk = ctx.disk@;
            let home = ctx.paths@.home;
            let dir = ctx.paths@.cache_dir;
            outlines(PythonCaches.offers(ctx)) == those_there(
                places()
                    .push(cached(disk, "python.pip-cache"@, join(dir, "pip"@), Tier::Safe))
                    .push(cached(disk, "python.uv-cache"@, join(dir, "uv"@), Tier::Safe))
                    .push(cached(disk, "python.poetry-cache"@, join(dir, "pypoetry"@), Tier::Safe))
                    .push(cached(disk, "python.pipenv-cache"@, join(dir, "pipenv"@), Tier::Safe))
                    .push(cached(disk, "python.pre-commit"@, join(dir, "pre-commit"@), Tier::Safe))
                    .push(cached(disk, "python.pip-cache"@, join(home, ".cache/pip"@), Tier::Safe))
                    .push(
                        cached(
                            disk,
                            "python.conda-pkgs"@,
                            join(join(home, "miniconda3"@), "pkgs"@),
                            Tier::Review,
                        ),
                    )
                    .push(
                        cached(
                            disk,
                            "python.conda-pkgs"@,
                            join(join(home, "anaconda3"@), "pkgs"@),
                            Tier::Review,
                        ),
                    )
                    .push(
                        cached(
                            disk,
                            "python.conda-pkgs"@,
                            join(join(home, "miniforge3"@), "pkgs"@),
                            Tier::Review,
                        ),
                    )
                    .push(
                        cached(
                            disk,
                            "python.conda-pkgs"@,
                            join(join(home, "mambaforge"@), "pkgs"@),
                            Tier::Review,
                        ),
                    )
                    .push(
                        cached(
                            disk,
                            "python.poetry-venvs"@,
                            join(dir, "pypoetry/virtualenvs"@),
                            Tier::Review,
                        ),
                    ),
            )
        }),
{
    broadcast use {lemma_agree_none, lemma_agree_more, lemma_agree_absent};
    let disk = ctx.disk@;
    let home = ctx.paths@.home;
    let dir = ctx.paths@.cache_dir;
    let ps = places()
        .push(cached(disk, "python.pip-cache"@, join(dir, "pip"@), Tier::Safe))
        .push(cached(disk, "python.uv-cache"@, join(dir, "uv"@), Tier::Safe))
        .push(cached(disk, "python.poetry-cache"@, join(dir, "pypoetry"@), Tier::Safe))
        .push(cached(disk, "python.pipenv-cache"@, join(dir, "pipenv"@), Tier::Safe))
        .push(cached(disk, "python.pre-commit"@, join(dir, "pre-commit"@), Tier::Safe))
        .push(cached(disk, "python.pip-cache"@, join(home, ".cache/pip"@), Tier::Safe))
        .push(
            cached(
                disk,
                "python.conda-pkgs"@,
                join(join(home, "miniconda3"@), "pkgs"@),
                Tier::Review,
            ),
        )
        .push(
            cached(
                disk,
                "python.conda-pkgs"@,
                join(join(home, "anaconda3"@), "pkgs"@),
                Tier::Review,
            ),
        )
        .push(
            cached(
                disk,
                "python.conda-pkgs"@,
                join(join(home, "miniforge3"@), "pkgs"@),
                Tier::Review,
            ),
        )
        .push(
            cached(
                disk,
                "python.conda-pkgs"@,
                join(join(home, "mambaforge"@), "pkgs"@),
                Tier::Review,
            ),
        )
        .push(
            cached(disk, "python.poetry-venvs"@, join(dir, "pypoetry/virtualenvs"@), Tier::Review),
        );
    assert(agree(PythonCaches.offers(ctx), ps));
    lemma_agreed(PythonCaches.offers(ctx), ps);
}

/// An environment is known by its marker, and can be had again only where the project says what
/// was installed.
#[verifier::rlimit(40)]
pub proof fn a_python_project_has_these_artifacts(ctx: &ScanContext, project: ProjectModel)
    ensures
        ({
            let disk = ctx.disk@;
            let at = project.path;
            let recorded = disk.is_file(join(at, "requirements.txt"@))
                || disk.is_file(join(at, "pyproject.toml"@))
                || disk.is_file(join(at, "Pipfile.lock"@))
                || disk.is_file(join(at, "poetry.lock"@))
                || disk.is_file(join(at, "uv.lock"@))
                || disk.is_file(join(at, "environment.yml"@))
                || disk.is_file(join(at, "setup.py"@));
            outlines(PythonProjects.offers_in(ctx, project)) == those_there(
                places()
                    .push(
                        produced(
                            disk,
                            "python.venv"@,
                            at,
                            ".venv"@,
                            if recorded { Tier::Review } else { Tier::Caution },
                        )
                            .lost_if(!recorded)
                            .only_if(disk.present(join(join(at, ".venv"@), "pyvenv.cfg"@))),
                    )
                    .push(
                        produced(
                            disk,
                            "python.venv"@,
                            at,
                            "venv"@,
                            if recorded { Tier::Review } else { Tier::Caution },
                        )
                            .lost_if(!recorded)
                            .only_if(disk.present(join(join(at, "venv"@), "pyvenv.cfg"@))),
                    )
                    .push(
                        produced(
                            disk,
                            "python.venv"@,
                            at,
                            "env"@,
                            if recorded { Tier::Review } else { Tier::Caution },
                        )
                            .lost_if(!recorded)
                            .only_if(disk.present(join(join(at, "env"@), "pyvenv.cfg"@))),
                    )
                    .push(
                        produced(
                            disk,
                            "python.venv"@,
                            at,
                            ".virtualenv"@,
                            if recorded { Tier::Review } else { Tier::Caution },
                        )
                            .lost_if(!recorded)
                            .only_if(disk.present(join(join(at, ".virtualenv"@), "pyvenv.cfg"@))),
                    )
                    .push(produced(disk, "python.tool-cache"@, at, ".tox"@, Tier::Safe))
                    .push(produced(disk, "python.tool-cache"@, at, ".nox"@, Tier::Safe))
                    .push(produced(disk, "python.tool-cache"@, at, ".mypy_cache"@, Tier::Safe))
                    .push(produced(disk, "python.tool-cache"@, at, ".pytest_cache"@, Tier::Safe))
                    .push(produced(disk, "python.tool-cache"@, at, ".ruff_cache"@, Tier::Safe))
                    .push(produced(disk, "python.tool-cache"@, at, ".coverage_cache"@, Tier::Safe))
                    .push(produced(disk, "python.tool-cache"@, at, "__pycache__"@, Tier::Safe))
                    .push(
                        produced(disk, "python.tool-cache"@, at, ".ipynb_checkpoints"@, Tier::Safe),
                    ),
            )
        }),
{
    broadcast use {lemma_agree_none, lemma_agree_more, lemma_agree_absent};
    let names = dependency_specs();
    assert(names[0] == "requirements.txt"@);
    assert(names[1] == "pyproject.toml"@);
    assert(names[2] == "Pipfile.lock"@);
    assert(names[3] == "poetry.lock"@);
    assert(names[4] == "uv.lock"@);
    assert(names[5] == "environment.yml"@);
    assert(names[6] == "setup.py"@);
    assert(any_file(ctx.disk@, project.path, names) == (ctx.disk@.is_file(join(project.path, "requirements.txt"@))
        || ctx.disk@.is_file(join(project.path, "pyproject.toml"@))
        || ctx.disk@.is_file(join(project.path, "Pipfile.lock"@))
        || ctx.disk@.is_file(join(project.path, "poetry.lock"@))
        || ctx.disk@.is_file(join(project.path, "uv.lock"@))
        || ctx.disk@.is_file(join(project.path, "environment.yml"@))
        || ctx.disk@.is_file(join(project.path, "setup.py"@))));
    let disk = ctx.disk@;
    let at = project.path;
    let recorded = disk.is_file(join(at, "requirements.txt"@))
        || disk.is_file(join(at, "pyproject.toml"@))
        || disk.is_file(join(at, "Pipfile.lock"@))
        || disk.is_file(join(at, "poetry.lock"@))
        || disk.is_file(join(at, "uv.lock"@))
        || disk.is_file(join(at, "environment.yml"@))
        || disk.is_file(join(at, "setup.py"@));
    let ps = places()
        .push(
            produced(
                disk,
                "python.venv"@,
                at,
                ".venv"@,
                if recorded { Tier::Review } else { Tier::Caution },
            )
                .lost_if(!recorded)
                .only_if(disk.present(join(join(at, ".venv"@), "pyvenv.cfg"@))),
        )
        .push(
            produced(
                disk,
                "python.venv"@,
                at,
                "venv"@,
                if recorded { Tier::Review } else { Tier::Caution },
            )
                .lost_if(!recorded)
                .only_if(disk.present(join(join(at, "venv"@), "pyvenv.cfg"@))),
        )
        .push(
            produced(
                disk,
                "python.venv"@,
                at,
                "env"@,
                if recorded { Tier::Review } else { Tier::Caution },
            )
                .lost_if(!recorded)
                .only_if(disk.present(join(join(at, "env"@), "pyvenv.cfg"@))),
        )
        .push(
            produced(
                disk,
                "python.venv"@,
                at,
                ".virtualenv"@,
                if recorded { Tier::Review } else { Tier::Caution },
            )
                .lost_if(!recorded)
                .only_if(disk.present(join(join(at, ".virtualenv"@), "pyvenv.cfg"@))),
        )
        .push(produced(disk, "python.tool-cache"@, at, ".tox"@, Tier::Safe))
        .push(produced(disk, "python.tool-cache"@, at, ".nox"@, Tier::Safe))
        .push(produced(disk, "python.tool-cache"@, at, ".mypy_cache"@, Tier::Safe))
        .push(produced(disk, "python.tool-cache"@, at, ".pytest_cache"@, Tier::Safe))
        .push(produced(disk, "python.tool-cache"@, at, ".ruff_cache"@, Tier::Safe))
        .push(produced(disk, "python.tool-cache"@, at, ".coverage_cache"@, Tier::Safe))
        .push(produced(disk, "python.tool-cache"@, at, "__pycache__"@, Tier::Safe))
        .push(produced(disk, "python.tool-cache"@, at, ".ipynb_checkpoints"@, Tier::Safe));
    assert(agree(PythonProjects.offers_in(ctx, project), ps));
    lemma_agreed(PythonProjects.offers_in(ctx, project), ps);
}

/// What cargo and rustup download, and behind it the toolchains.
#[verifier::rlimit(40)]
pub proof fn these_cargo_caches_are_offered(ctx: &ScanContext)
    ensures
        ({
            let disk = ctx.disk@;
            let home = ctx.paths@.home;
            let dir = ctx.paths@.cache_dir;
            let cargo = ctx.paths@.cargo_home;
            outlines(RustCaches.offers(ctx)) == those_there(
                places()
                    .push(
                        cached(disk, "rust.registry-src"@, join(cargo, "registry/src"@), Tier::Safe),
                    )
                    .push(
                        cached(
                            disk,
                            "rust.registry-cache"@,
                            join(cargo, "registry/cache"@),
                            Tier::Review,
                        ),
                    )
                    .push(cached(disk, "rust.git-checkouts"@, join(cargo, "git"@), Tier::Review))
                    .push(cached(disk, "rust.sccache"@, join(dir, "sccache"@), Tier::Safe))
                    .push(
                        cached(
                            disk,
                            "rust.rustup-downloads"@,
                            join(home, ".rustup/downloads"@),
                            Tier::Safe,
                        ),
                    )
                    .push(cached(disk, "rust.rustup-tmp"@, join(home, ".rustup/tmp"@), Tier::Safe)),
            ) + outlines(toolchains_offer(ctx))
        }),
{
    broadcast use {
        lemma_agree_none,
        lemma_agree_more,
        lemma_agree_absent,
        lemma_agreed,
        lemma_outlines_sum,
    };
}

/// The build output of a Rust project.
pub proof fn a_cargo_project_has_a_target(ctx: &ScanContext, project: ProjectModel)
    ensures
        ({
            let disk = ctx.disk@;
            let at = project.path;
            outlines(RustTargets.offers_in(ctx, project)) == those_there(
                places()
                    .push(produced(disk, "rust.target"@, at, "target"@, Tier::Safe)),
            )
        }),
{
    broadcast use {lemma_agree_none, lemma_agree_more, lemma_agree_absent, lemma_agreed};
}

/// The caches of the JVM build tools. The local repository is lost where it holds an artifact
/// that came from this machine.
#[verifier::rlimit(40)]
pub proof fn these_jvm_caches_are_offered(ctx: &ScanContext)
    ensures
        ({
            let disk = ctx.disk@;
            let home = ctx.paths@.home;
            let dir = ctx.paths@.cache_dir;
            let local = local_artifacts(
                dirs_below(Seq::empty(), disk.maven, 0),
                MAVEN_SCAN_BUDGET as nat,
            ).found > 0;
            outlines(JvmCaches.offers(ctx)) == those_there(
                places()
                    .push(
                        cached(
                            disk,
                            "jvm.gradle-caches"@,
                            join(home, ".gradle/caches"@),
                            Tier::Safe,
                        ),
                    )
                    .push(
                        cached(
                            disk,
                            "jvm.gradle-daemon"@,
                            join(home, ".gradle/daemon"@),
                            Tier::Safe,
                        ),
                    )
                    .push(
                        cached(
                            disk,
                            "jvm.gradle-native"@,
                            join(home, ".gradle/native"@),
                            Tier::Safe,
                        ),
                    )
                    .push(
                        cached(
                            disk,
                            "jvm.gradle-wrapper"@,
                            join(home, ".gradle/wrapper/dists"@),
                            Tier::Safe,
                        ),
                    )
                    .push(
                        listed(
                            disk,
                            "jvm.maven-repo"@,
                            join(home, ".m2/repository"@),
                            if local { Tier::Caution } else { Tier::Review },
                        )
                            .lost_if(local),
                    )
                    .push(cached(disk, "jvm.ivy"@, join(home, ".ivy2/cache"@), Tier::Review))
                    .push(cached(disk, "jvm.sbt"@, join(home, ".sbt/boot"@), Tier::Review))
                    .push(
                        cached(disk, "jvm.coursier"@, join(home, ".cache/coursier"@), Tier::Review),
                    )
                    .push(cached(disk, "jvm.konan"@, join(home, ".konan"@), Tier::Review))
                    .push(cached(disk, "jvm.coursier"@, join(dir, "Coursier"@), Tier::Review)),
            )
        }),
{
    broadcast use {lemma_agree_none, lemma_agree_more, lemma_agree_absent};
    let disk = ctx.disk@;
    let home = ctx.paths@.home;
    let dir = ctx.paths@.cache_dir;
    let local = local_artifacts(
        dirs_below(Seq::empty(), disk.maven, 0),
        MAVEN_SCAN_BUDGET as nat,
    ).found > 0;
    let ps = places()
        .push(cached(disk, "jvm.gradle-caches"@, join(home, ".gradle/caches"@), Tier::Safe))
        .push(cached(disk, "jvm.gradle-daemon"@, join(home, ".gradle/daemon"@), Tier::Safe))
        .push(cached(disk, "jvm.gradle-native"@, join(home, ".gradle/native"@), Tier::Safe))
        .push(cached(disk, "jvm.gradle-wrapper"@, join(home, ".gradle/wrapper/dists"@), Tier::Safe))
        .push(
            listed(
                disk,
                "jvm.maven-repo"@,
                join(home, ".m2/repository"@),
                if local { Tier::Caution } else { Tier::Review },
            )
                .lost_if(local),
        )
        .push(cached(disk, "jvm.ivy"@, join(home, ".ivy2/cache"@), Tier::Review))
        .push(cached(disk, "jvm.sbt"@, join(home, ".sbt/boot"@), Tier::Review))
        .push(cached(disk, "jvm.coursier"@, join(home, ".cache/coursier"@), Tier::Review))
        .push(cached(disk, "jvm.konan"@, join(home, ".konan"@), Tier::Review))
        .push(cached(disk, "jvm.coursier"@, join(dir, "Coursier"@), Tier::Review));
    assert(agree(JvmCaches.offers(ctx), ps));
    lemma_agreed(JvmCaches.offers(ctx), ps);
}

/// Each output directory belongs to the build tool whose marker the project carries.
pub proof fn a_jvm_project_has_these_artifacts(ctx: &ScanContext, project: ProjectModel)
    ensures
        ({
            let disk = ctx.disk@;
            let at = project.path;
            let maven = project.markers.contains("pom.xml"@);
            let gradle = project.markers.contains("build.gradle"@)
                || project.markers.contains("build.gradle.kts"@)
                || project.markers.contains("settings.gradle"@)
                || project.markers.contains("settings.gradle.kts"@);
            outlines(JvmProjects.offers_in(ctx, project)) == those_there(
                places()
                    .push(
                        produced(disk, "jvm.build-output"@, at, "build"@, Tier::Safe)
                            .only_if(gradle),
                    )
                    .push(
                        produced(disk, "jvm.build-output"@, at, "target"@, Tier::Safe)
                            .only_if(maven),
                    )
                    .push(
                        produced(disk, "jvm.build-output"@, at, "out"@, Tier::Safe)
                            .only_if(maven || gradle),
                    )
                    .push(produced(disk, "jvm.project-gradle"@, at, ".gradle"@, Tier::Safe)),
            )
        }),
{
    broadcast use {lemma_agree_none, lemma_agree_more, lemma_agree_absent, lemma_agreed};
    let names = gradle_markers();
    assert(names[0] == "build.gradle"@);
    assert(names[1] == "build.gradle.kts"@);
    assert(names[2] == "settings.gradle"@);
    assert(names[3] == "settings.gradle.kts"@);
    if project.marked_any(names) {
        let i = choose|i: int| 0 <= i < names.len() && project.marked(#[trigger] names[i]);
        assert(project.marked(names[i]));
    }
    assert(project.marked(names[0]) == project.markers.contains("build.gradle"@));
    assert(project.marked(names[1]) == project.markers.contains("build.gradle.kts"@));
    assert(project.marked(names[2]) == project.markers.contains("settings.gradle"@));
    assert(project.marked(names[3]) == project.markers.contains("settings.gradle.kts"@));
}

/// The module cache is left to the toolchain where there is one.
pub proof fn these_go_caches_are_offered(ctx: &ScanContext)
    ensures
        ({
            let disk = ctx.disk@;
            let cleaned = if disk.commands.contains("go"@) {
                ActionModel::Shell { program: "go"@, args: seq!["clean"@, "-modcache"@] }
            } else {
                ActionModel::RemovePaths
            };
            outlines(GoCaches.offers(ctx)) == those_there(
                places()
                    .push(cached(disk, "go.build-cache"@, ctx.paths@.go_build_cache, Tier::Safe))
                    .push(
                        Place { action: cleaned, ..listed(disk, "go.mod-cache"@, ctx.paths@.go_mod_cache, Tier::Review) },
                    ),
            )
        }),
{
    broadcast use {lemma_agree_none, lemma_agree_more, lemma_agree_absent, lemma_agreed};
}

/// On a Mac, what Xcode keeps, before the backups of devices.
#[verifier::rlimit(40)]
pub proof fn these_xcode_artifacts_are_offered(ctx: &ScanContext)
    requires
        ctx.paths@.os == Os::MacOs,
    ensures
        ({
            let disk = ctx.disk@;
            let home = ctx.paths@.home;
            let dir = ctx.paths@.cache_dir;
            let developer = join(home, "Library/Developer"@);
            outlines(XcodeArtifacts.offers(ctx)) == those_there(
                places()
                    .push(
                        cached(
                            disk,
                            "apple.derived-data"@,
                            join(developer, "Xcode/DerivedData"@),
                            Tier::Safe,
                        ),
                    )
                    .push(
                        listed(
                            disk,
                            "apple.device-support"@,
                            join(developer, "Xcode/"@ + "iOS"@ + " DeviceSupport"@),
                            Tier::Review,
                        ),
                    )
                    .push(
                        listed(
                            disk,
                            "apple.device-support"@,
                            join(developer, "Xcode/"@ + "watchOS"@ + " DeviceSupport"@),
                            Tier::Review,
                        ),
                    )
                    .push(
                        listed(
                            disk,
                            "apple.device-support"@,
                            join(developer, "Xcode/"@ + "tvOS"@ + " DeviceSupport"@),
                            Tier::Review,
                        ),
                    )
                    .push(
                        listed(
                            disk,
                            "apple.device-support"@,
                            join(developer, "Xcode/"@ + "visionOS"@ + " DeviceSupport"@),
                            Tier::Review,
                        ),
                    )
                    .push(
                        listed(
                            disk,
                            "apple.archives"@,
                            join(developer, "Xcode/Archives"@),
                            Tier::Caution,
                        )
                            .lost_if(true),
                    )
                    .push(
                        cached(
                            disk,
                            "apple.swiftpm-cache"@,
                            join(dir, "org.swift.swiftpm"@),
                            Tier::Safe,
                        ),
                    )
                    .push(
                        cached(
                            disk,
                            "apple.xcode-caches"@,
                            join(dir, "com.apple.dt.Xcode"@),
                            Tier::Safe,
                        ),
                    )
                    .push(
                        cached(
                            disk,
                            "apple.simulator-caches"@,
                            join(home, "Library/Developer/CoreSimulator/Caches"@),
                            Tier::Safe,
                        ),
                    )
                    .push(
                        cached(disk, "apple.cocoapods-cache"@, join(dir, "CocoaPods"@), Tier::Safe),
                    ),
            ) + outlines(backups_offer(ctx))
        }),
{
    broadcast use {
        lemma_agree_none,
        lemma_agree_more,
        lemma_agree_absent,
        lemma_agreed,
        lemma_outlines_sum,
    };
}

/// On a Mac with its command line tools, the devices whose runtime is gone are left to them.
pub proof fn these_simulators_are_offered(ctx: &ScanContext)
    ensures
        ({
            let disk = ctx.disk@;
            let devices = join(ctx.paths@.home, "Library/Developer/CoreSimulator/Devices"@);
            let there = ctx.paths@.os == Os::MacOs && disk.commands.contains("xcrun"@);
            outlines(SimulatorRuntimes.offers(ctx)) == those_there(
                places()
                    .push(asked_of(
                        "apple.simulators"@,
                        devices,
                        Tier::Safe,
                        "xcrun"@,
                        seq!["simctl"@, "delete"@, "unavailable"@],
                    ).only_if(there))
                    .push(
                        listed(disk, "apple.simulator-devices"@, devices, Tier::Caution)
                            .only_if(there),
                    ),
            )
        }),
{
    broadcast use {lemma_agree_none, lemma_agree_more, lemma_agree_absent, lemma_agreed};
}

/// Installed pods can be had again only where a lockfile pins them.
pub proof fn an_apple_project_has_these_artifacts(ctx: &ScanContext, project: ProjectModel)
    ensures
        ({
            let disk = ctx.disk@;
            let at = project.path;
            let locked = disk.is_file(join(at, "Podfile.lock"@));
            outlines(CocoaPods.offers_in(ctx, project)) == those_there(
                places()
                    .push(
                        produced(
                            disk,
                            "apple.pods"@,
                            at,
                            "Pods"@,
                            if locked { Tier::Safe } else { Tier::Caution },
                        )
                            .lost_if(!locked)
                            .only_if(project.markers.contains("Podfile"@)),
                    )
                    .push(produced(disk, "apple.project-build"@, at, "Carthage/Build"@, Tier::Safe))
                    .push(produced(disk, "apple.project-build"@, at, ".build"@, Tier::Safe))
                    .push(produced(disk, "apple.project-build"@, at, "DerivedData"@, Tier::Safe)),
            )
        }),
{
    broadcast use {lemma_agree_none, lemma_agree_more, lemma_agree_absent, lemma_agreed};
}

/// With Docker at hand and running, it is asked to prune, and for volumes only where they are
/// asked for.
#[verifier::rlimit(40)]
pub proof fn these_containers_are_pruned(ctx: &ScanContext)
    ensures
        ({
            let disk = ctx.disk@;
            let docker = join(ctx.paths@.home, ".docker"@);
            let up = disk.commands.contains("docker"@) && disk.daemons.contains("docker"@);
            outlines(Docker.offers(ctx)) == those_there(
                places()
                    .push(asked_of(
                        "containers.docker-buildcache"@,
                        docker,
                        Tier::Safe,
                        "docker"@,
                        seq!["builder"@, "prune"@, "-a"@, "-f"@],
                    ).only_if(up))
                    .push(asked_of(
                        "containers.docker-dangling"@,
                        docker,
                        Tier::Safe,
                        "docker"@,
                        seq!["image"@, "prune"@, "-f"@],
                    ).only_if(up))
                    .push(asked_of(
                        "containers.docker-unused"@,
                        docker,
                        Tier::Review,
                        "docker"@,
                        seq!["system"@, "prune"@, "-a"@, "-f"@],
                    ).only_if(up))
                    .push(asked_of(
                        "containers.docker-volumes"@,
                        docker,
                        Tier::Caution,
                        "docker"@,
                        seq!["volume"@, "prune"@, "-a"@, "-f"@],
                    ).lost_if(true).only_if(up && ctx.config.providers.containers.include_volumes)),
            )
        }),
{
    broadcast use {lemma_agree_none, lemma_agree_more, lemma_agree_absent, lemma_agreed};
}

/// The disks of container machines are lost for good; their logs are not.
pub proof fn these_machines_are_offered(ctx: &ScanContext)
    ensures
        ({
            let disk = ctx.disk@;
            let home = ctx.paths@.home;
            outlines(ContainerVms.offers(ctx)) == those_there(
                places()
                    .push(
                        cached(
                            disk,
                            "containers.docker-vm"@,
                            join(home, "Library/Containers/com.docker.docker/Data/vms"@),
                            Tier::Caution,
                        )
                            .lost_if(true),
                    )
                    .push(
                        cached(
                            disk,
                            "containers.docker-vm"@,
                            join(home, "Library/Containers/com.docker.docker/Data/log"@),
                            Tier::Safe,
                        ),
                    )
                    .push(
                        cached(disk, "containers.colima"@, join(home, ".colima"@), Tier::Caution)
                            .lost_if(true),
                    )
                    .push(
                        cached(disk, "containers.lima"@, join(home, ".lima"@), Tier::Caution)
                            .lost_if(true),
                    )
                    .push(
                        cached(
                            disk,
                            "containers.podman"@,
                            join(home, ".local/share/containers"@),
                            Tier::Caution,
                        )
                            .lost_if(true),
                    ),
            )
        }),
{
    broadcast use {lemma_agree_none, lemma_agree_more, lemma_agree_absent, lemma_agreed};
}

/// The build output of a .NET project.
pub proof fn a_dotnet_project_has_these_artifacts(ctx: &ScanContext, project: ProjectModel)
    ensures
        ({
            let disk = ctx.disk@;
            let at = project.path;
            outlines(DotNetProjects.offers_in(ctx, project)) == those_there(
                places()
                    .push(produced(disk, "dotnet.build-output"@, at, "bin"@, Tier::Safe))
                    .push(produced(disk, "dotnet.build-output"@, at, "obj"@, Tier::Safe)),
            )
        }),
{
    broadcast use {lemma_agree_none, lemma_agree_more, lemma_agree_absent, lemma_agreed};
}

/// Vendored gems can be had again only where a lockfile pins them.
pub proof fn a_ruby_project_has_these_artifacts(ctx: &ScanContext, project: ProjectModel)
    ensures
        ({
            let disk = ctx.disk@;
            let at = project.path;
            let locked = disk.is_file(join(at, "Gemfile.lock"@));
            outlines(RubyProjects.offers_in(ctx, project)) == those_there(
                places()
                    .push(
                        produced(
                            disk,
                            "ruby.vendor-bundle"@,
                            at,
                            "vendor/bundle"@,
                            if locked { Tier::Review } else { Tier::Caution },
                        )
                            .lost_if(!locked),
                    ),
            )
        }),
{
    broadcast use {lemma_agree_none, lemma_agree_more, lemma_agree_absent, lemma_agreed};
}

/// Vendored packages can be had again only where a lockfile pins them.
pub proof fn a_php_project_has_these_artifacts(ctx: &ScanContext, project: ProjectModel)
    ensures
        ({
            let disk = ctx.disk@;
            let at = project.path;
            let locked = disk.is_file(join(at, "composer.lock"@));
            outlines(PhpProjects.offers_in(ctx, project)) == those_there(
                places()
                    .push(
                        produced(
                            disk,
                            "php.vendor"@,
                            at,
                            "vendor"@,
                            if locked { Tier::Review } else { Tier::Caution },
                        )
                            .lost_if(!locked),
                    ),
            )
        }),
{
    broadcast use {lemma_agree_none, lemma_agree_more, lemma_agree_absent, lemma_agreed};
}

/// The build output of a Dart project.
pub proof fn a_dart_project_has_these_artifacts(ctx: &ScanContext, project: ProjectModel)
    ensures
        ({
            let disk = ctx.disk@;
            let at = project.path;
            outlines(DartProjects.offers_in(ctx, project)) == those_there(
                places()
                    .push(produced(disk, "dart.build-output"@, at, ".dart_tool"@, Tier::Safe))
                    .push(produced(disk, "dart.build-output"@, at, "build"@, Tier::Safe)),
            )
        }),
{
    broadcast use {lemma_agree_none, lemma_agree_more, lemma_agree_absent, lemma_agreed};
}

/// A build directory is one where CMake left its cache file.
pub proof fn a_cmake_project_has_a_build_directory(ctx: &ScanContext, project: ProjectModel)
    ensures
        ({
            let disk = ctx.disk@;
            let at = project.path;
            outlines(BuildToolProjects.offers_in(ctx, project)) == those_there(
                places()
                    .push(
                        produced(disk, "buildtools.cmake-build"@, at, "build"@, Tier::Safe)
                            .only_if(disk.is_file(join(join(at, "build"@), "CMakeCache.txt"@))),
                    ),
            )
        }),
{
    broadcast use {lemma_agree_none, lemma_agree_more, lemma_agree_absent, lemma_agreed};
}

/// The caches of an editor that is installed. What it keeps of each workspace is lost for good.
#[verifier::rlimit(40)]
pub proof fn an_editor_has_these_caches(ctx: &ScanContext, editor: Seq<char>)
    ensures
        ({
            let disk = ctx.disk@;
            let base = join(
                join(
                    ctx.paths@.home,
                    if ctx.paths@.os == Os::MacOs {
                        "Library/Application Support"@
                    } else {
                        ".config"@
                    },
                ),
                editor,
            );
            let there = disk.is_dir(base);
            outlines(editor_offer(ctx, editor)) == those_there(
                places()
                    .push(
                        cached(disk, "editors.vscode"@, join(base, "Cache"@), Tier::Safe)
                            .only_if(there),
                    )
                    .push(
                        cached(disk, "editors.vscode"@, join(base, "CachedData"@), Tier::Safe)
                            .only_if(there),
                    )
                    .push(
                        cached(
                            disk,
                            "editors.vscode"@,
                            join(base, "CachedExtensionVSIXs"@),
                            Tier::Safe,
                        )
                            .only_if(there),
                    )
                    .push(
                        cached(disk, "editors.vscode"@, join(base, "logs"@), Tier::Safe)
                            .only_if(there),
                    )
                    .push(
                        cached(disk, "editors.vscode"@, join(base, "Crashpad"@), Tier::Safe)
                            .only_if(there),
                    )
                    .push(
                        listed(
                            disk,
                            "editors.workspace-storage"@,
                            join(base, "User/workspaceStorage"@),
                            Tier::Review,
                        )
                            .lost_if(true)
                            .only_if(there),
                    ),
            )
        }),
{
    broadcast use {lemma_agree_none, lemma_agree_more, lemma_agree_absent, lemma_agreed};
}

/// Package managers clean up after themselves where they are installed; logs are removed.
pub proof fn these_system_caches_are_offered(ctx: &ScanContext)
    ensures
        ({
            let disk = ctx.disk@;
            let home = ctx.paths@.home;
            let dir = ctx.paths@.cache_dir;
            outlines(System.offers(ctx)) == those_there(
                places()
                    .push(asked_of(
                        "system.homebrew"@,
                        join(dir, "Homebrew"@),
                        Tier::Safe,
                        "brew"@,
                        seq!["cleanup"@, "-s"@],
                    ).only_if(disk.commands.contains("brew"@)))
                    .push(asked_of(
                        "system.nix"@,
                        join(home, ".nix-profile"@),
                        Tier::Review,
                        "nix-collect-garbage"@,
                        seq!["-d"@],
                    ).only_if(disk.commands.contains("nix-collect-garbage"@)))
                    .push(cached(disk, "system.logs"@, join(home, "Library/Logs"@), Tier::Safe))
                    .push(
                        cached(
                            disk,
                            "system.crash-reports"@,
                            join(home, "Library/Logs/DiagnosticReports"@),
                            Tier::Safe,
                        ),
                    ),
            )
        }),
{
    broadcast use {lemma_agree_none, lemma_agree_more, lemma_agree_absent, lemma_agreed};
}

/// The weights of downloaded models.
pub proof fn these_model_caches_are_offered(ctx: &ScanContext)
    ensures
        ({
            let disk = ctx.disk@;
            let home = ctx.paths@.home;
            let dir = ctx.paths@.cache_dir;
            outlines(MachineLearning.offers(ctx)) == those_there(
                places()
                    .push(cached(disk, "ml.huggingface"@, join(dir, "huggingface"@), Tier::Review))
                    .push(
                        cached(
                            disk,
                            "ml.huggingface"@,
                            join(home, ".cache/huggingface"@),
                            Tier::Review,
                        ),
                    )
                    .push(cached(disk, "ml.torch"@, join(dir, "torch"@), Tier::Review))
                    .push(cached(disk, "ml.ollama"@, join(home, ".ollama/models"@), Tier::Review)),
            )
        }),
{
    broadcast use {lemma_agree_none, lemma_agree_more, lemma_agree_absent, lemma_agreed};
}

/// The weights of downloaded models, with those of the local servers.
#[verifier::rlimit(40)]
pub proof fn these_local_models_are_offered(ctx: &ScanContext)
    ensures
        ({
            let disk = ctx.disk@;
            let home = ctx.paths@.home;
            let dir = ctx.paths@.cache_dir;
            outlines(LocalModels.offers(ctx)) == those_there(
                places()
                    .push(cached(disk, "ml.huggingface"@, join(dir, "huggingface"@), Tier::Review))
                    .push(
                        cached(
                            disk,
                            "ml.huggingface"@,
                            join(home, ".cache/huggingface"@),
                            Tier::Review,
                        ),
                    )
                    .push(cached(disk, "ml.torch"@, join(dir, "torch"@), Tier::Review))
                    .push(cached(disk, "ml.ollama"@, join(home, ".ollama/models"@), Tier::Review))
                    .push(
                        cached(disk, "ml.lmstudio"@, join(home, ".lmstudio/models"@), Tier::Review),
                    )
                    .push(
                        cached(disk, "ml.lmstudio"@, join(home, ".cache/lm-studio"@), Tier::Review),
                    ),
            )
        }),
{
    broadcast use {lemma_agree_none, lemma_agree_more, lemma_agree_absent, lemma_agreed};
}

/// What was generated is lost for good.
pub proof fn a_comfy_project_has_these_artifacts(ctx: &ScanContext, project: ProjectModel)
    ensures
        ({
            let disk = ctx.disk@;
            let at = project.path;
            let known = disk.is_file(join(at, ".comfy_environment"@));
            outlines(ComfyUi.offers_in(ctx, project)) == those_there(
                places()
                    .push(
                        produced(disk, "ml.comfyui-models"@, at, "models"@, Tier::Review)
                            .only_if(known),
                    )
                    .push(
                        produced(disk, "ml.comfyui-output"@, at, "output"@, Tier::Caution)
                            .lost_if(true)
                            .only_if(known),
                    ),
            )
        }),
{
    broadcast use {lemma_agree_none, lemma_agree_more, lemma_agree_absent, lemma_agreed};
}

/// What was generated is lost for good.
pub proof fn a_web_ui_project_has_these_artifacts(ctx: &ScanContext, project: ProjectModel)
    ensures
        ({
            let disk = ctx.disk@;
            let at = project.path;
            let known = disk.is_file(join(at, "webui.py"@)) && disk.is_file(
                join(at, "modules/paths_internal.py"@),
            );
            outlines(Automatic1111.offers_in(ctx, project)) == those_there(
                places()
                    .push(
                        produced(disk, "ml.a1111-models"@, at, "models"@, Tier::Review)
                            .only_if(known),
                    )
                    .push(
                        produced(disk, "ml.a1111-output"@, at, "outputs"@, Tier::Caution)
                            .lost_if(true)
                            .only_if(known),
                    ),
            )
        }),
{
    broadcast use {lemma_agree_none, lemma_agree_more, lemma_agree_absent, lemma_agreed};
}

/// The package caches of .NET, and behind them the output of each of its projects.
pub proof fn these_dotnet_caches_are_offered(ctx: &ScanContext)
    ensures
        ({
            let disk = ctx.disk@;
            let home = ctx.paths@.home;
            outlines(DotNet.offers(ctx)) == those_there(
                places()
                    .push(
                        cached(disk, "dotnet.nuget"@, join(home, ".nuget/packages"@), Tier::Review),
                    )
                    .push(
                        cached(
                            disk,
                            "dotnet.http-cache"@,
                            join(home, ".local/share/NuGet/http-cache"@),
                            Tier::Safe,
                        ),
                    ),
            ) + outlines(
                offers_in_all(&DotNetProjects, ctx, ctx.marked(seq!["Directory.Build.props"@, "*.csproj"@, "*.sln"@])),
            )
        }),
{
    broadcast use {
        lemma_agree_none,
        lemma_agree_more,
        lemma_agree_absent,
        lemma_agreed,
        lemma_outlines_sum,
    };
}

/// The gem caches, and behind them the gems of each project.
pub proof fn these_ruby_caches_are_offered(ctx: &ScanContext)
    ensures
        ({
            let disk = ctx.disk@;
            let home = ctx.paths@.home;
            let dir = ctx.paths@.cache_dir;
            outlines(Ruby.offers(ctx)) == those_there(
                places()
                    .push(cached(disk, "ruby.gem-cache"@, join(home, ".gem/cache"@), Tier::Review))
                    .push(cached(disk, "ruby.gem-cache"@, join(home, ".gem/ruby"@), Tier::Review))
                    .push(cached(disk, "ruby.bundler-cache"@, join(dir, "bundle"@), Tier::Safe)),
            ) + outlines(
                offers_in_all(&RubyProjects, ctx, ctx.marked(seq!["Gemfile"@])),
            )
        }),
{
    broadcast use {
        lemma_agree_none,
        lemma_agree_more,
        lemma_agree_absent,
        lemma_agreed,
        lemma_outlines_sum,
    };
}

/// The caches of Composer, and behind them the packages of each project.
pub proof fn these_php_caches_are_offered(ctx: &ScanContext)
    ensures
        ({
            let disk = ctx.disk@;
            let home = ctx.paths@.home;
            let dir = ctx.paths@.cache_dir;
            outlines(Php.offers(ctx)) == those_there(
                places()
                    .push(cached(disk, "php.composer-cache"@, join(dir, "composer"@), Tier::Safe))
                    .push(
                        cached(
                            disk,
                            "php.composer-cache"@,
                            join(home, ".composer/cache"@),
                            Tier::Safe,
                        ),
                    ),
            ) + outlines(
                offers_in_all(&PhpProjects, ctx, ctx.marked(seq!["composer.json"@])),
            )
        }),
{
    broadcast use {
        lemma_agree_none,
        lemma_agree_more,
        lemma_agree_absent,
        lemma_agreed,
        lemma_outlines_sum,
    };
}

/// The caches of Dart and Flutter, and behind them the output of each project.
pub proof fn these_dart_caches_are_offered(ctx: &ScanContext)
    ensures
        ({
            let disk = ctx.disk@;
            let home = ctx.paths@.home;
            outlines(Dart.offers(ctx)) == those_there(
                places()
                    .push(cached(disk, "dart.pub-cache"@, join(home, ".pub-cache"@), Tier::Review))
                    .push(
                        cached(
                            disk,
                            "dart.flutter-engine"@,
                            join(home, "flutter/bin/cache"@),
                            Tier::Review,
                        ),
                    )
                    .push(
                        cached(
                            disk,
                            "dart.flutter-engine"@,
                            join(home, "development/flutter/bin/cache"@),
                            Tier::Review,
                        ),
                    ),
            ) + outlines(
                offers_in_all(&DartProjects, ctx, ctx.marked(seq!["pubspec.yaml"@])),
            )
        }),
{
    broadcast use {
        lemma_agree_none,
        lemma_agree_more,
        lemma_agree_absent,
        lemma_agreed,
        lemma_outlines_sum,
    };
}

/// The caches of compilers and build tools, and behind them the build directories of projects.
#[verifier::rlimit(40)]
pub proof fn these_build_caches_are_offered(ctx: &ScanContext)
    ensures
        ({
            let disk = ctx.disk@;
            let home = ctx.paths@.home;
            let dir = ctx.paths@.cache_dir;
            outlines(BuildTools.offers(ctx)) == those_there(
                places()
                    .push(cached(disk, "buildtools.ccache"@, join(dir, "ccache"@), Tier::Safe))
                    .push(cached(disk, "buildtools.ccache"@, join(home, ".ccache"@), Tier::Safe))
                    .push(cached(disk, "buildtools.bazel"@, join(dir, "bazel"@), Tier::Safe))
                    .push(cached(disk, "buildtools.bazelisk"@, join(dir, "bazelisk"@), Tier::Safe))
                    .push(cached(disk, "buildtools.zig"@, join(dir, "zig"@), Tier::Safe)),
            ) + outlines(
                offers_in_all(&BuildToolProjects, ctx, ctx.marked(seq!["CMakeLists.txt"@, "WORKSPACE"@, "MODULE.bazel"@])),
            )
        }),
{
    broadcast use {
        lemma_agree_none,
        lemma_agree_more,
        lemma_agree_absent,
        lemma_agreed,
        lemma_outlines_sum,
    };
}

proof fn lemma_jetbrains(ctx: &ScanContext)
    ensures
        ({
            let disk = ctx.disk@;
            let home = ctx.paths@.home;
            let caches = join(home, "Library/Caches/JetBrains"@);
            let logs = join(home, "Library/Logs/JetBrains"@);
            let linux = join(home, ".cache/JetBrains"@);
            outlines(
                nothing() + jetbrains_offer(ctx, "JetBrains caches"@, caches) + jetbrains_offer(
                    ctx,
                    "JetBrains logs"@,
                    logs,
                ) + jetbrains_offer(ctx, "JetBrains caches"@, linux),
            ) == those_there(
                places()
                    .push(cached(disk, "editors.jetbrains"@, caches, Tier::Safe))
                    .push(cached(disk, "editors.jetbrains"@, logs, Tier::Safe))
                    .push(cached(disk, "editors.jetbrains"@, linux, Tier::Safe)),
            )
        }),
{
    broadcast use {lemma_agree_none, lemma_agree_more, lemma_agreed};
}

proof fn lemma_parts(
    a: Seq<CandidateModel>,
    b: Seq<CandidateModel>,
    c: Seq<CandidateModel>,
    d: Seq<CandidateModel>,
    e: Seq<CandidateModel>,
    x: Seq<CandidateModel>,
    y: Seq<CandidateModel>,
    z: Seq<CandidateModel>,
)
    ensures
        outlines(nothing() + a + b + c + d + e + x + y + z) == outlines(a) + outlines(b)
            + outlines(c) + outlines(d) + outlines(e) + outlines(nothing() + x + y + z),
{
    broadcast use lemma_outlines_sum;
    assert(nothing() + a + b + c + d + e + x + y + z =~= a + b + c + d + e + (nothing() + x + y
        + z));
}

/// Each editor in turn, and behind them what JetBrains keeps.
#[verifier::rlimit(40)]
pub proof fn these_editor_caches_are_offered(ctx: &ScanContext)
    ensures
        ({
            let disk = ctx.disk@;
            let home = ctx.paths@.home;
            outlines(Editors.offers(ctx)) == outlines(editor_offer(ctx, "Code"@)) + outlines(editor_offer(ctx, "Cursor"@))
                + outlines(editor_offer(ctx, "VSCodium"@)) + outlines(
                editor_offer(ctx, "Code - Insiders"@),
            ) + outlines(editor_offer(ctx, "Windsurf"@)) + those_there(places()
                .push(
                    cached(
                        disk,
                        "editors.jetbrains"@,
                        join(home, "Library/Caches/JetBrains"@),
                        Tier::Safe,
                    ),
                )
                .push(
                    cached(
                        disk,
                        "editors.jetbrains"@,
                        join(home, "Library/Logs/JetBrains"@),
                        Tier::Safe,
                    ),
                )
                .push(
                    cached(disk, "editors.jetbrains"@, join(home, ".cache/JetBrains"@), Tier::Safe),
                ))
        }),
{
    let home = ctx.paths@.home;
    lemma_jetbrains(ctx);
    lemma_parts(
        editor_offer(ctx, "Code"@),
        editor_offer(ctx, "Cursor"@),
        editor_offer(ctx, "VSCodium"@),
        editor_offer(ctx, "Code - Insiders"@),
        editor_offer(ctx, "Windsurf"@),
        jetbrains_offer(ctx, "JetBrains caches"@, join(home, "Library/Caches/JetBrains"@)),
        jetbrains_offer(ctx, "JetBrains logs"@, join(home, "Library/Logs/JetBrains"@)),
        jetbrains_offer(ctx, "JetBrains caches"@, join(home, ".cache/JetBrains"@)),
    );
}

/// The caches of the application, and behind them the thumbnails of each profile.
pub proof fn these_tavern_caches_are_offered(ctx: &ScanContext, project: ProjectModel)
    requires
        ctx.disk@.is_file(join(project.path, "public/scripts/world-info.js"@)),
    ensures
        ({
            let disk = ctx.disk@;
            let at = project.path;
            let data = join(at, "data"@);
            outlines(SillyTavern.offers_in(ctx, project)) == those_there(
                places()
                    .push(produced(disk, "ml.sillytavern-cache"@, at, "data/_cache"@, Tier::Safe))
                    .push(produced(disk, "ml.sillytavern-cache"@, at, "data/_webpack"@, Tier::Safe))
                    .push(
                        produced(disk, "ml.sillytavern-cache"@, at, "data/_uploads"@, Tier::Safe),
                    ),
            ) + those_there(
                disk.subdir_names(data).map_values(
                    |name: Seq<char>|
                        Place {
                            project: Some(at),
                            ..listed(
                                disk,
                                "ml.sillytavern-thumbnails"@,
                                join(join(data, name), "thumbnails"@),
                                Tier::Safe,
                            )
                        },
                ),
            )
        }),
{
    broadcast use {
        lemma_agree_none,
        lemma_agree_more,
        lemma_agree_absent,
        lemma_agreed,
        lemma_outlines_sum,
    };
    let data = join(project.path, "data"@);
    lemma_thumbnails_outlined(ctx, project.path, data, ctx.disk@.subdir_names(data));
}

/// Of an installed SDK, its images and NDKs, and behind them the caches of its tools.
#[verifier::rlimit(40)]
pub proof fn these_android_caches_are_offered(ctx: &ScanContext, sdk: Seq<char>)
    requires
        ctx.paths@.android_sdk == Some(sdk) && ctx.disk@.is_dir(sdk),
    ensures
        ({
            let disk = ctx.disk@;
            let home = ctx.paths@.home;
            outlines(AndroidSdk.offers(ctx)) == outlines(images_offer(ctx, sdk)) + outlines(ndks_offer(ctx, sdk))
                + those_there(places()
                .push(
                    cached(
                        disk,
                        "android.build-cache"@,
                        join(home, ".android/build-cache"@),
                        Tier::Safe,
                    ),
                )
                .push(cached(disk, "android.cache"@, join(home, ".android/cache"@), Tier::Safe))
                .push(
                    cached(disk, "android.emulator-tmp"@, join(home, ".android/tmp"@), Tier::Safe),
                ))
        }),
{
    broadcast use {
        lemma_agree_none,
        lemma_agree_more,
        lemma_agree_absent,
        lemma_agreed,
        lemma_outlines_sum,
    };
    let home = ctx.paths@.home;
    let disk = ctx.disk@;
    let first = build_cache_offer(
        ctx,
        "android.build-cache"@,
        "Android build cache"@,
        join(home, ".android/build-cache"@),
    );
    let second = build_cache_offer(
        ctx,
        "android.cache"@,
        "Android SDK cache"@,
        join(home, ".android/cache"@),
    );
    let others = nothing() + first + second + emulator_tmp_offer(ctx);
    let listed = nothing() + images_offer(ctx, sdk) + ndks_offer(ctx, sdk);
    assert(AndroidSdk.offers(ctx) =~= listed + others);
    assert(outlines(nothing()) =~= Seq::empty());
    assert(outlines(listed) =~= outlines(images_offer(ctx, sdk)) + outlines(ndks_offer(ctx, sdk)));
    let ps = places()
        .push(cached(disk, "android.build-cache"@, join(home, ".android/build-cache"@), Tier::Safe))
        .push(cached(disk, "android.cache"@, join(home, ".android/cache"@), Tier::Safe))
        .push(cached(disk, "android.emulator-tmp"@, join(home, ".android/tmp"@), Tier::Safe));
    assert(agree(others, ps));
    lemma_agreed(others, ps);
}

proof fn lemma_outlined_one(cs: Seq<CandidateModel>, p: Place)
    requires
        fits(cs, p),
    ensures
        outlines(cs) == those_there(seq![p]),
{
    reveal(Seq::filter);
    assert(seq![p].drop_last() =~= Seq::empty());
    assert(those_there(Seq::empty()) =~= Seq::empty());
    if p.there {
        assert(outlines(cs) =~= seq![outline(cs[0])]);
    } else {
        assert(outlines(cs) =~= Seq::empty());
    }
}

proof fn lemma_those_there_sum(a: Seq<Place>, p: Place)
    ensures
        those_there(a.push(p)) == those_there(a) + those_there(seq![p]),
{
    reveal(Seq::filter);
    assert(a.push(p).drop_last() =~= a);
    assert(seq![p].drop_last() =~= Seq::empty());
    assert(those_there(Seq::empty()) =~= Seq::empty());
    assert(those_there(a.push(p)) =~= those_there(a) + those_there(seq![p]));
}

proof fn lemma_outlined_each<B: SubdirOffers>(
    build: &B,
    ctx: &ScanContext,
    dir: Seq<char>,
    names: Seq<Seq<char>>,
    place: spec_fn(Seq<char>) -> Place,
)
    requires
        forall|name: Seq<char>| fits(#[trigger] build.offer_of(ctx, dir, name), place(name)),
    ensures
        outlines(offers_of_all(build, ctx, dir, names)) == those_there(names.map_values(place)),
    decreases names.len(),
{
    if names.len() == 0 {
        reveal(Seq::filter);
        assert(outlines(nothing()) =~= those_there(names.map_values(place)));
    } else {
        let before = names.drop_last();
        let last = names.last();
        lemma_outlined_each(build, ctx, dir, before, place);
        lemma_outlines_sum(
            offers_of_all(build, ctx, dir, before),
            build.offer_of(ctx, dir, last),
        );
        lemma_outlined_one(build.offer_of(ctx, dir, last), place(last));
        lemma_those_there_sum(before.map_values(place), place(last));
        assert(names.map_values(place) =~= before.map_values(place).push(place(last)));
    }
}

proof fn lemma_thumbnails_outlined(
    ctx: &ScanContext,
    at: Seq<char>,
    data: Seq<char>,
    names: Seq<Seq<char>>,
)
    ensures
        outlines(all_thumbnails_offer(ctx, at, data, names)) == those_there(
            names.map_values(
                |name: Seq<char>|
                    Place {
                        project: Some(at),
                        ..listed(
                            ctx.disk@,
                            "ml.sillytavern-thumbnails"@,
                            join(join(data, name), "thumbnails"@),
                            Tier::Safe,
                        )
                    },
            ),
        ),
    decreases names.len(),
{
    let place = |name: Seq<char>|
        Place {
            project: Some(at),
            ..listed(
                ctx.disk@,
                "ml.sillytavern-thumbnails"@,
                join(join(data, name), "thumbnails"@),
                Tier::Safe,
            )
        };
    if names.len() == 0 {
        reveal(Seq::filter);
        assert(outlines(nothing()) =~= those_there(names.map_values(place)));
    } else {
        let before = names.drop_last();
        let last = names.last();
        lemma_thumbnails_outlined(ctx, at, data, before);
        let found = thumbnails_offer(ctx, at, join(join(data, last), "thumbnails"@));
        lemma_outlines_sum(all_thumbnails_offer(ctx, at, data, before), found);
        lemma_outlined_one(found, place(last));
        lemma_those_there_sum(before.map_values(place), place(last));
        assert(names.map_values(place) =~= before.map_values(place).push(place(last)));
    }
}

/// Each toolchain is offered where there is more than one of them.
pub proof fn each_of_several_toolchains_is_offered(ctx: &ScanContext)
    ensures
        ({
            let dir = join(ctx.paths@.home, ".rustup/toolchains"@);
            let names = ctx.disk@.subdir_names(dir);
            outlines(toolchains_offer(ctx)) == those_there(
                names.map_values(
                    |name: Seq<char>|
                        Place {
                            there: ctx.disk@.is_dir(dir) && names.len() > 1,
                            ..cached(ctx.disk@, "rust.toolchain"@, join(dir, name), Tier::Review)
                        },
                ),
            )
        }),
{
    let dir = join(ctx.paths@.home, ".rustup/toolchains"@);
    let names = ctx.disk@.subdir_names(dir);
    let several = ctx.disk@.is_dir(dir) && names.len() > 1;
    let place = |name: Seq<char>|
        Place {
            there: several,
            ..cached(ctx.disk@, "rust.toolchain"@, join(dir, name), Tier::Review)
        };
    if several {
        lemma_outlined_each(&Toolchain, ctx, dir, names, place);
    } else {
        lemma_none_there(names.map_values(place));
    }
}

proof fn lemma_none_there(ps: Seq<Place>)
    requires
        forall|i: int| 0 <= i < ps.len() ==> !(#[trigger] ps[i]).there,
    ensures
        those_there(ps) == outlines(nothing()),
    decreases ps.len(),
{
    reveal(Seq::filter);
    assert(outlines(nothing()) =~= Seq::empty());
    if ps.len() > 0 {
        assert(!ps[ps.len() - 1].there);
        assert forall|i: int| 0 <= i < ps.drop_last().len() implies !(
        #[trigger] ps.drop_last()[i]).there by {
            assert(ps.drop_last()[i] == ps[i]);
        }
        lemma_none_there(ps.drop_last());
    } else {
        assert(those_there(ps) =~= Seq::empty());
    }
}

/// Each system image is offered, and each NDK where there is more than one of them.
pub proof fn each_image_and_each_of_several_ndks_is_offered(ctx: &ScanContext, sdk: Seq<char>)
    ensures
        ({
            let images = join(sdk, "system-images"@);
            let ndks = join(sdk, "ndk"@);
            let versions = ctx.disk@.subdir_names(ndks);
            &&& outlines(images_offer(ctx, sdk)) == those_there(
                ctx.disk@.subdir_names(images).map_values(
                    |name: Seq<char>|
                        Place {
                            there: ctx.disk@.is_dir(images),
                            ..cached(
                                ctx.disk@,
                                "android.system-image"@,
                                join(images, name),
                                Tier::Review,
                            )
                        },
                ),
            )
            &&& outlines(ndks_offer(ctx, sdk)) == those_there(
                versions.map_values(
                    |name: Seq<char>|
                        Place {
                            there: ctx.disk@.is_dir(ndks) && versions.len() > 1,
                            ..cached(ctx.disk@, "android.ndk"@, join(ndks, name), Tier::Review)
                        },
                ),
            )
        }),
{
    let images = join(sdk, "system-images"@);
    let names = ctx.disk@.subdir_names(images);
    let image = |name: Seq<char>|
        Place {
            there: ctx.disk@.is_dir(images),
            ..cached(ctx.disk@, "android.system-image"@, join(images, name), Tier::Review)
        };
    if ctx.disk@.is_dir(images) {
        lemma_outlined_each(&SystemImage, ctx, images, names, image);
    } else {
        lemma_none_there(names.map_values(image));
    }
    let ndks = join(sdk, "ndk"@);
    let versions = ctx.disk@.subdir_names(ndks);
    let several = ctx.disk@.is_dir(ndks) && versions.len() > 1;
    let ndk = |name: Seq<char>|
        Place {
            there: several,
            ..cached(ctx.disk@, "android.ndk"@, join(ndks, name), Tier::Review)
        };
    if several {
        lemma_outlined_each(&NdkVersion, ctx, ndks, versions, ndk);
    } else {
        lemma_none_there(versions.map_values(ndk));
    }
}

/// Of the directories of virtual devices, each that is named as one is offered.
pub proof fn each_virtual_device_is_offered(ctx: &ScanContext)
    ensures
        ({
            let dir = ctx.paths@.android_avd;
            outlines(AndroidAvds.offers(ctx)) == those_there(
                ctx.disk@.subdir_names(dir).map_values(
                    |name: Seq<char>|
                        Place {
                            there: ctx.disk@.is_dir(dir) && extension(join(dir, name)) == Some(
                                "avd"@,
                            ),
                            ..cached(ctx.disk@, "android.avd"@, join(dir, name), Tier::Caution)
                        },
                ),
            )
        }),
{
    let dir = ctx.paths@.android_avd;
    let names = ctx.disk@.subdir_names(dir);
    let place = |name: Seq<char>|
        Place {
            there: ctx.disk@.is_dir(dir) && extension(join(dir, name)) == Some("avd"@),
            ..cached(ctx.disk@, "android.avd"@, join(dir, name), Tier::Caution)
        };
    if ctx.disk@.is_dir(dir) {
        lemma_outlined_each(&VirtualDevice, ctx, dir, names, place);
    } else {
        lemma_none_there(names.map_values(place));
    }
}

/// Each backup of a device is offered, and is lost for good.
pub proof fn each_device_backup_is_offered(ctx: &ScanContext)
    ensures
        ({
            let dir = join(ctx.paths@.home, "Library/Application Support/MobileSync/Backup"@);
            outlines(backups_offer(ctx)) == those_there(
                ctx.disk@.subdir_names(dir).map_values(
                    |name: Seq<char>|
                        Place {
                            there: ctx.disk@.is_dir(dir),
                            lost: true,
                            ..cached(
                                ctx.disk@,
                                "apple.device-backup"@,
                                join(dir, name),
                                Tier::Caution,
                            )
                        },
                ),
            )
        }),
{
    let dir = join(ctx.paths@.home, "Library/Application Support/MobileSync/Backup"@);
    let names = ctx.disk@.subdir_names(dir);
    let place = |name: Seq<char>|
        Place {
            there: ctx.disk@.is_dir(dir),
            lost: true,
            ..cached(ctx.disk@, "apple.device-backup"@, join(dir, name), Tier::Caution)
        };
    if ctx.disk@.is_dir(dir) {
        lemma_outlined_each(&DeviceBackup, ctx, dir, names, place);
    } else {
        lemma_none_there(names.map_values(place));
    }
}

/// What is offered for projects is what is offered for each of them, one after the other.
pub proof fn every_project_is_offered_in_turn<B: ProjectOffers>(
    build: &B,
    ctx: &ScanContext,
    projects: Seq<ProjectModel>,
)
    ensures
        offers_in_all(build, ctx, projects) == projects.map_values(
            |p: ProjectModel| build.offers_in(ctx, p),
        ).flatten(),
    decreases projects.len(),
{
    let each = |p: ProjectModel| build.offers_in(ctx, p);
    let parts = projects.map_values(each);
    parts.lemma_flatten_and_flatten_alt_are_equivalent();
    if projects.len() > 0 {
        every_project_is_offered_in_turn(build, ctx, projects.drop_last());
        let before = projects.drop_last().map_values(each);
        before.lemma_flatten_and_flatten_alt_are_equivalent();
        assert(parts.drop_last() =~= before);
    } else {
        assert(offers_in_all(build, ctx, projects) =~= parts.flatten());
    }
}

/// A project that carries one of the names.
pub open spec fn carries(p: ProjectModel, names: Set<Seq<char>>) -> bool {
    exists|i: int| 0 <= i < p.markers.len() && names.contains(#[trigger] p.markers[i])
}

/// The projects of a scan that carry one of the markers are all considered, in order.
pub proof fn every_marked_project_is_considered(ctx: &ScanContext, markers: Seq<Seq<char>>)
    ensures
        ctx.marked(markers) == views(ctx.projects@).filter(
            |p: ProjectModel| carries(p, markers.to_set()),
        ),
{
    let projects = views(ctx.projects@);
    a_provider_sees_every_project_it_knows(projects, markers);
    let one = |p: ProjectModel|
        exists|i: int| 0 <= i < markers.len() && p.markers.contains(#[trigger] markers[i]);
    let other = |p: ProjectModel| carries(p, markers.to_set());
    assert forall|p: ProjectModel| #[trigger] one(p) == other(p) by {
        if one(p) {
            let i = choose|i: int| 0 <= i < markers.len() && p.markers.contains(#[trigger] markers[i]);
            let j = choose|j: int| 0 <= j < p.markers.len() && p.markers[j] == markers[i];
            assert(markers.contains(markers[i]));
            assert(markers.to_set().contains(p.markers[j]));
        }
        if other(p) {
            let j = choose|j: int|
                0 <= j < p.markers.len() && markers.to_set().contains(#[trigger] p.markers[j]);
            let i = choose|i: int| 0 <= i < markers.len() && markers[i] == p.markers[j];
            assert(p.markers.contains(markers[i]));
        }
    }
    assert(one =~= other);
}

/// The providers of projects look at the projects of their ecosystem, and Node's only where they
/// are asked for.
pub proof fn these_markers_lead_to_projects(ctx: &ScanContext)
    ensures
        NodeModules.offers(ctx) == if ctx.config.providers.node.offer_node_modules {
            offers_in_all(&NodeModules, ctx, ctx.marked(seq!["package.json"@]))
        } else {
            Seq::empty()
        },
        PythonProjects.offers(ctx) == offers_in_all(
            &PythonProjects,
            ctx,
            ctx.marked(
                seq![
                    "pyproject.toml"@,
                    "requirements.txt"@,
                    "Pipfile"@,
                    "setup.py"@,
                    "environment.yml"@,
                ],
            ),
        ),
        RustTargets.offers(ctx) == offers_in_all(
            &RustTargets,
            ctx,
            ctx.marked(seq!["Cargo.toml"@]),
        ),
        JvmProjects.offers(ctx) == offers_in_all(
            &JvmProjects,
            ctx,
            ctx.marked(
                seq![
                    "pom.xml"@,
                    "build.gradle"@,
                    "build.gradle.kts"@,
                    "settings.gradle"@,
                    "settings.gradle.kts"@,
                    "build.sbt"@,
                ],
            ),
        ),
        CocoaPods.offers(ctx) == offers_in_all(
            &CocoaPods,
            ctx,
            ctx.marked(seq!["Podfile"@, "Package.swift"@, "Cartfile"@]),
        ),
        LocalAiTools.offers(ctx) == offers_in_all(
            &ComfyUi,
            ctx,
            ctx.marked(seq!["requirements.txt"@, "pyproject.toml"@]),
        ) + offers_in_all(&SillyTavern, ctx, ctx.marked(seq!["package.json"@])) + offers_in_all(
            &Automatic1111,
            ctx,
            ctx.marked(seq!["requirements.txt"@, "pyproject.toml"@]),
        ),
{
}

/// Where the machine has no Mac, no SDK or none of the marks of an application, nothing of it is
/// offered.
pub proof fn nothing_is_offered_elsewhere(ctx: &ScanContext, project: ProjectModel)
    ensures
        ctx.paths@.os != Os::MacOs ==> XcodeArtifacts.offers(ctx) == Seq::<CandidateModel>::empty(),
        !ctx.disk@.is_file(join(project.path, "public/scripts/world-info.js"@))
            ==> SillyTavern.offers_in(ctx, project) == Seq::<CandidateModel>::empty(),
        ctx.paths@.android_sdk is None ==> AndroidSdk.offers(ctx) == Seq::<CandidateModel>::empty(),
        forall|sdk: Seq<char>|
            ctx.paths@.android_sdk == Some(sdk) && !(#[trigger] ctx.disk@.is_dir(sdk))
                ==> AndroidSdk.offers(ctx) == Seq::<CandidateModel>::empty(),
{
}

/// A server that answers on its port is warned about where this is checked, and nowhere else.
pub proof fn a_running_server_is_warned_about(
    ctx: &ScanContext,
    at: Seq<char>,
    path: Seq<char>,
    tool: Seq<char>,
    port: u16,
)
    requires
        ctx.disk@.present(path) && ctx.disk@.is_dir(path),
        ctx.disk@.is_dir(join(at, "models"@)),
    ensures
        ({
            let checked = ctx.config.providers.ai.check_running;
            let ports = ctx.disk@.ports;
            let other = Seq::<char>::empty();
            let known = weights_offer(ctx, other, other, path, other, None)[0].warnings;
            let served = weights_offer(ctx, other, other, path, other, Some((tool, port)))[0].warnings;
            &&& served == if checked && ports.contains(port) {
                known.push(in_use_warning(tool, port))
            } else {
                known
            }
            &&& comfyui_models_offer(ctx, at)[0].warnings.contains(
                in_use_warning("ComfyUI"@, 8188),
            ) == (checked && ports.contains(8188))
            &&& webui_models_offer(ctx, at)[0].warnings.contains(
                in_use_warning("Automatic1111"@, 7860),
            ) == (checked && ports.contains(7860))
            &&& thumbnails_offer(ctx, at, path)[0].warnings == if checked && ports.contains(8000) {
                seq![in_use_warning("SillyTavern"@, 8000)]
            } else {
                seq![]
            }
        }),
{
    let comfy = comfyui_models_offer(ctx, at)[0].warnings;
    let webui = webui_models_offer(ctx, at)[0].warnings;
    reveal_strlit("ComfyUI");
    reveal_strlit("Automatic1111");
    reveal_strlit("Model weights are very large downloads; re-fetching can take a long time.");
    let large = "Model weights are very large downloads; re-fetching can take a long time."@;
    assert(large[0] == 'M');
    assert(in_use_warning("ComfyUI"@, 8188).message[0] == 'C');
    assert(in_use_warning("Automatic1111"@, 7860).message[0] == 'A');
    assert(comfy[0].message == large);
    assert(webui[0].message == large);
    if is_running(ctx, 8188) {
        assert(comfy[1] == in_use_warning("ComfyUI"@, 8188));
    }
    if is_running(ctx, 7860) {
        assert(webui[1] == in_use_warning("Automatic1111"@, 7860));
    }
}

} // verus!
