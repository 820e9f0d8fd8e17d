//! Rust: the cargo home caches and project `target/` directories.
use vstd::prelude::*;
use vstd::string::*;
use crate::model::{
    Candidate, CandidateBuilder, CandidateModel, Group, ProjectModel, ProjectRoot, Regen, Tier,
    Warning,
};
use crate::path::{join, join_path, name_or_empty, name_or_empty_of};
use crate::pipeline::{Provider, ScanContext, discover};
use crate::providers::AnyProvider;
use crate::providers::support::{
    ProjectOffers, SubdirOffers, addition, artifact, artifacts_in_projects, auto_on, automatic,
    cache, caution, download, each_subdir, given, global_cache, info, nothing, offer, offer_all,
    offers_in_all, offers_of_all, project_artifact, rebuild, redownload, start,
};
use crate::text::views;

verus! {

pub struct RustCaches;

/// Unpacked crates: usually larger than the archives, and free to rebuild.
pub open spec fn registry_src_offer(ctx: &ScanContext) -> Seq<CandidateModel> {
    let path = join(ctx.paths@.cargo_home, "registry/src"@);
    given(ctx.disk@.present(path), cache("rust.registry-src"@, Group::Rust, "cargo registry sources"@, path)
        .detailed("Unpacked crate sources. Re-extracted from the local .crate archives."@)
        .returning(auto_on("the next `cargo build`"@)))
}

fn registry_src(ctx: &ScanContext) -> (found: Option<Candidate>)
    ensures
        addition(found) == registry_src_offer(ctx),
{
    let path = join_path(ctx.paths.cargo_home().as_str(), "registry/src");
    match global_cache(
        ctx,
        "rust.registry-src",
        Group::Rust,
        "cargo registry sources",
        path.as_str(),
    ) {
        Some(c) => Some(c
            .detail("Unpacked crate sources. Re-extracted from the local .crate archives.")
            .regen(automatic("the next `cargo build`")).build()),
        None => None,
    }
}

/// Downloaded crates.
pub open spec fn registry_cache_offer(ctx: &ScanContext) -> Seq<CandidateModel> {
    let path = join(ctx.paths@.cargo_home, "registry/cache"@);
    given(ctx.disk@.present(path), cache("rust.registry-cache"@, Group::Rust, "cargo registry archives"@, path)
        .detailed("Downloaded .crate archives."@)
        .tiered(Tier::Review)
        .returning(download("crates.io"@))
        .with_warning(info("Removing this forces a re-download; offline builds will fail until then."@)))
}

fn registry_cache(ctx: &ScanContext) -> (found: Option<Candidate>)
    ensures
        addition(found) == registry_cache_offer(ctx),
{
    let path = join_path(ctx.paths.cargo_home().as_str(), "registry/cache");
    match global_cache(
        ctx,
        "rust.registry-cache",
        Group::Rust,
        "cargo registry archives",
        path.as_str(),
    ) {
        Some(c) => Some(c
            .detail("Downloaded .crate archives.")
            .tier(Tier::Review)
            .regen(redownload("crates.io"))
            .warn(Warning::info("Removing this forces a re-download; offline builds will fail until then.")).build()),
        None => None,
    }
}

/// Clones of git dependencies.
pub open spec fn git_checkouts_offer(ctx: &ScanContext) -> Seq<CandidateModel> {
    let path = join(ctx.paths@.cargo_home, "git"@);
    given(ctx.disk@.present(path), cache("rust.git-checkouts"@, Group::Rust, "cargo git checkouts"@, path)
        .detailed("Clones of git dependencies."@)
        .tiered(Tier::Review)
        .returning(download("the upstream repositories"@)))
}

fn git_checkouts(ctx: &ScanContext) -> (found: Option<Candidate>)
    ensures
        addition(found) == git_checkouts_offer(ctx),
{
    let path = join_path(ctx.paths.cargo_home().as_str(), "git");
    match global_cache(
        ctx,
        "rust.git-checkouts",
        Group::Rust,
        "cargo git checkouts",
        path.as_str(),
    ) {
        Some(c) => Some(c
            .detail("Clones of git dependencies.")
            .tier(Tier::Review)
            .regen(redownload("the upstream repositories")).build()),
        None => None,
    }
}

/// A cache that the next build fills again.
pub open spec fn rebuilt_offer(
    ctx: &ScanContext,
    id: Seq<char>,
    label: Seq<char>,
    path: Seq<char>,
) -> Seq<CandidateModel> {
    given(
        ctx.disk@.present(path),
        cache(id, Group::Rust, label, path).returning(auto_on("the next build"@)),
    )
}

fn rebuilt(ctx: &ScanContext, id: &str, label: &str, path: &str) -> (found: Option<Candidate>)
    ensures
        addition(found) == rebuilt_offer(ctx, id@, label@, path@),
{
    match global_cache(ctx, id, Group::Rust, label, path) {
        Some(c) => Some(c.regen(automatic("the next build")).build()),
        None => None,
    }
}

/// An installed toolchain.
pub struct Toolchain;

impl SubdirOffers for Toolchain {
    open spec fn offer_of(&self, ctx: &ScanContext, dir: Seq<char>, name: Seq<char>) -> Seq<
        CandidateModel,
    > {
        given(
            true,
            cache(
                "rust.toolchain"@,
                Group::Rust,
                "rust toolchain: "@ + name,
                join(dir, name),
            ).detailed("An installed rustup toolchain."@).tiered(Tier::Review).returning(
                download("static.rust-lang.org"@),
            ).with_warning(
                caution(
                    "Any project pinning `"@ + name
                        + "` in rust-toolchain.toml will not build until you reinstall it."@,
                ),
            ),
        )
    }

    fn build(&self, ctx: &ScanContext, dir: &str, name: &str) -> (found: Option<Candidate>) {
        let label = "rust toolchain: ".to_owned().concat(name);
        let warning = "Any project pinning `".to_owned().concat(name).concat(
            "` in rust-toolchain.toml will not build until you reinstall it.",
        );
        Some(
            CandidateBuilder::new("rust.toolchain", Group::Rust, label.as_str()).path(
                join_path(dir, name).as_str(),
            ).detail("An installed rustup toolchain.").tier(Tier::Review).regen(
                redownload("static.rust-lang.org"),
            ).warn(Warning::caution(warning.as_str())).build(),
        )
    }
}

/// Installed toolchains, where there is more than one: the only one is never offered.
pub open spec fn toolchains_offer(ctx: &ScanContext) -> Seq<CandidateModel> {
    let dir = join(ctx.paths@.home, ".rustup/toolchains"@);
    let installed = ctx.disk@.subdir_names(dir);
    if ctx.disk@.is_dir(dir) && installed.len() > 1 {
        offers_of_all(&Toolchain, ctx, dir, installed)
    } else {
        nothing()
    }
}

fn toolchains(ctx: &ScanContext) -> (found: Vec<Candidate>)
    ensures
        views(found@) == toolchains_offer(ctx),
{
    let dir = ctx.paths.home_join(".rustup/toolchains");
    if !ctx.disk.is_dir(dir.as_str()) {
        return start();
    }
    let installed = ctx.disk.subdirs(dir.as_str());
    assert(views(installed@).len() == installed@.len());
    if installed.len() > 1 {
        each_subdir(ctx, dir.as_str(), &Toolchain)
    } else {
        start()
    }
}

impl Provider for RustCaches {
    open spec fn name(&self) -> Seq<char> {
        "rust.caches"@
    }

    open spec fn marks(&self) -> Seq<Seq<char>> {
        Seq::empty()
    }

    open spec fn offers(&self, ctx: &ScanContext) -> Seq<CandidateModel> {
        nothing()
            + registry_src_offer(ctx)
            + registry_cache_offer(ctx)
            + git_checkouts_offer(ctx)
            + rebuilt_offer(
                ctx,
                "rust.sccache"@,
                "sccache"@,
                join(ctx.paths@.cache_dir, "sccache"@),
            )
            + rebuilt_offer(
                ctx,
                "rust.rustup-downloads"@,
                "rustup downloads"@,
                join(ctx.paths@.home, ".rustup/downloads"@),
            )
            + rebuilt_offer(
                ctx,
                "rust.rustup-tmp"@,
                "rustup temp files"@,
                join(ctx.paths@.home, ".rustup/tmp"@),
            )
            + toolchains_offer(ctx)
    }

    fn id(&self) -> (s: &'static str) {
        "rust.caches"
    }

    fn markers(&self) -> (v: Vec<&'static str>) {
        let v: Vec<&'static str> = Vec::new();
        assert(views(v@) =~= Seq::empty());
        v
    }

    fn discover(&self, ctx: &ScanContext) -> (out: Vec<Candidate>) {
        let mut out = start();
        offer(&mut out, registry_src(ctx));
        offer(&mut out, registry_cache(ctx));
        offer(&mut out, git_checkouts(ctx));
        offer(
            &mut out,
            rebuilt(
                ctx,
                "rust.sccache",
                "sccache",
                join_path(ctx.paths.cache_dir().as_str(), "sccache").as_str(),
            ),
        );
        offer(
            &mut out,
            rebuilt(
                ctx,
                "rust.rustup-downloads",
                "rustup downloads",
                ctx.paths.home_join(".rustup/downloads").as_str(),
            ),
        );
        offer(
            &mut out,
            rebuilt(
                ctx,
                "rust.rustup-tmp",
                "rustup temp files",
                ctx.paths.home_join(".rustup/tmp").as_str(),
            ),
        );
        offer_all(&mut out, toolchains(ctx));
        out
    }
}

pub struct RustTargets;

/// The build output of a project.
pub open spec fn target_offer(ctx: &ScanContext, at: Seq<char>) -> Seq<CandidateModel> {
    let path = join(at, "target"@);
    given(
        ctx.disk@.is_dir(path),
        artifact("rust.target"@, Group::Rust, "target/"@, at, path).detailed(
            "Build output for `"@ + name_or_empty(at)
                + "`. Often the single largest directory in a Rust project."@,
        ).returning(rebuild(4)).with_warning(
            info(
                "Fully rebuilt by the next `cargo build`, but that build will be a cold one."@,
            ),
        ),
    )
}

fn target(ctx: &ScanContext, at: &str) -> (found: Option<Candidate>)
    ensures
        addition(found) == target_offer(ctx, at@),
{
    let path = join_path(at, "target");
    match project_artifact(ctx, "rust.target", Group::Rust, "target/", at, path.as_str()) {
        Some(c) => {
            let detail = "Build output for `".to_owned().concat(
                name_or_empty_of(at).as_str(),
            ).concat("`. Often the single largest directory in a Rust project.");
            Some(
                c.detail(detail.as_str()).regen(Regen::Rebuild { minutes: 4 }).warn(
                    Warning::info(
                        "Fully rebuilt by the next `cargo build`, but that build will be a cold one.",
                    ),
                ).build(),
            )
        },
        None => None,
    }
}

impl ProjectOffers for RustTargets {
    open spec fn offers_in(&self, ctx: &ScanContext, project: ProjectModel) -> Seq<CandidateModel> {
        nothing() + target_offer(ctx, project.path)
    }

    fn build(&self, ctx: &ScanContext, project: &ProjectRoot) -> (out: Vec<Candidate>) {
        let mut out = start();
        offer(&mut out, target(ctx, project.path.as_str()));
        out
    }
}

impl Provider for RustTargets {
    open spec fn name(&self) -> Seq<char> {
        "rust.target"@
    }

    open spec fn marks(&self) -> Seq<Seq<char>> {
        seq!["Cargo.toml"@]
    }

    open spec fn offers(&self, ctx: &ScanContext) -> Seq<CandidateModel> {
        offers_in_all(self, ctx, ctx.marked(seq!["Cargo.toml"@]))
    }

    fn id(&self) -> (s: &'static str) {
        "rust.target"
    }

    fn markers(&self) -> (v: Vec<&'static str>) {
        let v = vec!["Cargo.toml"];
        assert(views(v@) =~= seq!["Cargo.toml"@]);
        v
    }

    fn discover(&self, ctx: &ScanContext) -> (out: Vec<Candidate>) {
        let markers = ["Cargo.toml"];
        assert(views(markers@) =~= seq!["Cargo.toml"@]);
        artifacts_in_projects(ctx, &markers, self)
    }
}

/// The providers of this module.
pub fn providers() -> (v: Vec<AnyProvider>)
    ensures
        v@ == seq![AnyProvider::RustCaches(RustCaches), AnyProvider::RustTargets(RustTargets)],
{
    let v = vec![AnyProvider::RustCaches(RustCaches), AnyProvider::RustTargets(RustTargets)];
    assert(v@ =~= seq![AnyProvider::RustCaches(RustCaches), AnyProvider::RustTargets(RustTargets)]);
    v
}

} // verus!
