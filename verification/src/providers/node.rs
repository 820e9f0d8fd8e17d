//! Node.js: package manager caches, browser downloads and `node_modules`.
use vstd::prelude::*;
use vstd::string::*;
use crate::model::{
    Candidate, CandidateBuilder, CandidateModel, Group, ProjectModel, ProjectRoot, Regen,
    RegenModel, Tier, Warning,
};
use crate::path::{join, join_path, name_or_empty, name_or_empty_of};
use crate::pipeline::{Provider, ScanContext, discover};
use crate::providers::AnyProvider;
use crate::providers::support::{
    ProjectOffers, addition, any_file, any_file_exists, artifact, artifacts_in_projects, auto_on,
    automatic, cache, download, given, global_cache, hardlink_store_warning, hardlink_warning,
    info, lockfile_warning, no_lockfile_warning, nothing, offer, offers_in_all, project_artifact,
    redownload, start,
};
use crate::text::views;

verus! {

pub struct NodeCaches;

/// npm's own cache.
pub open spec fn npm_offer(ctx: &ScanContext) -> Seq<CandidateModel> {
    let path = join(ctx.paths@.home, ".npm"@);
    given(ctx.disk@.present(path), cache("node.npm-cache"@, Group::Node, "npm cache"@, path)
        .detailed("Downloaded tarballs and metadata under ~/.npm/_cacache."@)
        .returning(auto_on("the next `npm install`"@)))
}

fn npm(ctx: &ScanContext) -> (found: Option<Candidate>)
    ensures
        addition(found) == npm_offer(ctx),
{
    let path = ctx.paths.home_join(".npm");
    match global_cache(ctx, "node.npm-cache", Group::Node, "npm cache", path.as_str()) {
        Some(c) => Some(c
            .detail("Downloaded tarballs and metadata under ~/.npm/_cacache.")
            .regen(automatic("the next `npm install`")).build()),
        None => None,
    }
}

/// The pnpm store: content-addressed, and hardlinked into every project. Some want to keep it.
pub open spec fn pnpm_offer(ctx: &ScanContext, store: Seq<char>) -> Seq<CandidateModel> {
    given(
        ctx.disk@.present(store) && !ctx.config.providers.node.keep_pnpm_store,
        cache("node.pnpm-store"@, Group::Node, "pnpm content-addressable store"@, store)
            .detailed(
                "pnpm stores each package version once and hardlinks it into every project. The bytes shown as `shared` are already counted elsewhere."@,
            )
            .tiered(Tier::Review)
            .returning(download("the npm registry"@))
            .with_warning(hardlink_warning("pnpm"@)),
    )
}

fn pnpm(ctx: &ScanContext, store: &str) -> (found: Option<Candidate>)
    ensures
        addition(found) == pnpm_offer(ctx, store@),
{
    if ctx.disk.has(store) && !ctx.config.providers.node.keep_pnpm_store {
        Some(
            CandidateBuilder::new(
                "node.pnpm-store",
                Group::Node,
                "pnpm content-addressable store",
            ).path(store).detail(
                "pnpm stores each package version once and hardlinks it into every project. The bytes shown as `shared` are already counted elsewhere.",
            ).tier(Tier::Review).regen(redownload("the npm registry")).warn(
                hardlink_store_warning("pnpm"),
            ).build(),
        )
    } else {
        None
    }
}

/// A cache of Yarn.
pub open spec fn yarn_offer(
    ctx: &ScanContext,
    label: Seq<char>,
    path: Seq<char>,
) -> Seq<CandidateModel> {
    given(
        ctx.disk@.present(path),
        cache(
            "node.yarn-cache"@,
            Group::Node,
            label,
            path,
        ).returning(auto_on("the next `yarn install`"@)),
    )
}

fn yarn(ctx: &ScanContext, label: &str, path: &str) -> (found: Option<Candidate>)
    ensures
        addition(found) == yarn_offer(ctx, label@, path@),
{
    match global_cache(ctx, "node.yarn-cache", Group::Node, label, path) {
        Some(c) => Some(c.regen(automatic("the next `yarn install`")).build()),
        None => None,
    }
}

/// Bun's cache.
pub open spec fn bun_offer(ctx: &ScanContext) -> Seq<CandidateModel> {
    let path = join(ctx.paths@.home, ".bun/install/cache"@);
    given(
        ctx.disk@.present(path),
        cache(
            "node.bun-cache"@,
            Group::Node,
            "Bun install cache"@,
            path,
        ).returning(auto_on("the next `bun install`"@)),
    )
}

fn bun(ctx: &ScanContext) -> (found: Option<Candidate>)
    ensures
        addition(found) == bun_offer(ctx),
{
    let path = ctx.paths.home_join(".bun/install/cache");
    match global_cache(ctx, "node.bun-cache", Group::Node, "Bun install cache", path.as_str()) {
        Some(c) => Some(c.regen(automatic("the next `bun install`")).build()),
        None => None,
    }
}

/// Headers for compiling native addons.
pub open spec fn node_gyp_offer(ctx: &ScanContext) -> Seq<CandidateModel> {
    let path = join(ctx.paths@.home, ".node-gyp"@);
    given(ctx.disk@.present(path), cache("node.node-gyp"@, Group::Node, "node-gyp headers"@, path)
        .detailed("Node header archives used to compile native addons."@)
        .returning(download("nodejs.org"@)))
}

fn node_gyp(ctx: &ScanContext) -> (found: Option<Candidate>)
    ensures
        addition(found) == node_gyp_offer(ctx),
{
    let path = ctx.paths.home_join(".node-gyp");
    match global_cache(ctx, "node.node-gyp", Group::Node, "node-gyp headers", path.as_str()) {
        Some(c) => Some(c
            .detail("Node header archives used to compile native addons.")
            .regen(redownload("nodejs.org")).build()),
        None => None,
    }
}

/// Downloaded browsers: large, and a download rather than a rebuild.
pub open spec fn browsers_offer(
    ctx: &ScanContext,
    id: Seq<char>,
    label: Seq<char>,
    path: Seq<char>,
    source: Seq<char>,
) -> Seq<CandidateModel> {
    given(ctx.disk@.present(path), cache(id, Group::Node, label, path)
        .tiered(Tier::Review)
        .returning(download(source))
        .with_warning(info("Re-downloaded automatically, but it is a large download on a slow link."@)))
}

fn browsers(
    ctx: &ScanContext,
    id: &str,
    label: &str,
    path: &str,
    source: &str,
) -> (found: Option<Candidate>)
    ensures
        addition(found) == browsers_offer(ctx, id@, label@, path@, source@),
{
    if ctx.disk.has(path) {
        Some(CandidateBuilder::new(id, Group::Node, label).path(path)
            .tier(Tier::Review)
            .regen(redownload(source))
            .warn(Warning::info("Re-downloaded automatically, but it is a large download on a slow link.")).build())
    } else {
        None
    }
}

impl Provider for NodeCaches {
    open spec fn name(&self) -> Seq<char> {
        "node.caches"@
    }

    open spec fn marks(&self) -> Seq<Seq<char>> {
        Seq::empty()
    }

    open spec fn offers(&self, ctx: &ScanContext) -> Seq<CandidateModel> {
        nothing()
            + npm_offer(ctx)
            + pnpm_offer(ctx, join(ctx.paths@.home, "Library/pnpm/store"@))
            + pnpm_offer(ctx, join(ctx.paths@.home, ".pnpm-store"@))
            + pnpm_offer(ctx, join(ctx.paths@.home, ".local/share/pnpm/store"@))
            + yarn_offer(ctx, "Yarn v1 cache"@, join(ctx.paths@.cache_dir, "Yarn"@))
            + yarn_offer(ctx, "Yarn Berry cache"@, join(ctx.paths@.home, ".yarn/berry/cache"@))
            + yarn_offer(ctx, "Yarn global cache"@, join(ctx.paths@.home, ".cache/yarn"@))
            + bun_offer(ctx)
            + node_gyp_offer(ctx)
            + browsers_offer(
                ctx,
                "node.playwright"@,
                "Playwright browsers"@,
                join(ctx.paths@.cache_dir, "ms-playwright"@),
                "Playwright CDN"@,
            )
            + browsers_offer(
                ctx,
                "node.puppeteer"@,
                "Puppeteer browsers"@,
                join(ctx.paths@.cache_dir, "puppeteer"@),
                "the Chromium CDN"@,
            )
            + browsers_offer(
                ctx,
                "node.cypress"@,
                "Cypress binaries"@,
                join(ctx.paths@.cache_dir, "Cypress"@),
                "the Cypress CDN"@,
            )
            + browsers_offer(
                ctx,
                "node.electron"@,
                "Electron binaries"@,
                join(ctx.paths@.cache_dir, "electron"@),
                "the Electron CDN"@,
            )
    }

    fn id(&self) -> (s: &'static str) {
        "node.caches"
    }

    fn markers(&self) -> (v: Vec<&'static str>) {
        let v: Vec<&'static str> = Vec::new();
        assert(views(v@) =~= Seq::empty());
        v
    }

    fn discover(&self, ctx: &ScanContext) -> (out: Vec<Candidate>) {
        let mut out = start();
        offer(&mut out, npm(ctx));
        offer(&mut out, pnpm(ctx, ctx.paths.home_join("Library/pnpm/store").as_str()));
        offer(&mut out, pnpm(ctx, ctx.paths.home_join(".pnpm-store").as_str()));
        offer(&mut out, pnpm(ctx, ctx.paths.home_join(".local/share/pnpm/store").as_str()));
        offer(
            &mut out,
            yarn(ctx, "Yarn v1 cache", join_path(ctx.paths.cache_dir().as_str(), "Yarn").as_str()),
        );
        offer(
            &mut out,
            yarn(ctx, "Yarn Berry cache", ctx.paths.home_join(".yarn/berry/cache").as_str()),
        );
        offer(
            &mut out,
            yarn(ctx, "Yarn global cache", ctx.paths.home_join(".cache/yarn").as_str()),
        );
        offer(&mut out, bun(ctx));
        offer(&mut out, node_gyp(ctx));
        offer(
            &mut out,
            browsers(
                ctx,
                "node.playwright",
                "Playwright browsers",
                join_path(ctx.paths.cache_dir().as_str(), "ms-playwright").as_str(),
                "Playwright CDN",
            ),
        );
        offer(
            &mut out,
            browsers(
                ctx,
                "node.puppeteer",
                "Puppeteer browsers",
                join_path(ctx.paths.cache_dir().as_str(), "puppeteer").as_str(),
                "the Chromium CDN",
            ),
        );
        offer(
            &mut out,
            browsers(
                ctx,
                "node.cypress",
                "Cypress binaries",
                join_path(ctx.paths.cache_dir().as_str(), "Cypress").as_str(),
                "the Cypress CDN",
            ),
        );
        offer(
            &mut out,
            browsers(
                ctx,
                "node.electron",
                "Electron binaries",
                join_path(ctx.paths.cache_dir().as_str(), "electron").as_str(),
                "the Electron CDN",
            ),
        );
        out
    }
}

/// Files that pin exact dependency versions.
pub open spec fn lockfiles() -> Seq<Seq<char>> {
    seq![
        "package-lock.json"@,
        "yarn.lock"@,
        "pnpm-lock.yaml"@,
        "bun.lockb"@,
        "bun.lock"@,
        "npm-shrinkwrap.json"@,
    ]
}

pub struct NodeModules;

impl ProjectOffers for NodeModules {
    open spec fn offers_in(&self, ctx: &ScanContext, project: ProjectModel) -> Seq<CandidateModel> {
        let at = project.path;
        let locked = any_file(ctx.disk@, at, lockfiles());
        nothing()
            + modules_offer(ctx, at, locked)
            + build_output_offer(ctx, at, "Next.js build output"@, ".next"@)
            + build_output_offer(ctx, at, "Nuxt build output"@, ".nuxt"@)
            + build_output_offer(ctx, at, "Turborepo cache"@, ".turbo"@)
            + build_output_offer(ctx, at, "Parcel cache"@, ".parcel-cache"@)
            + build_output_offer(ctx, at, "SvelteKit build output"@, ".svelte-kit"@)
            + build_output_offer(ctx, at, "Angular cache"@, ".angular"@)
    }

    fn build(&self, ctx: &ScanContext, project: &ProjectRoot) -> (out: Vec<Candidate>) {
        let at = project.path.as_str();
        let mut out = start();
        let names = [
            "package-lock.json",
            "yarn.lock",
            "pnpm-lock.yaml",
            "bun.lockb",
            "bun.lock",
            "npm-shrinkwrap.json",
        ];
        assert(views(names@) =~= lockfiles());
        let locked = any_file_exists(ctx, at, &names);
        offer(&mut out, modules(ctx, at, locked));
        offer(&mut out, build_output(ctx, at, "Next.js build output", ".next"));
        offer(&mut out, build_output(ctx, at, "Nuxt build output", ".nuxt"));
        offer(&mut out, build_output(ctx, at, "Turborepo cache", ".turbo"));
        offer(&mut out, build_output(ctx, at, "Parcel cache", ".parcel-cache"));
        offer(&mut out, build_output(ctx, at, "SvelteKit build output", ".svelte-kit"));
        offer(&mut out, build_output(ctx, at, "Angular cache", ".angular"));
        out
    }
}

/// Installed dependencies. Without a lockfile a reinstall is a gamble, not a formality.
pub open spec fn modules_offer(ctx: &ScanContext, at: Seq<char>, locked: bool) -> Seq<
    CandidateModel,
> {
    let path = join(at, "node_modules"@);
    given(
        ctx.disk@.is_dir(path),
        artifact("node.modules"@, Group::Node, "node_modules"@, at, path)
            .detailed("Installed dependencies for `"@ + name_or_empty(at) + "`."@)
            .tiered(if locked { Tier::Safe } else { Tier::Caution })
            .returning(if locked { download("the npm registry"@) } else { RegenModel::Never })
            .warned_if(!locked, lockfile_warning("npm install"@)),
    )
}

fn modules(ctx: &ScanContext, at: &str, locked: bool) -> (found: Option<Candidate>)
    ensures
        addition(found) == modules_offer(ctx, at@, locked),
{
    match project_artifact(
        ctx,
        "node.modules",
        Group::Node,
        "node_modules",
        at,
        join_path(at, "node_modules").as_str(),
    ) {
        Some(c) => Some(
            c.detail(
                "Installed dependencies for `".to_owned().concat(
                    name_or_empty_of(at).as_str(),
                ).concat("`.").as_str(),
            ).tier(
                if locked {
                    Tier::Safe
                } else {
                    Tier::Caution
                },
            ).regen(
                if locked {
                    redownload("the npm registry")
                } else {
                    Regen::Never
                },
            ).warn_if(!locked, no_lockfile_warning("npm install")).build(),
        ),
        None => None,
    }
}

/// Framework build output: always regenerated, never precious.
pub open spec fn build_output_offer(
    ctx: &ScanContext,
    at: Seq<char>,
    label: Seq<char>,
    dir: Seq<char>,
) -> Seq<CandidateModel> {
    let path = join(at, dir);
    given(
        ctx.disk@.is_dir(path),
        artifact(
            "node.build-output"@,
            Group::Node,
            label,
            at,
            path,
        ).returning(auto_on("the next build"@)),
    )
}

fn build_output(ctx: &ScanContext, at: &str, label: &str, dir: &str) -> (found: Option<Candidate>)
    ensures
        addition(found) == build_output_offer(ctx, at@, label@, dir@),
{
    let path = join_path(at, dir);
    match project_artifact(ctx, "node.build-output", Group::Node, label, at, path.as_str()) {
        Some(c) => Some(c.regen(automatic("the next build")).build()),
        None => None,
    }
}

impl Provider for NodeModules {
    open spec fn name(&self) -> Seq<char> {
        "node.modules"@
    }

    open spec fn marks(&self) -> Seq<Seq<char>> {
        seq!["package.json"@]
    }

    open spec fn offers(&self, ctx: &ScanContext) -> Seq<CandidateModel> {
        if ctx.config.providers.node.offer_node_modules {
            offers_in_all(self, ctx, ctx.marked(seq!["package.json"@]))
        } else {
            nothing()
        }
    }

    fn id(&self) -> (s: &'static str) {
        "node.modules"
    }

    fn markers(&self) -> (v: Vec<&'static str>) {
        let v = vec!["package.json"];
        assert(views(v@) =~= seq!["package.json"@]);
        v
    }

    fn discover(&self, ctx: &ScanContext) -> (out: Vec<Candidate>) {
        if !ctx.config.providers.node.offer_node_modules {
            return start();
        }
        let markers = ["package.json"];
        assert(views(markers@) =~= seq!["package.json"@]);
        artifacts_in_projects(ctx, &markers, self)
    }
}

/// The providers of this module.
pub fn providers() -> (v: Vec<AnyProvider>)
    ensures
        v@ == seq![AnyProvider::NodeCaches(NodeCaches), AnyProvider::NodeModules(NodeModules)],
{
    let v = vec![AnyProvider::NodeCaches(NodeCaches), AnyProvider::NodeModules(NodeModules)];
    assert(v@ =~= seq![AnyProvider::NodeCaches(NodeCaches), AnyProvider::NodeModules(NodeModules)]);
    v
}

} // verus!
