//! Go: the module cache and the build cache.
use vstd::prelude::*;
use vstd::string::*;
use crate::model::{Candidate, CandidateBuilder, CandidateModel, Group, Tier, Warning};

use crate::pipeline::{Provider, ScanContext, discover};
use crate::providers::AnyProvider;
use crate::providers::support::{
    addition, auto_on, automatic, cache, caution, download, given, global_cache, info, nothing,
    offer, redownload, shell, start,
};
use crate::text::views;

verus! {

pub struct GoCaches;

/// Pure derived data, and the safest large item Go has.
pub open spec fn build_cache_offer(ctx: &ScanContext) -> Seq<CandidateModel> {
    let path = ctx.paths@.go_build_cache;
    given(ctx.disk@.present(path), cache("go.build-cache"@, Group::Go, "Go build cache"@, path)
        .detailed("Compiled package objects, keyed by content hash."@)
        .returning(auto_on("the next `go build`"@)))
}

fn build_cache(ctx: &ScanContext) -> (found: Option<Candidate>)
    ensures
        addition(found) == build_cache_offer(ctx),
{
    let path = ctx.paths.go_build_cache();
    match global_cache(ctx, "go.build-cache", Group::Go, "Go build cache", path.as_str()) {
        Some(c) => Some(c
            .detail("Compiled package objects, keyed by content hash.")
            .regen(automatic("the next `go build`")).build()),
        None => None,
    }
}

/// The module cache is written read-only: it is cleaned by the toolchain's own command where
/// that is there, and by a forced delete otherwise.
pub open spec fn mod_cache_offer(ctx: &ScanContext) -> Seq<CandidateModel> {
    let path = ctx.paths@.go_mod_cache;
    let base = cache("go.mod-cache"@, Group::Go, "Go module cache"@, path).detailed(
        "Downloaded module sources. Written read-only by the Go toolchain."@,
    ).tiered(Tier::Review).returning(download("the Go module proxy"@)).with_warning(
        info(
            "Go marks these files read-only, so this is cleaned with `go clean -modcache` rather than a plain delete."@,
        ),
    );
    given(
        ctx.disk@.is_dir(path),
        if ctx.disk@.commands.contains("go"@) {
            base.running("go"@, seq!["clean"@, "-modcache"@])
        } else {
            base.with_warning(
                caution(
                    "`go` is not on PATH, so this will be removed with a forced delete instead."@,
                ),
            )
        },
    )
}

fn mod_cache(ctx: &ScanContext) -> (found: Option<Candidate>)
    ensures
        addition(found) == mod_cache_offer(ctx),
{
    let path = ctx.paths.go_mod_cache();
    if !ctx.disk.is_dir(path.as_str()) {
        return None;
    }
    let builder = CandidateBuilder::new("go.mod-cache", Group::Go, "Go module cache").path(
        path.as_str(),
    ).detail("Downloaded module sources. Written read-only by the Go toolchain.").tier(
        Tier::Review,
    ).regen(redownload("the Go module proxy")).warn(
        Warning::info(
            "Go marks these files read-only, so this is cleaned with `go clean -modcache` rather than a plain delete.",
        ),
    );
    if ctx.disk.has_command("go") {
        let args = ["clean", "-modcache"];
        assert(views(args@) =~= seq!["clean"@, "-modcache"@]);
        Some(builder.action(shell("go", &args)).build())
    } else {
        Some(
            builder.warn(
                Warning::caution(
                    "`go` is not on PATH, so this will be removed with a forced delete instead.",
                ),
            ).build(),
        )
    }
}

impl Provider for GoCaches {
    open spec fn name(&self) -> Seq<char> {
        "go.caches"@
    }

    open spec fn marks(&self) -> Seq<Seq<char>> {
        seq!["go.mod"@]
    }

    open spec fn offers(&self, ctx: &ScanContext) -> Seq<CandidateModel> {
        nothing()
            + build_cache_offer(ctx)
            + mod_cache_offer(ctx)
    }

    fn id(&self) -> (s: &'static str) {
        "go.caches"
    }

    fn markers(&self) -> (v: Vec<&'static str>) {
        let v = vec!["go.mod"];
        assert(views(v@) =~= seq!["go.mod"@]);
        v
    }

    fn discover(&self, ctx: &ScanContext) -> (out: Vec<Candidate>) {
        let mut out = start();
        offer(&mut out, build_cache(ctx));
        offer(&mut out, mod_cache(ctx));
        out
    }
}

/// The providers of this module.
pub fn providers() -> (v: Vec<AnyProvider>)
    ensures
        v@ == seq![AnyProvider::GoCaches(GoCaches)],
{
    let v = vec![AnyProvider::GoCaches(GoCaches)];
    assert(v@ =~= seq![AnyProvider::GoCaches(GoCaches)]);
    v
}

} // verus!
