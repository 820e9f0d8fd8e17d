//! JVM: Maven, Gradle, sbt, Ivy and their project build directories.
use vstd::prelude::*;
use vstd::string::*;
use crate::disk::DirTree;
use crate::model::{
    Candidate, CandidateBuilder, CandidateModel, Group, ProjectModel, ProjectRoot, Regen,
    RegenModel, Tier, Warning,
};
use crate::path::{join, join_path};
use crate::pipeline::{Provider, ScanContext, discover};
use crate::providers::AnyProvider;
use crate::providers::support::{
    ProjectOffers, addition, artifact, artifacts_in_projects, auto_on, automatic, cache, danger,
    download, given, global_cache, info, nothing, offer, offers_in_all, project_artifact, rebuild,
    redownload, start,
};
use crate::text::{decimal, decimal_text, ends_with, has_suffix, same, views};

verus! {

/// Cap on how many directories are looked at for locally installed artifacts. Discovery must stay
/// cheap; a bounded sample is enough to answer whether the repository holds anything that is not
/// re-downloadable.
pub const MAVEN_SCAN_BUDGET: usize = 4000;

/// The directories below `tree`, each before what is in it, added to `out`. Maven lays out
/// `group/artifact/version`, so there is no reason to go deep, nor to list very many.
pub open spec fn dirs_below<'a>(
    out: Seq<&'a DirTree>,
    tree: DirTree,
    depth: nat,
) -> Seq<&'a DirTree>
    decreases (if depth <= 6 { 7 - depth } else { 0 }), 1int, 0int,
{
    if depth > 6 || out.len() > 20_000 || tree.names is None {
        out
    } else {
        dirs_among(out, tree.subdirs@, depth)
    }
}

/// The directories of a listing and below them, added to `out`.
pub open spec fn dirs_among<'a>(
    out: Seq<&'a DirTree>,
    subdirs: Seq<DirTree>,
    depth: nat,
) -> Seq<&'a DirTree>
    decreases (if depth <= 6 { 7 - depth } else { 0 }), 0int, subdirs.len(),
{
    if subdirs.len() == 0 || depth > 6 {
        out
    } else {
        let before = dirs_among(out, subdirs.drop_last(), depth);
        dirs_below(before.push(&subdirs.last()), subdirs.last(), depth + 1)
    }
}

fn collect_dirs<'a>(tree: &'a DirTree, depth: u8, out: &mut Vec<&'a DirTree>)
    requires
        depth <= 7,
    ensures
        final(out)@ == dirs_below(old(out)@, *tree, depth as nat),
    decreases 7 - depth,
{
    if depth > 6 || out.len() > 20_000 || tree.names.is_none() {
        return;
    }
    let ghost before = out@;
    let mut i: usize = 0;
    assert(tree.subdirs@.take(0) =~= Seq::empty());
    while i < tree.subdirs.len()
        invariant
            i <= tree.subdirs@.len(),
            depth <= 6,
            out@ == dirs_among(before, tree.subdirs@.take(i as int), depth as nat),
        decreases tree.subdirs@.len() - i,
    {
        assert(tree.subdirs@.take(i + 1).drop_last() =~= tree.subdirs@.take(i as int));
        assert(tree.subdirs@.take(i + 1).last() == tree.subdirs@[i as int]);
        out.push(&tree.subdirs[i]);
        collect_dirs(&tree.subdirs[i], depth + 1, out);
        i += 1;
    }
    assert(tree.subdirs@.take(tree.subdirs@.len() as int) =~= tree.subdirs@);
}

/// A directory holds an archive, and no record of where it was downloaded from: it was installed
/// from this machine.
pub open spec fn holds_local_artifact(dir: DirTree) -> bool {
    match dir.names {
        Some(names) => {
            let names = views(names@);
            &&& exists|i: int| 0 <= i < names.len() && is_archive(#[trigger] names[i])
            &&& !names.contains("_remote.repositories"@)
        },
        None => false,
    }
}

/// The name of a packaged artifact, other than the download record.
pub open spec fn is_archive(name: Seq<char>) -> bool {
    name != "_remote.repositories"@ && (has_suffix(name, ".jar"@) || has_suffix(name, ".aar"@))
}

fn is_locally_installed(dir: &DirTree) -> (r: bool)
    ensures
        r == holds_local_artifact(*dir),
{
    let names = match &dir.names {
        Some(names) => names,
        None => return false,
    };
    let mut has_jar = false;
    let mut has_remote_marker = false;
    let mut i: usize = 0;
    while i < names.len()
        invariant
            i <= names@.len(),
            has_jar == exists|k: int|
                0 <= k < i && is_archive(#[trigger] views(names@)[k]),
            has_remote_marker == exists|k: int|
                0 <= k < i && #[trigger] views(names@)[k] == "_remote.repositories"@,
        decreases names@.len() - i,
    {
        let name = names[i].as_str();
        assert(views(names@)[i as int] == name@);
        if same(name, "_remote.repositories") {
            has_remote_marker = true;
        } else {
            if ends_with(name, ".jar") || ends_with(name, ".aar") {
                has_jar = true;
            }
        }
        i += 1;
    }
    has_jar && !has_remote_marker
}

/// How many of the directories hold a locally installed artifact.
pub open spec fn local_among(dirs: Seq<&DirTree>) -> nat
    decreases dirs.len(),
{
    if dirs.len() == 0 {
        0
    } else {
        local_among(dirs.drop_last()) + (if holds_local_artifact(*dirs.last()) {
            1nat
        } else {
            0nat
        })
    }
}

/// Result of the bounded scan for locally installed Maven artifacts.
#[derive(Debug, Clone, Copy, PartialEq, Eq, Structural)]
pub struct LocalArtifacts {
    pub found: usize,
    /// The search was cut short, so `found` is a floor rather than an exact count.
    pub truncated: bool,
}

/// What a search with a budget reports: it stops at the budget, and once it has found enough to
/// say "several".
pub open spec fn local_artifacts(dirs: Seq<&DirTree>, budget: nat) -> LocalArtifacts {
    let cut = dirs.len() > budget;
    let found = local_among(
        if cut {
            dirs.take(budget as int)
        } else {
            dirs
        },
    );
    if found >= 25 {
        LocalArtifacts { found: 25, truncated: true }
    } else {
        LocalArtifacts { found: found as usize, truncated: cut }
    }
}

proof fn lemma_local_among_grows(dirs: Seq<&DirTree>, n: int)
    requires
        0 <= n <= dirs.len(),
    ensures
        local_among(dirs.take(n)) <= local_among(dirs),
    decreases dirs.len(),
{
    if n < dirs.len() {
        lemma_local_among_grows(dirs.drop_last(), n);
        assert(dirs.drop_last().take(n) =~= dirs.take(n));
    } else {
        assert(dirs.take(n) =~= dirs);
    }
}

/// Count directories that hold an archive but no `_remote.repositories`.
///
/// Maven writes that file next to anything it downloaded. An archive without one was produced by
/// `mvn install` on this machine and exists nowhere else, so the whole repository has to be
/// treated as irreplaceable.
pub fn count_locally_installed(repo: &DirTree, budget: usize) -> (r: LocalArtifacts)
    ensures
        r == local_artifacts(dirs_below(Seq::empty(), *repo, 0), budget as nat),
{
    let mut dirs: Vec<&DirTree> = Vec::new();
    assert(dirs@ =~= Seq::empty());
    collect_dirs(repo, 0, &mut dirs);
    let total: usize = dirs.len();
    let cut = total > budget;
    let end: usize = if cut {
        budget
    } else {
        total
    };
    let ghost looked_at = dirs@.take(end as int);
    assert(!cut ==> looked_at =~= dirs@);
    let mut found: usize = 0;
    let mut i: usize = 0;
    assert(dirs@.take(0) =~= Seq::empty());
    while i < end
        invariant
            i <= end <= dirs@.len(),
            found < 25,
            found == local_among(dirs@.take(i as int)),
            looked_at == dirs@.take(end as int),
            cut == (dirs@.len() > budget),
            looked_at == (if cut { dirs@.take(budget as int) } else { dirs@ }),
            dirs@ == dirs_below(Seq::empty(), *repo, 0),
        decreases end - i,
    {
        assert(dirs@.take(i + 1).drop_last() =~= dirs@.take(i as int));
        if is_locally_installed(dirs[i]) {
            found += 1;
            if found >= 25 {
                proof {
                    lemma_local_among_grows(looked_at, i + 1);
                    assert(looked_at.take(i + 1) =~= dirs@.take(i + 1));
                }
                return LocalArtifacts { found, truncated: true };
            }
        }
        i += 1;
    }
    LocalArtifacts { found, truncated: cut }
}

pub struct JvmCaches;

/// Gradle's caches: large, and fully regenerated.
pub open spec fn gradle_offer(
    ctx: &ScanContext,
    id: Seq<char>,
    label: Seq<char>,
    path: Seq<char>,
    detail: Seq<char>,
) -> Seq<CandidateModel> {
    given(ctx.disk@.present(path), cache(id, Group::Jvm, label, path)
        .detailed(detail)
        .returning(download("Maven Central and services.gradle.org"@)))
}

fn gradle(
    ctx: &ScanContext,
    id: &str,
    label: &str,
    path: &str,
    detail: &str,
) -> (found: Option<Candidate>)
    ensures
        addition(found) == gradle_offer(ctx, id@, label@, path@, detail@),
{
    match global_cache(ctx, id, Group::Jvm, label, path) {
        Some(c) => Some(c
            .detail(detail)
            .regen(redownload("Maven Central and services.gradle.org")).build()),
        None => None,
    }
}

/// The local repository, which needs care: `mvn install` puts artifacts here that exist in no
/// remote repository, and nothing tells them apart at a glance.
pub open spec fn repository_offer(ctx: &ScanContext) -> Seq<CandidateModel> {
    let path = join(ctx.paths@.home, ".m2/repository"@);
    let local = local_artifacts(
        dirs_below(Seq::empty(), ctx.disk@.maven, 0),
        MAVEN_SCAN_BUDGET as nat,
    );
    let irreplaceable = local.found > 0;
    given(
        ctx.disk@.is_dir(path),
        cache("jvm.maven-repo"@, Group::Jvm, "Maven local repository"@, path).detailed(
            "Every dependency Maven has ever downloaded, plus anything you have `mvn install`ed."@,
        ).tiered(
            if irreplaceable {
                Tier::Caution
            } else {
                Tier::Review
            },
        ).returning(
            if irreplaceable {
                RegenModel::Never
            } else {
                download("Maven Central"@)
            },
        ).warned_if(
            irreplaceable,
            danger(
                "Found "@ + decimal(local.found as nat) + (if local.truncated {
                    "+"@
                } else {
                    ""@
                })
                    + " artifact(s) with no `_remote.repositories` marker: these came from `mvn install` and are not re-downloadable from any repository."@,
            ),
        ).warned_if(
            !irreplaceable,
            info("Everything here appears to be re-downloadable from a remote repository."@),
        ),
    )
}

fn repository(ctx: &ScanContext) -> (found: Option<Candidate>)
    ensures
        addition(found) == repository_offer(ctx),
{
    let path = ctx.paths.home_join(".m2/repository");
    if !ctx.disk.is_dir(path.as_str()) {
        return None;
    }
    let local = count_locally_installed(&ctx.disk.maven, MAVEN_SCAN_BUDGET);
    let irreplaceable = local.found > 0;
    let mark = if local.truncated {
        "+"
    } else {
        ""
    };
    let warning = "Found ".to_owned().concat(decimal_text(local.found as u128).as_str()).concat(
        mark,
    ).concat(
        " artifact(s) with no `_remote.repositories` marker: these came from `mvn install` and are not re-downloadable from any repository.",
    );
    Some(
        CandidateBuilder::new("jvm.maven-repo", Group::Jvm, "Maven local repository").path(
            path.as_str(),
        ).detail(
            "Every dependency Maven has ever downloaded, plus anything you have `mvn install`ed.",
        ).tier(
            if irreplaceable {
                Tier::Caution
            } else {
                Tier::Review
            },
        ).regen(
            if irreplaceable {
                Regen::Never
            } else {
                redownload("Maven Central")
            },
        ).warn_if(irreplaceable, Warning::danger(warning.as_str())).warn_if(
            !irreplaceable,
            Warning::info(
                "Everything here appears to be re-downloadable from a remote repository.",
            ),
        ).build(),
    )
}

/// A cache of what the configured repositories hold.
pub open spec fn configured_offer(
    ctx: &ScanContext,
    id: Seq<char>,
    label: Seq<char>,
    path: Seq<char>,
) -> Seq<CandidateModel> {
    given(ctx.disk@.present(path), cache(id, Group::Jvm, label, path)
        .tiered(Tier::Review)
        .returning(download("the configured repositories"@)))
}

fn configured(ctx: &ScanContext, id: &str, label: &str, path: &str) -> (found: Option<Candidate>)
    ensures
        addition(found) == configured_offer(ctx, id@, label@, path@),
{
    match global_cache(ctx, id, Group::Jvm, label, path) {
        Some(c) => Some(c
            .tier(Tier::Review)
            .regen(redownload("the configured repositories")).build()),
        None => None,
    }
}

impl Provider for JvmCaches {
    open spec fn name(&self) -> Seq<char> {
        "jvm.caches"@
    }

    open spec fn marks(&self) -> Seq<Seq<char>> {
        Seq::empty()
    }

    open spec fn offers(&self, ctx: &ScanContext) -> Seq<CandidateModel> {
        nothing()
            + gradle_offer(
                ctx,
                "jvm.gradle-caches"@,
                "Gradle caches"@,
                join(ctx.paths@.home, ".gradle/caches"@),
                "Downloaded dependencies and build caches."@,
            )
            + gradle_offer(
                ctx,
                "jvm.gradle-daemon"@,
                "Gradle daemon logs"@,
                join(ctx.paths@.home, ".gradle/daemon"@),
                "Daemon logs and registry files."@,
            )
            + gradle_offer(
                ctx,
                "jvm.gradle-native"@,
                "Gradle native binaries"@,
                join(ctx.paths@.home, ".gradle/native"@),
                "Platform helper binaries."@,
            )
            + gradle_offer(
                ctx,
                "jvm.gradle-wrapper"@,
                "Gradle wrapper distributions"@,
                join(ctx.paths@.home, ".gradle/wrapper/dists"@),
                "Downloaded Gradle distributions, one per version any project has used."@,
            )
            + repository_offer(ctx)
            + configured_offer(ctx, "jvm.ivy"@, "Ivy cache"@, join(ctx.paths@.home, ".ivy2/cache"@))
            + configured_offer(
                ctx,
                "jvm.sbt"@,
                "sbt boot and cache"@,
                join(ctx.paths@.home, ".sbt/boot"@),
            )
            + configured_offer(
                ctx,
                "jvm.coursier"@,
                "Coursier cache"@,
                join(ctx.paths@.home, ".cache/coursier"@),
            )
            + configured_offer(
                ctx,
                "jvm.konan"@,
                "Kotlin/Native dependencies"@,
                join(ctx.paths@.home, ".konan"@),
            )
            + configured_offer(
                ctx,
                "jvm.coursier"@,
                "Coursier cache"@,
                join(ctx.paths@.cache_dir, "Coursier"@),
            )
    }

    fn id(&self) -> (s: &'static str) {
        "jvm.caches"
    }

    fn markers(&self) -> (v: Vec<&'static str>) {
        let v: Vec<&'static str> = Vec::new();
        assert(views(v@) =~= Seq::empty());
        v
    }

    fn discover(&self, ctx: &ScanContext) -> (out: Vec<Candidate>) {
        let mut out = start();
        offer(
            &mut out,
            gradle(
                ctx,
                "jvm.gradle-caches",
                "Gradle caches",
                ctx.paths.home_join(".gradle/caches").as_str(),
                "Downloaded dependencies and build caches.",
            ),
        );
        offer(
            &mut out,
            gradle(
                ctx,
                "jvm.gradle-daemon",
                "Gradle daemon logs",
                ctx.paths.home_join(".gradle/daemon").as_str(),
                "Daemon logs and registry files.",
            ),
        );
        offer(
            &mut out,
            gradle(
                ctx,
                "jvm.gradle-native",
                "Gradle native binaries",
                ctx.paths.home_join(".gradle/native").as_str(),
                "Platform helper binaries.",
            ),
        );
        offer(
            &mut out,
            gradle(
                ctx,
                "jvm.gradle-wrapper",
                "Gradle wrapper distributions",
                ctx.paths.home_join(".gradle/wrapper/dists").as_str(),
                "Downloaded Gradle distributions, one per version any project has used.",
            ),
        );
        offer(&mut out, repository(ctx));
        offer(
            &mut out,
            configured(ctx, "jvm.ivy", "Ivy cache", ctx.paths.home_join(".ivy2/cache").as_str()),
        );
        offer(
            &mut out,
            configured(
                ctx,
                "jvm.sbt",
                "sbt boot and cache",
                ctx.paths.home_join(".sbt/boot").as_str(),
            ),
        );
        offer(
            &mut out,
            configured(
                ctx,
                "jvm.coursier",
                "Coursier cache",
                ctx.paths.home_join(".cache/coursier").as_str(),
            ),
        );
        offer(
            &mut out,
            configured(
                ctx,
                "jvm.konan",
                "Kotlin/Native dependencies",
                ctx.paths.home_join(".konan").as_str(),
            ),
        );
        offer(
            &mut out,
            configured(
                ctx,
                "jvm.coursier",
                "Coursier cache",
                join_path(ctx.paths.cache_dir().as_str(), "Coursier").as_str(),
            ),
        );
        out
    }
}

/// Files that mark a JVM project.
pub open spec fn jvm_markers() -> Seq<Seq<char>> {
    seq![
        "pom.xml"@,
        "build.gradle"@,
        "build.gradle.kts"@,
        "settings.gradle"@,
        "settings.gradle.kts"@,
        "build.sbt"@,
    ]
}

/// Files that mark a Gradle project.
pub open spec fn gradle_markers() -> Seq<Seq<char>> {
    seq!["build.gradle"@, "build.gradle.kts"@, "settings.gradle"@, "settings.gradle.kts"@]
}

pub struct JvmProjects;

/// Build output, claimed for a project of that build tool only: the names are used by other
/// ecosystems and by hand-written scripts.
pub open spec fn output_offer(
    ctx: &ScanContext,
    at: Seq<char>,
    dir: Seq<char>,
    label: Seq<char>,
    claim: bool,
) -> Seq<CandidateModel> {
    let path = join(at, dir);
    given(
        claim && ctx.disk@.is_dir(path),
        artifact("jvm.build-output"@, Group::Jvm, label, at, path).returning(rebuild(3)),
    )
}

fn output(ctx: &ScanContext, at: &str, dir: &str, label: &str, claim: bool) -> (found: Option<
    Candidate,
>)
    ensures
        addition(found) == output_offer(ctx, at@, dir@, label@, claim),
{
    if !claim {
        return None;
    }
    let path = join_path(at, dir);
    match project_artifact(ctx, "jvm.build-output", Group::Jvm, label, at, path.as_str()) {
        Some(c) => Some(c.regen(Regen::Rebuild { minutes: 3 }).build()),
        None => None,
    }
}

/// State that Gradle keeps in the project: safe, and often surprisingly large.
pub open spec fn gradle_state_offer(ctx: &ScanContext, at: Seq<char>) -> Seq<CandidateModel> {
    let path = join(at, ".gradle"@);
    given(
        ctx.disk@.is_dir(path),
        artifact(
            "jvm.project-gradle"@,
            Group::Jvm,
            "project .gradle cache"@,
            at,
            path,
        ).returning(auto_on("the next Gradle build"@)),
    )
}

fn gradle_state(ctx: &ScanContext, at: &str) -> (found: Option<Candidate>)
    ensures
        addition(found) == gradle_state_offer(ctx, at@),
{
    let path = join_path(at, ".gradle");
    match project_artifact(
        ctx,
        "jvm.project-gradle",
        Group::Jvm,
        "project .gradle cache",
        at,
        path.as_str(),
    ) {
        Some(c) => Some(c.regen(automatic("the next Gradle build")).build()),
        None => None,
    }
}

impl ProjectOffers for JvmProjects {
    open spec fn offers_in(&self, ctx: &ScanContext, project: ProjectModel) -> Seq<CandidateModel> {
        let at = project.path;
        let is_maven = project.marked("pom.xml"@);
        let is_gradle = project.marked_any(gradle_markers());
        nothing()
            + output_offer(ctx, at, "build"@, "Gradle build output"@, is_gradle)
            + output_offer(ctx, at, "target"@, "Maven build output"@, is_maven)
            + output_offer(ctx, at, "out"@, "IDE build output"@, is_maven || is_gradle)
            + gradle_state_offer(ctx, at)
    }

    fn build(&self, ctx: &ScanContext, project: &ProjectRoot) -> (out: Vec<Candidate>) {
        let at = project.path.as_str();
        let is_maven = project.has_marker("pom.xml");
        let markers = [
            "build.gradle",
            "build.gradle.kts",
            "settings.gradle",
            "settings.gradle.kts",
        ];
        assert(views(markers@) =~= gradle_markers());
        let is_gradle = project.has_any_marker(&markers);
        let mut out = start();
        offer(&mut out, output(ctx, at, "build", "Gradle build output", is_gradle));
        offer(&mut out, output(ctx, at, "target", "Maven build output", is_maven));
        offer(&mut out, output(ctx, at, "out", "IDE build output", is_maven || is_gradle));
        offer(&mut out, gradle_state(ctx, at));
        out
    }
}

impl Provider for JvmProjects {
    open spec fn name(&self) -> Seq<char> {
        "jvm.projects"@
    }

    open spec fn marks(&self) -> Seq<Seq<char>> {
        seq![
            "pom.xml"@,
            "build.gradle"@,
            "build.gradle.kts"@,
            "settings.gradle"@,
            "settings.gradle.kts"@,
            "build.sbt"@,
        ]
    }

    open spec fn offers(&self, ctx: &ScanContext) -> Seq<CandidateModel> {
        offers_in_all(self, ctx, ctx.marked(jvm_markers()))
    }

    fn id(&self) -> (s: &'static str) {
        "jvm.projects"
    }

    fn markers(&self) -> (v: Vec<&'static str>) {
        let v = vec![
            "pom.xml",
            "build.gradle",
            "build.gradle.kts",
            "settings.gradle",
            "settings.gradle.kts",
            "build.sbt",
        ];
        assert(
            views(v@) =~= seq![
                "pom.xml"@,
                "build.gradle"@,
                "build.gradle.kts"@,
                "settings.gradle"@,
                "settings.gradle.kts"@,
                "build.sbt"@,
            ]
        );
        v
    }

    fn discover(&self, ctx: &ScanContext) -> (out: Vec<Candidate>) {
        let markers = [
            "pom.xml",
            "build.gradle",
            "build.gradle.kts",
            "settings.gradle",
            "settings.gradle.kts",
            "build.sbt",
        ];
        assert(views(markers@) =~= jvm_markers());
        artifacts_in_projects(ctx, &markers, self)
    }
}

/// The providers of this module.
pub fn providers() -> (v: Vec<AnyProvider>)
    ensures
        v@ == seq![AnyProvider::JvmCaches(JvmCaches), AnyProvider::JvmProjects(JvmProjects)],
{
    let v = vec![AnyProvider::JvmCaches(JvmCaches), AnyProvider::JvmProjects(JvmProjects)];
    assert(v@ =~= seq![AnyProvider::JvmCaches(JvmCaches), AnyProvider::JvmProjects(JvmProjects)]);
    v
}

/// A directory holds an artifact that came from this machine where it has an archive and nothing
/// says which repository it came from.
pub proof fn an_artifact_without_an_origin_is_local(dir: DirTree)
    ensures
        holds_local_artifact(dir) == (dir.names is Some && !views(dir.names->0@).contains(
            "_remote.repositories"@,
        ) && exists|i: int|
            0 <= i < views(dir.names->0@).len() && (has_suffix(
                #[trigger] views(dir.names->0@)[i],
                ".jar"@,
            ) || has_suffix(views(dir.names->0@)[i], ".aar"@))),
{
    if dir.names is Some {
        let names = views(dir.names->0@);
        reveal_strlit("_remote.repositories");
        reveal_strlit(".jar");
        reveal_strlit(".aar");
        let marker = "_remote.repositories"@;
        assert(marker.skip(marker.len() - 4)[3] == 's');
        assert(".jar"@[3] == 'r' && ".aar"@[3] == 'r');
        assert(!has_suffix(marker, ".jar"@) && !has_suffix(marker, ".aar"@));
        if exists|i: int| 0 <= i < names.len() && is_archive(#[trigger] names[i]) {
            let i = choose|i: int| 0 <= i < names.len() && is_archive(#[trigger] names[i]);
            assert(has_suffix(names[i], ".jar"@) || has_suffix(names[i], ".aar"@));
        }
        if exists|i: int|
            0 <= i < names.len() && (has_suffix(#[trigger] names[i], ".jar"@) || has_suffix(
                names[i],
                ".aar"@,
            )) {
            let i = choose|i: int|
                0 <= i < names.len() && (has_suffix(#[trigger] names[i], ".jar"@) || has_suffix(
                    names[i],
                    ".aar"@,
                ));
            assert(is_archive(names[i]));
        }
    }
}

/// Every directory within the budget that holds such an artifact is counted, up to 25 of them; the
/// count says so where it leaves any out.
pub proof fn every_local_artifact_counts(dirs: Seq<&DirTree>, budget: nat)
    ensures
        ({
            let seen = dirs.take(if dirs.len() <= budget { dirs.len() as int } else { budget as int });
            let count = seen.filter(|d: &DirTree| holds_local_artifact(*d)).len();
            let r = local_artifacts(dirs, budget);
            &&& r.found == if count < 25 { count } else { 25 }
            &&& r.truncated == (dirs.len() > budget || count >= 25)
        }),
{
    let seen = dirs.take(if dirs.len() <= budget { dirs.len() as int } else { budget as int });
    lemma_local_among(seen);
    if dirs.len() <= budget {
        assert(seen =~= dirs);
    }
}

proof fn lemma_local_among(dirs: Seq<&DirTree>)
    ensures
        local_among(dirs) == dirs.filter(|d: &DirTree| holds_local_artifact(*d)).len(),
    decreases dirs.len(),
{
    reveal(Seq::filter);
    if dirs.len() > 0 {
        lemma_local_among(dirs.drop_last());
    }
}

/// Every subdirectory of a directory that is read is listed, behind what was listed before, and
/// those below it follow it.
pub proof fn every_subdirectory_is_listed<'a>(
    out: Seq<&'a DirTree>,
    tree: DirTree,
    depth: nat,
    i: int,
)
    requires
        depth <= 6,
        out.len() <= 20_000,
        tree.names is Some,
        0 <= i < tree.subdirs@.len(),
    ensures
        dirs_below(out, tree, depth).len() >= out.len(),
        dirs_below(out, tree, depth).take(out.len() as int) == out,
        exists|k: int|
            out.len() <= k < dirs_below(out, tree, depth).len() && *(#[trigger] dirs_below(
                out,
                tree,
                depth,
            )[k]) == tree.subdirs@[i],
{
    lemma_dirs_among(out, tree.subdirs@, depth, i);
}

proof fn lemma_dirs_below<'a>(out: Seq<&'a DirTree>, tree: DirTree, depth: nat)
    ensures
        dirs_below(out, tree, depth).len() >= out.len(),
        dirs_below(out, tree, depth).take(out.len() as int) == out,
    decreases (if depth <= 6 { 7 - depth } else { 0 }), 1int, 0int,
{
    if depth > 6 || out.len() > 20_000 || tree.names is None {
        assert(out.take(out.len() as int) =~= out);
    } else {
        lemma_dirs_among(out, tree.subdirs@, depth, 0);
    }
}

proof fn lemma_dirs_among<'a>(out: Seq<&'a DirTree>, subdirs: Seq<DirTree>, depth: nat, i: int)
    ensures
        dirs_among(out, subdirs, depth).len() >= out.len(),
        dirs_among(out, subdirs, depth).take(out.len() as int) == out,
        depth <= 6 && 0 <= i < subdirs.len() ==> exists|k: int|
            out.len() <= k < dirs_among(out, subdirs, depth).len() && *(#[trigger] dirs_among(
                out,
                subdirs,
                depth,
            )[k]) == subdirs[i],
    decreases (if depth <= 6 { 7 - depth } else { 0 }), 0int, subdirs.len(),
{
    let all = dirs_among(out, subdirs, depth);
    if subdirs.len() == 0 || depth > 6 {
        assert(out.take(out.len() as int) =~= out);
    } else {
        let fewer = subdirs.drop_last();
        lemma_dirs_among(out, fewer, depth, i);
        let before = dirs_among(out, fewer, depth);
        let next = before.push(&subdirs.last());
        lemma_dirs_below(next, subdirs.last(), depth + 1);
        assert(all.take(next.len() as int) == next);
        assert(forall|k: int| 0 <= k < next.len() ==> all[k] == #[trigger] next[k]) by {
            assert forall|k: int| 0 <= k < next.len() implies all[k] == #[trigger] next[k] by {
                assert(all.take(next.len() as int)[k] == all[k]);
            }
        }
        assert(all.take(out.len() as int) =~= before.take(out.len() as int)) by {
            assert forall|k: int| 0 <= k < out.len() implies all[k] == before[k] by {
                assert(next[k] == before[k]);
            }
        }
        if 0 <= i < fewer.len() {
            let k = choose|k: int|
                out.len() <= k < before.len() && *(#[trigger] before[k]) == fewer[i];
            assert(next[k] == before[k]);
            assert(all[k] == next[k]);
        } else if i == fewer.len() {
            let k = before.len() as int;
            assert(*next[k] == subdirs[i]);
            assert(all[k] == next[k]);
        }
    }
}

} // verus!
