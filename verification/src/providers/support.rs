//! Helpers shared by every provider.
//!
//! Providers are short and declarative: a list of paths, a tier, and the
//! evidence a user needs to decide.
use vstd::prelude::*;
use vstd::string::*;
use crate::disk::DiskModel;
use crate::model::{
    Action, ActionModel, Candidate, CandidateBuilder, CandidateModel, Group, Kind, ProjectModel,
    ProjectRoot, Regen, RegenModel, Severity, Tier, Warning, WarningModel, built, declared,
};
use crate::path::{join, join_path};
use crate::pipeline::ScanContext;
use crate::text::views;

verus! {

broadcast use crate::text::lemma_views_push;

/// One candidate, where there is reason to offer it.
pub open spec fn given(there: bool, c: CandidateModel) -> Seq<CandidateModel> {
    if there {
        seq![built(c)]
    } else {
        Seq::empty()
    }
}

/// Nothing offered yet.
pub open spec fn nothing() -> Seq<CandidateModel> {
    Seq::empty()
}

/// A cache directory shared by everything on the machine.
pub open spec fn cache(
    provider: Seq<char>,
    group: Group,
    label: Seq<char>,
    path: Seq<char>,
) -> CandidateModel {
    declared(provider, group, label).with_path(path)
}

/// An artifact directory of one project.
pub open spec fn artifact(
    provider: Seq<char>,
    group: Group,
    label: Seq<char>,
    project: Seq<char>,
    path: Seq<char>,
) -> CandidateModel {
    CandidateModel {
        kind: Kind::ProjectArtifact,
        project: Some(project),
        ..cache(provider, group, label, path)
    }
}

impl CandidateModel {
    pub open spec fn detailed(self, detail: Seq<char>) -> CandidateModel {
        CandidateModel { detail, ..self }
    }

    pub open spec fn tiered(self, tier: Tier) -> CandidateModel {
        CandidateModel { tier, ..self }
    }

    pub open spec fn returning(self, regen: RegenModel) -> CandidateModel {
        CandidateModel { regen, ..self }
    }

    pub open spec fn running(self, program: Seq<char>, args: Seq<Seq<char>>) -> CandidateModel {
        CandidateModel { action: ActionModel::Shell { program, args }, ..self }
    }

    pub open spec fn warned_if(self, condition: bool, warning: WarningModel) -> CandidateModel {
        if condition {
            self.with_warning(warning)
        } else {
            self
        }
    }
}

pub open spec fn download(source: Seq<char>) -> RegenModel {
    RegenModel::Download { bytes: None, source }
}

pub open spec fn auto_on(on: Seq<char>) -> RegenModel {
    RegenModel::Automatic { on }
}

pub open spec fn rebuild(minutes: u32) -> RegenModel {
    RegenModel::Rebuild { minutes }
}

pub open spec fn info(message: Seq<char>) -> WarningModel {
    WarningModel { severity: Severity::Info, message }
}

pub open spec fn caution(message: Seq<char>) -> WarningModel {
    WarningModel { severity: Severity::Caution, message }
}

pub open spec fn danger(message: Seq<char>) -> WarningModel {
    WarningModel { severity: Severity::Danger, message }
}

/// What an optional candidate adds to a list.
pub open spec fn addition(found: Option<Candidate>) -> Seq<CandidateModel> {
    match found {
        Some(c) => seq![c@],
        None => Seq::empty(),
    }
}

/// Adds a candidate where there is one.
pub fn offer(out: &mut Vec<Candidate>, found: Option<Candidate>)
    ensures
        views(final(out)@) == views(old(out)@) + addition(found),
{
    let ghost before = views(out@);
    match found {
        Some(c) => {
            out.push(c);
            assert(views(out@) =~= before + seq![c@]);
        },
        None => {
            assert(before + Seq::<CandidateModel>::empty() =~= before);
        },
    }
}

/// Adds all of a list.
pub fn offer_all(out: &mut Vec<Candidate>, found: Vec<Candidate>)
    ensures
        views(final(out)@) == views(old(out)@) + views(found@),
{
    let ghost before = views(out@);
    let ghost more = views(found@);
    let mut found = found;
    out.append(&mut found);
    assert(views(out@) =~= before + more);
}

/// An empty list.
pub fn start() -> (out: Vec<Candidate>)
    ensures
        views(out@) == nothing(),
{
    let out: Vec<Candidate> = Vec::new();
    assert(views(out@) =~= nothing());
    out
}

/// Declare a cache directory, if it exists.
///
/// Gives nothing when the path is absent, which is how a provider stays silent on a machine
/// without that toolchain.
pub fn global_cache(
    ctx: &ScanContext,
    provider: &str,
    group: Group,
    label: &str,
    path: &str,
) -> (found: Option<CandidateBuilder>)
    ensures
        match found {
            Some(b) => ctx.disk@.present(path@) && b@ == cache(provider@, group, label@, path@),
            None => !ctx.disk@.present(path@),
        },
{
    if ctx.disk.has(path) {
        Some(
            CandidateBuilder::new(provider, group, label).path(path).kind(Kind::GlobalCache).tier(
                Tier::Safe,
            ),
        )
    } else {
        None
    }
}

/// An artifact directory of one project, e.g. `target/` or `node_modules`, if it is there.
///
/// The link to the project lets staleness come from the project's own activity.
pub fn project_artifact(
    ctx: &ScanContext,
    provider: &str,
    group: Group,
    label: &str,
    project: &str,
    path: &str,
) -> (found: Option<CandidateBuilder>)
    ensures
        match found {
            Some(b) => ctx.disk@.is_dir(path@) && b@ == artifact(
                provider@,
                group,
                label@,
                project@,
                path@,
            ),
            None => !ctx.disk@.is_dir(path@),
        },
{
    if ctx.disk.is_dir(path) {
        Some(
            CandidateBuilder::new(provider, group, label).path(path).kind(
                Kind::ProjectArtifact,
            ).project(project).tier(Tier::Safe),
        )
    } else {
        None
    }
}

/// What is offered for a single project.
pub trait ProjectOffers {
    spec fn offers_in(&self, ctx: &ScanContext, project: ProjectModel) -> Seq<CandidateModel>;

    fn build(&self, ctx: &ScanContext, project: &ProjectRoot) -> (out: Vec<Candidate>)
        ensures
            views(out@) == self.offers_in(ctx, project@),
    ;
}

/// What is offered for all projects, one after the other.
pub open spec fn offers_in_all<B: ProjectOffers>(
    build: &B,
    ctx: &ScanContext,
    projects: Seq<ProjectModel>,
) -> Seq<CandidateModel>
    decreases projects.len(),
{
    if projects.len() == 0 {
        nothing()
    } else {
        offers_in_all(build, ctx, projects.drop_last()) + build.offers_in(ctx, projects.last())
    }
}

/// Map every project carrying one of `markers` to the candidates inside it.
pub fn artifacts_in_projects<B: ProjectOffers>(
    ctx: &ScanContext,
    markers: &[&str],
    build: &B,
) -> (out: Vec<Candidate>)
    ensures
        views(out@) == offers_in_all(build, ctx, ctx.marked(views(markers@))),
{
    let projects = ctx.projects_with(markers);
    let ghost all = views(projects@);
    let mut out = start();
    let mut i: usize = 0;
    assert(all.take(0) =~= Seq::empty());
    while i < projects.len()
        invariant
            i <= projects@.len(),
            all == views(projects@),
            views(out@) == offers_in_all(build, ctx, all.take(i as int)),
        decreases projects@.len() - i,
    {
        assert(all.take(i + 1).drop_last() =~= all.take(i as int));
        assert(all.take(i + 1).last() == projects@[i as int]@);
        offer_all(&mut out, build.build(ctx, &projects[i]));
        i += 1;
    }
    assert(all.take(all.len() as int) =~= all);
    out
}

/// What is offered for a single subdirectory.
pub trait SubdirOffers {
    spec fn offer_of(&self, ctx: &ScanContext, dir: Seq<char>, name: Seq<char>) -> Seq<
        CandidateModel,
    >;

    fn build(&self, ctx: &ScanContext, dir: &str, name: &str) -> (found: Option<Candidate>)
        ensures
            addition(found) == self.offer_of(ctx, dir@, name@),
    ;
}

pub open spec fn offers_of_all<B: SubdirOffers>(
    build: &B,
    ctx: &ScanContext,
    dir: Seq<char>,
    names: Seq<Seq<char>>,
) -> Seq<CandidateModel>
    decreases names.len(),
{
    if names.len() == 0 {
        nothing()
    } else {
        offers_of_all(build, ctx, dir, names.drop_last()) + build.offer_of(ctx, dir, names.last())
    }
}

/// Map every subdirectory of `dir` to what it offers, in text order.
pub fn each_subdir<B: SubdirOffers>(ctx: &ScanContext, dir: &str, build: &B) -> (out: Vec<
    Candidate,
>)
    ensures
        views(out@) == offers_of_all(build, ctx, dir@, ctx.disk@.subdir_names(dir@)),
{
    let names = ctx.disk.subdirs(dir);
    let ghost all = views(names@);
    let mut out = start();
    let mut i: usize = 0;
    assert(all.take(0) =~= Seq::empty());
    while i < names.len()
        invariant
            i <= names@.len(),
            all == views(names@),
            views(out@) == offers_of_all(build, ctx, dir@, all.take(i as int)),
        decreases names@.len() - i,
    {
        assert(all.take(i + 1).drop_last() =~= all.take(i as int));
        assert(all.take(i + 1).last() == names@[i as int]@);
        offer(&mut out, build.build(ctx, dir, names[i].as_str()));
        i += 1;
    }
    assert(all.take(all.len() as int) =~= all);
    out
}

/// One of the files is there.
pub open spec fn any_file(disk: DiskModel, dir: Seq<char>, names: Seq<Seq<char>>) -> bool {
    exists|i: int| 0 <= i < names.len() && disk.is_file(join(dir, #[trigger] names[i]))
}

/// Whether any of these files exists in `dir`. Used for lockfile detection.
pub fn any_file_exists(ctx: &ScanContext, dir: &str, names: &[&str]) -> (r: bool)
    ensures
        r == any_file(ctx.disk@, dir@, views(names@)),
{
    let mut i: usize = 0;
    while i < names.len()
        invariant
            i <= names@.len(),
            forall|k: int|
                0 <= k < i ==> !ctx.disk@.is_file(join(dir@, #[trigger] views(names@)[k])),
        decreases names@.len() - i,
    {
        if ctx.disk.is_file(join_path(dir, names[i]).as_str()) {
            assert(ctx.disk@.is_file(join(dir@, views(names@)[i as int])));
            return true;
        }
        i += 1;
    }
    false
}

/// The warning for a content-addressable store that is hardlinked into projects.
pub open spec fn hardlink_warning(tool: Seq<char>) -> WarningModel {
    caution(
        "This store is hardlinked into every "@ + tool
            + " install on the machine. Removing it frees less than its apparent size and leaves existing installs broken until you reinstall."@,
    )
}

pub fn hardlink_store_warning(tool: &str) -> (w: Warning)
    ensures
        w@ == hardlink_warning(tool@),
{
    Warning::caution(
        "This store is hardlinked into every ".to_owned().concat(tool).concat(
            " install on the machine. Removing it frees less than its apparent size and leaves existing installs broken until you reinstall.",
        ).as_str(),
    )
}

/// The warning for an artifact directory in a project without a lockfile.
pub open spec fn lockfile_warning(tool: Seq<char>) -> WarningModel {
    caution(
        "No lockfile in this project, so a `"@ + tool
            + "` reinstall may not reproduce these exact versions."@,
    )
}

pub fn no_lockfile_warning(tool: &str) -> (w: Warning)
    ensures
        w@ == lockfile_warning(tool@),
{
    Warning::caution(
        "No lockfile in this project, so a `".to_owned().concat(tool).concat(
            "` reinstall may not reproduce these exact versions.",
        ).as_str(),
    )
}

/// Regeneration by re-downloading from a named source.
pub fn redownload(source: &str) -> (r: Regen)
    ensures
        r@ == download(source@),
{
    Regen::Download { bytes: None, source: source.to_owned() }
}

/// Regeneration that happens transparently on the next build.
pub fn automatic(on: &str) -> (r: Regen)
    ensures
        r@ == auto_on(on@),
{
    Regen::Automatic { on: on.to_owned() }
}

/// A command with its arguments.
pub fn shell(program: &str, args: &[&str]) -> (a: Action)
    ensures
        a@ == (ActionModel::Shell { program: program@, args: views(args@) }),
{
    let mut list: Vec<String> = Vec::new();
    let mut i: usize = 0;
    while i < args.len()
        invariant
            i <= args@.len(),
            list@.len() == i,
            forall|k: int| 0 <= k < i ==> (#[trigger] list@[k])@ == args@[k]@,
        decreases args@.len() - i,
    {
        list.push(args[i].to_owned());
        i += 1;
    }
    assert(views(list@) =~= views(args@));
    Action::Shell { program: program.to_owned(), args: list }
}

} // verus!
