//! The scan: discovery by every provider, measurement, ranking and filtering.
//!
//! Walks and scores come from outside; everything between them happens here.
use vstd::prelude::*;
use vstd::string::*;
use dashmap::DashSet;
use crate::config::{Config, ScanConfig};
use crate::discovery::{marked_with, projects_with};
use crate::disk::{Disk, DiskModel, a_path_is_there_where_it_is_listed};
use crate::model::{
    Candidate, CandidateId, CandidateModel, Group, Moment, ProjectModel, ProjectRoot, Size,
};
use crate::path::{components, lemma_spelled, spell, spelled};
use crate::platform::Paths;
use crate::sort::{lemma_numbers_step, numbers_where};
use crate::staleness::{
    Filter, FilterModel, a_filter_selects_what_passes, derive_signals,
    filtered_candidates_obey_the_filter, group_fits, group_sizes, larger_first, rank, ranked,
    ranking_keeps_every_candidate, scored, signals_of, total_freed, total_reclaimable,
    totals_by_group,
};
use crate::text::{Dup, same, views};
use crate::walk::{
    LinkTracker, Stat, WalkEntry, WalkOptions, Walked, addable_all, measured_all,
    measuring_forgets_no_link, try_measure_all,
};

verus! {

broadcast use crate::text::lemma_views_push;

/// Everything a provider needs to decide what it can offer.
pub struct ScanContext {
    pub paths: Paths,
    pub config: Config,
    /// Projects found by the one walk that every provider shares.
    pub projects: Vec<ProjectRoot>,
    /// What is there where providers look.
    pub disk: Disk,
}

impl ScanContext {
    pub fn new(paths: Paths, config: Config, projects: Vec<ProjectRoot>, disk: Disk) -> (ctx: Self)
        ensures
            ctx.paths == paths,
            ctx.config == config,
            ctx.projects == projects,
            ctx.disk == disk,
    {
        ScanContext { paths, config, projects, disk }
    }

    pub open spec fn marked(&self, markers: Seq<Seq<char>>) -> Seq<ProjectModel> {
        marked_with(views(self.projects@), markers)
    }

    /// Projects carrying any of these marker files.
    pub fn projects_with(&self, markers: &[&str]) -> (out: Vec<ProjectRoot>)
        ensures
            views(out@) == self.marked(views(markers@)),
    {
        projects_with(&self.projects, markers)
    }

    /// Whether a provider is enabled by the user's configuration.
    pub fn enabled(&self, provider_id: &str) -> (r: bool)
        ensures
            r == self.config.providers.enables(provider_id@),
    {
        self.config.providers.is_enabled(provider_id)
    }

    /// Only what is there, so that providers can declare optimistically.
    pub fn existing(&self, paths: &Vec<String>) -> (out: Vec<String>)
        ensures
            views(out@) == present_paths(self.disk@, views(paths@)),
    {
        let ghost all = views(paths@);
        let mut out: Vec<String> = Vec::new();
        let mut i: usize = 0;
        assert(views(out@) =~= present_paths(self.disk@, all.take(0)));
        while i < paths.len()
            invariant
                i <= paths@.len(),
                all == views(paths@),
                views(out@) == present_paths(self.disk@, all.take(i as int)),
            decreases paths@.len() - i,
        {
            assert(all.take(i + 1).drop_last() =~= all.take(i as int));
            assert(all.take(i + 1).last() == paths@[i as int]@);
            if self.disk.has(paths[i].as_str()) {
                out.push(paths[i].clone());
            }
            i += 1;
        }
        assert(all.take(all.len() as int) =~= all);
        out
    }
}

/// The paths that are there, in order.
pub open spec fn present_paths(disk: DiskModel, paths: Seq<Seq<char>>) -> Seq<Seq<char>>
    decreases paths.len(),
{
    if paths.len() == 0 {
        Seq::empty()
    } else if disk.present(paths.last()) {
        present_paths(disk, paths.drop_last()).push(paths.last())
    } else {
        present_paths(disk, paths.drop_last())
    }
}

/// A source of candidates for one ecosystem.
pub trait Provider {
    /// Dotted id, e.g. `node.pnpm-store`.
    spec fn name(&self) -> Seq<char>;

    /// Marker files this provider cares about.
    spec fn marks(&self) -> Seq<Seq<char>>;

    /// What the provider offers.
    spec fn offers(&self, ctx: &ScanContext) -> Seq<CandidateModel>;

    fn id(&self) -> (s: &'static str)
        ensures
            s@ == self.name(),
    ;

    fn markers(&self) -> (v: Vec<&'static str>)
        ensures
            views(v@) == self.marks(),
    ;

    /// Cheap: looks at what is known and at the shared projects, and measures nothing.
    fn discover(&self, ctx: &ScanContext) -> (out: Vec<Candidate>)
        ensures
            views(out@) == self.offers(ctx),
    ;
}

/// Progress of a scan.
#[derive(Debug, Clone)]
pub enum ScanEvent {
    /// The project walk is done.
    ProjectsFound { count: usize, elapsed_ms: u64 },
    /// The full candidate list, unmeasured.
    Discovered(Vec<Candidate>),
    /// One more candidate has been measured.
    Measured { candidate: Box<Candidate>, done: usize, total: usize },
    /// The final ranked and filtered list.
    Complete(Box<ScanResult>),
}

/// What an event tells.
pub enum EventModel {
    ProjectsFound { count: usize, elapsed_ms: u64 },
    Discovered(Seq<CandidateModel>),
    Measured { candidate: CandidateModel, done: usize, total: usize },
    Complete(Seq<CandidateModel>),
}

impl View for ScanEvent {
    type V = EventModel;

    open spec fn view(&self) -> EventModel {
        match self {
            ScanEvent::ProjectsFound { count, elapsed_ms } => EventModel::ProjectsFound {
                count: *count,
                elapsed_ms: *elapsed_ms,
            },
            ScanEvent::Discovered(candidates) => EventModel::Discovered(views(candidates@)),
            ScanEvent::Measured { candidate, done, total } => EventModel::Measured {
                candidate: candidate@,
                done: *done,
                total: *total,
            },
            ScanEvent::Complete(result) => EventModel::Complete(views(result.candidates@)),
        }
    }
}

/// The first measurements among those of a scan, each told as it is done.
pub open spec fn measurements_told(measured: Seq<CandidateModel>, done: nat) -> Seq<EventModel> {
    Seq::new(
        done,
        |k: int| EventModel::Measured {
            candidate: measured[k],
            done: (k + 1) as usize,
            total: measured.len() as usize,
        },
    )
}

/// What a scan tells: the projects, the candidates, each measurement, and the result.
pub fn events(
    projects: usize,
    walked_ms: u64,
    discovered: Vec<Candidate>,
    measured: &Vec<Candidate>,
    result: ScanResult,
) -> (out: Vec<ScanEvent>)
    ensures
        views(out@) == seq![
            EventModel::ProjectsFound { count: projects, elapsed_ms: walked_ms },
            EventModel::Discovered(views(discovered@)),
        ] + measurements_told(views(measured@), measured@.len()) + seq![
            EventModel::Complete(views(result.candidates@)),
        ],
        out@.last() matches ScanEvent::Complete(r) && *r == result,
{
    let ghost all = views(measured@);
    let ghost first = seq![
        EventModel::ProjectsFound { count: projects, elapsed_ms: walked_ms },
        EventModel::Discovered(views(discovered@)),
    ];
    let mut out: Vec<ScanEvent> = Vec::new();
    out.push(ScanEvent::ProjectsFound { count: projects, elapsed_ms: walked_ms });
    out.push(ScanEvent::Discovered(discovered));
    assert(views(out@) =~= first + measurements_told(all, 0));
    let total: usize = measured.len();
    let mut i: usize = 0;
    while i < total
        invariant
            i <= total == measured@.len(),
            all == views(measured@),
            views(out@) == first + measurements_told(all, i as nat),
        decreases total - i,
    {
        let candidate = Box::new(measured[i].dup());
        out.push(ScanEvent::Measured { candidate, done: i + 1, total });
        i += 1;
        assert(views(out@) =~= first + measurements_told(all, i as nat));
    }
    out.push(ScanEvent::Complete(Box::new(result)));
    out
}

/// What the enabled providers offer, provider by provider.
pub open spec fn offered<P: Provider>(providers: Seq<P>, ctx: &ScanContext) -> Seq<CandidateModel>
    decreases providers.len(),
{
    if providers.len() == 0 {
        Seq::empty()
    } else {
        let before = offered(providers.drop_last(), ctx);
        let last = providers.last();
        if ctx.config.providers.enables(last.name()) {
            before + last.offers(ctx)
        } else {
            before
        }
    }
}

/// Every enabled provider discovers.
pub fn discover_all<P: Provider>(providers: &Vec<P>, ctx: &ScanContext) -> (out: Vec<Candidate>)
    ensures
        views(out@) == offered(providers@, ctx),
{
    let mut out: Vec<Candidate> = Vec::new();
    let mut i: usize = 0;
    assert(views(out@) =~= offered(providers@.take(0), ctx));
    while i < providers.len()
        invariant
            i <= providers@.len(),
            views(out@) == offered(providers@.take(i as int), ctx),
        decreases providers@.len() - i,
    {
        assert(providers@.take(i + 1).drop_last() =~= providers@.take(i as int));
        let ghost before = views(out@);
        if ctx.enabled(providers[i].id()) {
            let mut found = providers[i].discover(ctx);
            let ghost offers = views(found@);
            out.append(&mut found);
            assert(views(out@) =~= before + offers);
        }
        i += 1;
    }
    assert(providers@.take(providers@.len() as int) =~= providers@);
    out
}

/// The texts that a set of texts holds.
pub uninterp spec fn texts_in(set: DashSet<String>) -> Set<Seq<char>>;

/// `DashSet::new` makes a set that holds nothing.
#[verifier::external_body]
fn new_texts() -> (set: DashSet<String>)
    ensures
        texts_in(set) == Set::<Seq<char>>::empty(),
{
    DashSet::new()
}

/// `DashSet::insert` adds the text, and tells whether it was not there before.
#[verifier::external_body]
fn insert_text(set: &mut DashSet<String>, text: String) -> (added: bool)
    ensures
        added == !texts_in(*old(set)).contains(text@),
        texts_in(*final(set)) == texts_in(*old(set)).insert(text@),
{
    set.insert(text)
}

/// The candidate's primary path is that path.
pub open spec fn is_at(c: CandidateModel, path: Seq<char>) -> bool {
    match c.primary() {
        Some(p) => components(p) == components(path),
        None => false,
    }
}

/// A candidate of the list is at that path.
pub open spec fn claims_path(cs: Seq<CandidateModel>, path: Seq<char>) -> bool {
    exists|i: int| 0 <= i < cs.len() && is_at(#[trigger] cs[i], path)
}

/// The candidates without those at a path that an earlier one has.
pub open spec fn deduped(cs: Seq<CandidateModel>) -> Seq<CandidateModel>
    decreases cs.len(),
{
    if cs.len() == 0 {
        Seq::empty()
    } else {
        let before = deduped(cs.drop_last());
        match cs.last().primary() {
            Some(path) => if claims_path(cs.drop_last(), path) {
                before
            } else {
                before.push(cs.last())
            },
            None => before.push(cs.last()),
        }
    }
}

/// The set holds the plainest spellings of the paths that the candidates are at.
#[verifier::opaque]
pub open spec fn tracks(seen: Set<Seq<char>>, cs: Seq<CandidateModel>) -> bool {
    forall|path: Seq<char>|
        #![trigger claims_path(cs, path)]
        seen.contains(spelled(components(path))) == claims_path(cs, path)
}

proof fn lemma_tracks_none()
    ensures
        tracks(Set::empty(), Seq::empty()),
{
    reveal(tracks);
}

proof fn lemma_tracks_step(seen: Set<Seq<char>>, cs: Seq<CandidateModel>, c: CandidateModel)
    requires
        tracks(seen, cs),
    ensures
        match c.primary() {
            Some(path) => {
                &&& seen.contains(spelled(components(path))) == claims_path(cs, path)
                &&& tracks(seen.insert(spelled(components(path))), cs.push(c))
            },
            None => tracks(seen, cs.push(c)),
        },
{
    reveal(tracks);
    let more = cs.push(c);
    match c.primary() {
        Some(path) => {
            let key = spelled(components(path));
            assert(seen.contains(key) == claims_path(cs, path));
            assert forall|other: Seq<char>|
                #![trigger claims_path(more, other)]
                seen.insert(key).contains(spelled(components(other))) == claims_path(more, other) by {
                lemma_claims_step(cs, c, other);
                lemma_spelled(path);
                lemma_spelled(other);
                assert(seen.contains(spelled(components(other))) == claims_path(cs, other));
                if spelled(components(other)) == key {
                    assert(components(other) == components(path));
                }
            }
        },
        None => {
            assert forall|other: Seq<char>|
                #![trigger claims_path(more, other)]
                seen.contains(spelled(components(other))) == claims_path(more, other) by {
                lemma_claims_step(cs, c, other);
                assert(seen.contains(spelled(components(other))) == claims_path(cs, other));
            }
        },
    }
}

/// Collapse candidates at the same primary path, keeping the first. Two providers can
/// legitimately point at the same directory; it is offered once.
pub fn dedupe(candidates: Vec<Candidate>) -> (out: Vec<Candidate>)
    ensures
        views(out@) == deduped(views(candidates@)),
{
    let ghost all = views(candidates@);
    let mut seen = new_texts();
    let mut out: Vec<Candidate> = Vec::new();
    let mut i: usize = 0;
    proof {
        lemma_tracks_none();
        assert(all.take(0) =~= Seq::empty());
        assert(views(out@) =~= deduped(all.take(0)));
    }
    while i < candidates.len()
        invariant
            i <= candidates@.len(),
            all == views(candidates@),
            views(out@) == deduped(all.take(i as int)),
            tracks(texts_in(seen), all.take(i as int)),
        decreases candidates@.len() - i,
    {
        proof {
            let before = all.take(i as int);
            let c = candidates@[i as int]@;
            lemma_tracks_step(texts_in(seen), before, c);
            assert(all.take(i + 1) =~= before.push(c));
            assert(all.take(i + 1).drop_last() =~= before);
        }
        let fresh = match candidates[i].primary_path() {
            Some(path) => insert_text(&mut seen, spell(path)),
            None => true,
        };
        if fresh {
            out.push(candidates[i].dup());
        }
        i += 1;
    }
    assert(all.take(all.len() as int) =~= all);
    out
}

proof fn lemma_claims_step(cs: Seq<CandidateModel>, c: CandidateModel, path: Seq<char>)
    ensures
        claims_path(cs.push(c), path) == (claims_path(cs, path) || is_at(c, path)),
{
    let more = cs.push(c);
    if claims_path(cs, path) {
        let i = choose|i: int| 0 <= i < cs.len() && is_at(#[trigger] cs[i], path);
        assert(more[i] == cs[i]);
    }
    if claims_path(more, path) {
        let i = choose|i: int| 0 <= i < more.len() && is_at(#[trigger] more[i], path);
        if i < cs.len() {
            assert(more[i] == cs[i]);
        }
    }
    assert(more[cs.len() as int] == c);
}

/// The candidates that are reclaimed by removing paths.
pub open spec fn without_commands(cs: Seq<CandidateModel>) -> Seq<CandidateModel>
    decreases cs.len(),
{
    if cs.len() == 0 {
        Seq::empty()
    } else if cs.last().action is Shell {
        without_commands(cs.drop_last())
    } else {
        without_commands(cs.drop_last()).push(cs.last())
    }
}

fn drop_commands(candidates: &Vec<Candidate>) -> (out: Vec<Candidate>)
    ensures
        views(out@) == without_commands(views(candidates@)),
{
    let ghost all = views(candidates@);
    let mut out: Vec<Candidate> = Vec::new();
    let mut i: usize = 0;
    assert(views(out@) =~= without_commands(all.take(0)));
    while i < candidates.len()
        invariant
            i <= candidates@.len(),
            all == views(candidates@),
            views(out@) == without_commands(all.take(i as int)),
        decreases candidates@.len() - i,
    {
        assert(all.take(i + 1).drop_last() =~= all.take(i as int));
        assert(all.take(i + 1).last() == candidates@[i as int]@);
        if !candidates[i].action.is_shell() {
            out.push(candidates[i].dup());
        }
        i += 1;
    }
    assert(all.take(all.len() as int) =~= all);
    out
}

/// What a scan has discovered: each path once, and no commands in a sandbox.
pub open spec fn discovered<P: Provider>(providers: Seq<P>, ctx: &ScanContext) -> Seq<
    CandidateModel,
> {
    let found = deduped(offered(providers, ctx));
    if ctx.paths@.sandboxed {
        without_commands(found)
    } else {
        found
    }
}

/// The candidates of a scan, before anything is measured.
///
/// Commands act on machine-global state: in a sandbox they are dropped, here for all
/// providers, where a new one cannot forget the rule.
pub fn discover<P: Provider>(providers: &Vec<P>, ctx: &ScanContext) -> (out: Vec<Candidate>)
    ensures
        views(out@) == discovered(providers@, ctx),
{
    let found = dedupe(discover_all(providers, ctx));
    if ctx.paths.is_sandboxed() {
        drop_commands(&found)
    } else {
        found
    }
}

/// How the walks of a scan run: serially where the scan has one thread only.
pub open spec fn walk_options_of(config: ScanConfig) -> WalkOptions {
    WalkOptions {
        threads: if config.concurrency == 1 {
            1
        } else {
            0
        },
        same_device: !config.cross_device,
        max_depth: 64,
    }
}

/// How the walks of a scan run: serially where the scan has one thread only.
pub fn walk_options(config: &ScanConfig) -> (o: WalkOptions)
    ensures
        o == walk_options_of(*config),
{
    WalkOptions {
        threads: if config.concurrency == 1 {
            1
        } else {
            0
        },
        same_device: !config.cross_device,
        max_depth: 64,
    }
}

/// What walks found of one candidate: its paths, and its owning project's activity.
#[derive(Debug)]
pub struct CandidateWalk {
    pub walked: Vec<Walked>,
    pub source_mtime: Option<Moment>,
    pub vcs_activity: Option<Moment>,
}

pub struct CandidateWalkModel {
    pub walked: Seq<(Option<Stat>, Seq<WalkEntry>)>,
    pub source_mtime: Option<Moment>,
    pub vcs_activity: Option<Moment>,
}

impl View for CandidateWalk {
    type V = CandidateWalkModel;

    open spec fn view(&self) -> CandidateWalkModel {
        CandidateWalkModel {
            walked: views(self.walked@),
            source_mtime: self.source_mtime,
            vcs_activity: self.vcs_activity,
        }
    }
}

/// A candidate with its measurement.
pub open spec fn measured_candidate(
    c: CandidateModel,
    w: CandidateWalkModel,
    same_device: bool,
    seen: Set<(u64, u64)>,
    now: Moment,
) -> CandidateModel {
    let m = measured_all(w.walked, same_device, seen).0;
    CandidateModel {
        size: Some(m.size),
        signals: Some(signals_of(c, m, w.source_mtime, w.vcs_activity, now)),
        ..c
    }
}

/// The files that have counted after the first candidates.
pub open spec fn seen_after(
    walks: Seq<CandidateWalkModel>,
    same_device: bool,
    seen: Set<(u64, u64)>,
) -> Set<(u64, u64)>
    decreases walks.len(),
{
    if walks.len() == 0 {
        seen
    } else {
        measured_all(
            walks.last().walked,
            same_device,
            seen_after(walks.drop_last(), same_device, seen),
        ).1
    }
}

/// The candidates measured one after the other, sharing what has counted.
pub open spec fn measured_candidates(
    cs: Seq<CandidateModel>,
    walks: Seq<CandidateWalkModel>,
    same_device: bool,
    now: Moment,
) -> Seq<CandidateModel> {
    Seq::new(
        cs.len(),
        |i: int|
            measured_candidate(
                cs[i],
                walks[i],
                same_device,
                seen_after(walks.take(i), same_device, Set::empty()),
                now,
            ),
    )
}

/// The sums of one candidate's paths fit.
pub open spec fn walk_fits(walks: Seq<CandidateWalkModel>, same_device: bool, i: int) -> bool {
    addable_all(
        walks[i].walked,
        same_device,
        seen_after(walks.take(i), same_device, Set::empty()),
    )
}

/// The sums of every candidate's paths fit.
pub open spec fn walks_fit(walks: Seq<CandidateWalkModel>, same_device: bool) -> bool {
    forall|i: int| 0 <= i < walks.len() ==> #[trigger] walk_fits(walks, same_device, i)
}

/// Measure one candidate, given the files that have counted. Nothing where its sizes do not add up.
pub fn measure_candidate(
    candidate: &Candidate,
    walk: &CandidateWalk,
    links: &mut LinkTracker,
    opts: &WalkOptions,
    now: Moment,
) -> (c: Option<Candidate>)
    ensures
        match c {
            Some(measured) => {
                &&& addable_all(walk@.walked, opts.same_device, old(links)@)
                &&& measured@ == measured_candidate(
                    candidate@,
                    walk@,
                    opts.same_device,
                    old(links)@,
                    now,
                )
                &&& final(links)@ == measured_all(walk@.walked, opts.same_device, old(links)@).1
            },
            None => !addable_all(walk@.walked, opts.same_device, old(links)@),
        },
{
    match try_measure_all(&walk.walked, links, opts) {
        Some(m) => {
            let signals = derive_signals(
                candidate,
                &m,
                walk.source_mtime,
                walk.vcs_activity,
                now,
            );
            Some(candidate.with_measurement(m.size, signals))
        },
        None => None,
    }
}

/// Whether the sizes of every candidate's paths add up.
pub fn walks_add_up(walks: &Vec<CandidateWalk>, opts: &WalkOptions) -> (r: bool)
    ensures
        r == walks_fit(views(walks@), opts.same_device),
{
    let ghost ws = views(walks@);
    let mut links = LinkTracker::new();
    let mut i: usize = 0;
    assert(ws.take(0) =~= Seq::empty());
    while i < walks.len()
        invariant
            i <= walks@.len(),
            ws == views(walks@),
            links@ == seen_after(ws.take(i as int), opts.same_device, Set::empty()),
            forall|k: int| 0 <= k < i ==> #[trigger] walk_fits(ws, opts.same_device, k),
        decreases walks@.len() - i,
    {
        proof {
            assert(ws[i as int] == walks@[i as int]@);
            assert(ws.take(i + 1).drop_last() =~= ws.take(i as int));
            assert(ws.take(i + 1).last() == walks@[i as int]@);
        }
        if try_measure_all(&walks[i].walked, &mut links, opts).is_none() {
            assert(!walk_fits(ws, opts.same_device, i as int));
            return false;
        }
        assert(walk_fits(ws, opts.same_device, i as int));
        i += 1;
    }
    true
}

/// Measure the candidates. They share one tracker, so that a file reached through two of them
/// is counted once.
pub fn measure_candidates(
    candidates: &Vec<Candidate>,
    walks: &Vec<CandidateWalk>,
    opts: &WalkOptions,
    now: Moment,
) -> (out: Vec<Candidate>)
    requires
        candidates@.len() == walks@.len(),
        walks_fit(views(walks@), opts.same_device),
    ensures
        views(out@) == measured_candidates(
            views(candidates@),
            views(walks@),
            opts.same_device,
            now,
        ),
{
    let ghost cs = views(candidates@);
    let ghost ws = views(walks@);
    let mut links = LinkTracker::new();
    let mut out: Vec<Candidate> = Vec::new();
    let mut i: usize = 0;
    assert(ws.take(0) =~= Seq::empty());
    while i < candidates.len()
        invariant
            i <= candidates@.len(),
            candidates@.len() == walks@.len(),
            cs == views(candidates@),
            ws == views(walks@),
            walks_fit(ws, opts.same_device),
            links@ == seen_after(ws.take(i as int), opts.same_device, Set::empty()),
            out@.len() == i,
            forall|k: int|
                0 <= k < i ==> (#[trigger] out@[k])@ == measured_candidates(
                    cs,
                    ws,
                    opts.same_device,
                    now,
                )[k],
        decreases candidates@.len() - i,
    {
        proof {
            assert(ws[i as int] == walks@[i as int]@);
            assert(cs[i as int] == candidates@[i as int]@);
            assert(ws.take(i + 1).drop_last() =~= ws.take(i as int));
            assert(ws.take(i + 1).last() == walks@[i as int]@);
            assert(walk_fits(ws, opts.same_device, i as int));
        }
        if let Some(c) = measure_candidate(&candidates[i], &walks[i], &mut links, opts, now) {
            out.push(c);
        }
        i += 1;
    }
    assert(views(out@) =~= measured_candidates(cs, ws, opts.same_device, now));
    out
}

/// The finished product of a scan.
#[derive(Debug, Clone, PartialEq)]
pub struct ScanResult {
    /// Ranked, filtered candidates: what the user is offered.
    pub candidates: Vec<Candidate>,
    /// Everything discovered, before filtering, so that what is hidden can be told.
    pub all: Vec<Candidate>,
    pub projects_scanned: usize,
    pub elapsed_ms: u64,
    /// Directories the walk could not read, so totals are a floor.
    pub unreadable: Vec<String>,
}

impl Default for ScanResult {
    fn default() -> (r: ScanResult)
        ensures
            r.candidates@.len() == 0,
            r.all@.len() == 0,
            r.projects_scanned == 0,
            r.elapsed_ms == 0,
            r.unreadable@.len() == 0,
    {
        ScanResult {
            candidates: Vec::new(),
            all: Vec::new(),
            projects_scanned: 0,
            elapsed_ms: 0,
            unreadable: Vec::new(),
        }
    }
}

/// An id occurs among candidates.
pub open spec fn has_id(cs: Seq<CandidateModel>, id: Seq<char>) -> bool {
    exists|i: int| 0 <= i < cs.len() && (#[trigger] cs[i]).id == id
}

/// The candidates whose id is not among the shown ones.
pub open spec fn hidden_among(all: Seq<CandidateModel>, shown: Seq<CandidateModel>) -> Seq<
    CandidateModel,
>
    decreases all.len(),
{
    if all.len() == 0 {
        Seq::empty()
    } else if has_id(shown, all.last().id) {
        hidden_among(all.drop_last(), shown)
    } else {
        hidden_among(all.drop_last(), shown).push(all.last())
    }
}

/// The first candidate with an id.
pub open spec fn first_with_id(all: Seq<CandidateModel>, id: Seq<char>) -> Option<CandidateModel>
    decreases all.len(),
{
    if all.len() == 0 {
        None
    } else if all[0].id == id {
        Some(all[0])
    } else {
        first_with_id(all.skip(1), id)
    }
}

fn knows_id(cs: &Vec<Candidate>, id: &str) -> (r: bool)
    ensures
        r == has_id(views(cs@), id@),
{
    let mut i: usize = 0;
    while i < cs.len()
        invariant
            i <= cs@.len(),
            forall|k: int| 0 <= k < i ==> (#[trigger] views(cs@)[k]).id != id@,
        decreases cs@.len() - i,
    {
        if same(cs[i].id.0.as_str(), id) {
            assert(views(cs@)[i as int].id == id@);
            return true;
        }
        i += 1;
    }
    false
}

/// What is hidden of the first candidates is no more than what is hidden of all.
proof fn lemma_hidden_grows(all: Seq<CandidateModel>, shown: Seq<CandidateModel>, i: int)
    requires
        0 <= i <= all.len(),
    ensures
        total_freed(hidden_among(all.take(i), shown)) <= total_freed(hidden_among(all, shown)),
    decreases all.len() - i,
{
    if i == all.len() {
        assert(all.take(i) =~= all);
    } else {
        assert(all.drop_last().take(i) =~= all.take(i));
        lemma_hidden_grows(all.drop_last(), shown, i);
        let before = hidden_among(all.drop_last(), shown);
        assert(before.push(all.last()).drop_last() =~= before);
    }
}

impl ScanResult {
    pub fn total_reclaimable(&self) -> (n: u64)
        requires
            total_freed(views(self.candidates@)) <= u64::MAX,
        ensures
            n == total_freed(views(self.candidates@)),
    {
        total_reclaimable(&self.candidates)
    }

    /// Candidates hidden by the filter, and how much they add up to. Nothing where that does not
    /// fit in 64 bits.
    pub fn try_hidden(&self) -> (r: Option<(usize, u64)>)
        ensures
            match r {
                Some((count, bytes)) => {
                    &&& count == hidden_among(views(self.all@), views(self.candidates@)).len()
                    &&& bytes == total_freed(
                        hidden_among(views(self.all@), views(self.candidates@)),
                    )
                },
                None => total_freed(hidden_among(views(self.all@), views(self.candidates@)))
                    > u64::MAX,
            },
    {
        let ghost all = views(self.all@);
        let ghost shown = views(self.candidates@);
        let mut count: usize = 0;
        let mut bytes: u64 = 0;
        let mut i: usize = 0;
        assert(all.take(0) =~= Seq::empty());
        while i < self.all.len()
            invariant
                i <= self.all@.len(),
                all == views(self.all@),
                shown == views(self.candidates@),
                count == hidden_among(all.take(i as int), shown).len(),
                count <= i,
                bytes == total_freed(hidden_among(all.take(i as int), shown)),
            decreases self.all@.len() - i,
        {
            proof {
                let before = hidden_among(all.take(i as int), shown);
                assert(all.take(i + 1).drop_last() =~= all.take(i as int));
                assert(all.take(i + 1).last() == self.all@[i as int]@);
                assert(before.push(self.all@[i as int]@).drop_last() =~= before);
                lemma_hidden_grows(all, shown, i + 1);
            }
            if !knows_id(&self.candidates, self.all[i].id.0.as_str()) {
                count += 1;
                match bytes.checked_add(self.all[i].reclaimable()) {
                    Some(sum) => {
                        bytes = sum;
                    },
                    None => {
                        return None;
                    },
                }
            }
            i += 1;
        }
        assert(all.take(all.len() as int) =~= all);
        Some((count, bytes))
    }

    /// Candidates hidden by the filter, and how much they add up to.
    pub fn hidden(&self) -> (r: (usize, u64))
        requires
            total_freed(hidden_among(views(self.all@), views(self.candidates@))) <= u64::MAX,
        ensures
            r.0 == hidden_among(views(self.all@), views(self.candidates@)).len(),
            r.1 == total_freed(hidden_among(views(self.all@), views(self.candidates@))),
    {
        match self.try_hidden() {
            Some(hidden) => hidden,
            None => (0, 0),
        }
    }

    pub fn by_group(&self) -> (out: Vec<(Group, Size)>)
        requires
            forall|g: Group| group_fits(views(self.candidates@), g),
        ensures
            crate::sort::stably_sorted(
                group_sizes(views(self.candidates@), Group::every()),
                out@,
                |a: (Group, Size), b: (Group, Size)| larger_first(a, b),
            ),
    {
        totals_by_group(&self.candidates)
    }

    /// The candidate with an id, shown or hidden.
    pub fn find(&self, id: &CandidateId) -> (found: Option<&Candidate>)
        ensures
            match found {
                Some(c) => first_with_id(views(self.all@), id@) == Some(c@),
                None => first_with_id(views(self.all@), id@) is None,
            },
    {
        let ghost all = views(self.all@);
        let mut i: usize = 0;
        assert(all.skip(0) =~= all);
        while i < self.all.len()
            invariant
                i <= self.all@.len(),
                all == views(self.all@),
                first_with_id(all, id@) == first_with_id(all.skip(i as int), id@),
            decreases self.all@.len() - i,
        {
            assert(all.skip(i as int)[0] == self.all@[i as int]@);
            if same(self.all[i].id.0.as_str(), id.0.as_str()) {
                return Some(&self.all[i]);
            }
            assert(all.skip(i as int).skip(1) =~= all.skip(i + 1));
            i += 1;
        }
        None
    }
}

/// A scan's result shows what was measured, ranked by its scores and filtered.
pub open spec fn completes(
    measured: Seq<CandidateModel>,
    scores: Seq<u64>,
    filter: FilterModel,
    r: ScanResult,
) -> bool {
    &&& ranked(scored(measured, scores), views(r.all@))
    &&& views(r.candidates@) == filter.selection(views(r.all@))
}

/// Complete a scan: rank what was measured by its scores, and filter it.
pub fn scan(
    measured: &Vec<Candidate>,
    scores: &Vec<u64>,
    filter: &Filter,
    projects_scanned: usize,
    elapsed_ms: u64,
    unreadable: Vec<String>,
) -> (r: ScanResult)
    requires
        measured@.len() == scores@.len(),
    ensures
        completes(views(measured@), scores@, filter@, r),
        r.projects_scanned == projects_scanned,
        r.elapsed_ms == elapsed_ms,
        r.unreadable == unreadable,
{
    let all = rank(measured, scores);
    let candidates = filter.apply(&all);
    ScanResult { candidates, all, projects_scanned, elapsed_ms, unreadable }
}

/// The filter that all front-ends start from.
pub fn filter_from_config(config: &Config) -> (f: Filter)
    ensures
        f@ == (FilterModel {
            min_size: match crate::format::parse_bytes_spec(config.thresholds.min_size@) {
                Ok(n) => n as u64,
                Err(_) => 0,
            },
            ..FilterModel::open_filter()
        }),
{
    let min_size: u64 = match config.thresholds.min_size_bytes() {
        Ok(n) => n,
        Err(_) => 0,
    };
    let mut f = Filter::default();
    f.min_size = min_size;
    f
}

/// In a sandbox nothing that runs a command is offered.
pub proof fn a_sandbox_offers_no_commands<P: Provider>(
    providers: Seq<P>,
    ctx: &ScanContext,
    i: int,
)
    requires
        ctx.paths@.sandboxed,
        0 <= i < discovered(providers, ctx).len(),
    ensures
        !(discovered(providers, ctx)[i].action is Shell),
{
    lemma_no_commands(deduped(offered(providers, ctx)), i);
}

proof fn lemma_no_commands(cs: Seq<CandidateModel>, i: int)
    requires
        0 <= i < without_commands(cs).len(),
    ensures
        !(without_commands(cs)[i].action is Shell),
        cs.contains(without_commands(cs)[i]),
    decreases cs.len(),
{
    let rest = cs.drop_last();
    let before = without_commands(rest);
    if i < before.len() {
        lemma_no_commands(rest, i);
        let k = choose|k: int| 0 <= k < rest.len() && rest[k] == before[i];
        assert(cs[k] == before[i]);
    } else {
        assert(cs[cs.len() - 1] == without_commands(cs)[i]);
    }
}

/// No two candidates share a primary path, and every path that was offered is still offered.
pub proof fn a_path_is_offered_once(cs: Seq<CandidateModel>)
    ensures
        forall|i: int, j: int|
            0 <= i < j < deduped(cs).len() ==> !same_primary(
                #[trigger] deduped(cs)[i],
                #[trigger] deduped(cs)[j],
            ),
        forall|path: Seq<char>| claims_path(cs, path) == #[trigger] claims_path(deduped(cs), path),
    decreases cs.len(),
{
    if cs.len() > 0 {
        let rest = cs.drop_last();
        let last = cs.last();
        a_path_is_offered_once(rest);
        let before = deduped(rest);
        let now = deduped(cs);
        assert(cs =~= rest.push(last));
        assert forall|path: Seq<char>| claims_path(cs, path) == #[trigger] claims_path(now, path) by {
            lemma_claims_step(rest, last, path);
            lemma_claims_step(before, last, path);
            assert(claims_path(rest, path) == claims_path(before, path));
            if let Some(p) = last.primary() {
                if components(p) == components(path) {
                    assert(claims_path(rest, p) == claims_path(before, p));
                    lemma_claims_same(rest, p, path);
                }
            }
        }
        assert forall|i: int, j: int| 0 <= i < j < now.len() implies !same_primary(
            #[trigger] now[i],
            #[trigger] now[j],
        ) by {
            if j < before.len() {
                assert(!same_primary(before[i], before[j]));
            } else {
                assert(now[i] == before[i] && now[j] == last);
                if same_primary(before[i], last) {
                    let p = last.primary()->0;
                    assert(claims_path(before, p)) by {
                        assert(is_at(before[i], p));
                    }
                    assert(claims_path(rest, p) == claims_path(before, p));
                }
            }
        }
    } else {
        assert forall|path: Seq<char>| claims_path(cs, path) == #[trigger] claims_path(
            deduped(cs),
            path,
        ) by {
            assert(deduped(cs) =~= cs);
        }
    }
}

proof fn lemma_claims_same(cs: Seq<CandidateModel>, a: Seq<char>, b: Seq<char>)
    requires
        components(a) == components(b),
    ensures
        claims_path(cs, a) == claims_path(cs, b),
{
}

/// Both have a primary path, and it is the same.
pub open spec fn same_primary(a: CandidateModel, b: CandidateModel) -> bool {
    a.primary() is Some && b.primary() is Some && components(a.primary()->0) == components(
        b.primary()->0,
    )
}

/// Ids are all different.
pub open spec fn distinct_ids(cs: Seq<CandidateModel>) -> bool {
    forall|i: int, j: int|
        #![trigger cs[i], cs[j]]
        0 <= i < j < cs.len() ==> cs[i].id != cs[j].id
}

/// Nothing is silently dropped: what is shown and what is hidden is everything, in number and
/// in bytes.
pub proof fn shown_and_hidden_is_everything(filter: FilterModel, all: Seq<CandidateModel>)
    requires
        distinct_ids(all),
    ensures
        filter.selection(all).len() + hidden_among(all, filter.selection(all)).len() == all.len(),
        total_freed(filter.selection(all)) + total_freed(
            hidden_among(all, filter.selection(all)),
        ) == total_freed(all),
{
    lemma_shown_prefix(filter, all, all.len() as int);
    assert(all.take(all.len() as int) =~= all);
}

proof fn lemma_shown_prefix(filter: FilterModel, all: Seq<CandidateModel>, n: int)
    requires
        distinct_ids(all),
        0 <= n <= all.len(),
    ensures
        filter.selection(all.take(n)).len() + hidden_among(
            all.take(n),
            filter.selection(all),
        ).len() == n,
        total_freed(filter.selection(all.take(n))) + total_freed(
            hidden_among(all.take(n), filter.selection(all)),
        ) == total_freed(all.take(n)),
    decreases n,
{
    if n > 0 {
        lemma_shown_prefix(filter, all, n - 1);
        let part = all.take(n);
        let rest = all.take(n - 1);
        assert(part.drop_last() =~= rest);
        assert(part.last() == all[n - 1]);
        let shown = filter.selection(all);
        lemma_shown_id(filter, all, n - 1);
        let c = all[n - 1];
        let s = filter.selection(rest);
        let h = hidden_among(rest, shown);
        assert(s.push(c).drop_last() =~= s);
        assert(h.push(c).drop_last() =~= h);
    } else {
        assert(all.take(0) =~= Seq::empty());
    }
}

/// With distinct ids, an id is shown exactly where its candidate passes.
proof fn lemma_shown_id(filter: FilterModel, all: Seq<CandidateModel>, n: int)
    requires
        distinct_ids(all),
        0 <= n < all.len(),
    ensures
        has_id(filter.selection(all), all[n].id) == filter.passes(all[n]),
{
    let shown = filter.selection(all);
    if has_id(shown, all[n].id) {
        let i = choose|i: int| 0 <= i < shown.len() && (#[trigger] shown[i]).id == all[n].id;
        filtered_candidates_obey_the_filter(filter, all, i);
        let k = choose|k: int| 0 <= k < all.len() && all[k] == shown[i];
        if k < n {
            assert(all[k].id != all[n].id);
        } else if k > n {
            assert(all[n].id != all[k].id);
        }
    }
    if filter.passes(all[n]) {
        lemma_selected(filter, all, n);
        let i = choose|i: int| 0 <= i < shown.len() && shown[i] == all[n];
        assert(shown[i].id == all[n].id);
    }
}

proof fn lemma_selected(filter: FilterModel, all: Seq<CandidateModel>, n: int)
    requires
        0 <= n < all.len(),
        filter.passes(all[n]),
    ensures
        filter.selection(all).contains(all[n]),
    decreases all.len(),
{
    let rest = all.drop_last();
    let before = filter.selection(rest);
    let now = filter.selection(all);
    if n < rest.len() {
        lemma_selected(filter, rest, n);
        let i = choose|i: int| 0 <= i < before.len() && before[i] == rest[n];
        assert(now[i] == all[n]);
    } else {
        assert(now[now.len() - 1] == all[n]);
    }
}

/// Of the candidates for a path the first is kept, and so is every candidate without a path, all in
/// their order.
pub proof fn the_first_to_claim_a_path_keeps_it(cs: Seq<CandidateModel>)
    ensures
        deduped(cs) == numbers_where(
            cs.len(),
            |i: int|
                cs[i].paths.len() == 0 || forall|k: int|
                    0 <= k < i && (#[trigger] cs[k]).paths.len() > 0 ==> components(cs[k].paths[0])
                        != components(cs[i].paths[0]),
        ).map_values(|i: int| cs[i]),
{
    lemma_deduped(cs, cs.len());
    assert(cs.take(cs.len() as int) =~= cs);
}

proof fn lemma_deduped(cs: Seq<CandidateModel>, n: nat)
    requires
        n <= cs.len(),
    ensures
        deduped(cs.take(n as int)) == numbers_where(
            n,
            |i: int|
                cs[i].paths.len() == 0 || forall|k: int|
                    0 <= k < i && (#[trigger] cs[k]).paths.len() > 0 ==> components(cs[k].paths[0])
                        != components(cs[i].paths[0]),
        ).map_values(|i: int| cs[i]),
    decreases n,
{
    let first = |i: int|
        cs[i].paths.len() == 0 || forall|k: int|
            0 <= k < i && (#[trigger] cs[k]).paths.len() > 0 ==> components(cs[k].paths[0])
                != components(cs[i].paths[0]);
    let item = |i: int| cs[i];
    if n > 0 {
        let m = (n - 1) as nat;
        let fewer = cs.take(m as int);
        let c = cs[m as int];
        lemma_deduped(cs, m);
        lemma_numbers_step(m, first);
        assert(cs.take(n as int).drop_last() =~= fewer);
        assert(cs.take(n as int).last() == c);
        if c.paths.len() > 0 {
            let path = c.paths[0];
            if claims_path(fewer, path) {
                let k = choose|k: int| 0 <= k < fewer.len() && is_at(#[trigger] fewer[k], path);
                assert(cs[k].paths.len() > 0);
                assert(components(cs[k].paths[0]) == components(path));
            } else {
                assert forall|k: int| 0 <= k < m && (#[trigger] cs[k]).paths.len() > 0 implies
                    components(cs[k].paths[0]) != components(path) by {
                    assert(!is_at(fewer[k], path));
                }
            }
        }
        let before = numbers_where(m, first);
        assert(before.push(m as int).map_values(item) =~= before.map_values(item).push(c));
    } else {
        lemma_numbers_step(0, first);
        assert(numbers_where(0, first).map_values(item) =~= Seq::empty());
    }
}

/// What is offered is what each enabled provider offers, one provider after the other, and nothing
/// of a disabled one.
pub proof fn every_enabled_provider_is_asked<P: Provider>(
    a: Seq<P>,
    b: Seq<P>,
    p: P,
    ctx: &ScanContext,
)
    ensures
        offered(a + b, ctx) == offered(a, ctx) + offered(b, ctx),
        ctx.config.providers.enables(p.name()) ==> offered(seq![p], ctx) == p.offers(ctx),
        !ctx.config.providers.enables(p.name()) ==> offered(seq![p], ctx) == Seq::<
            CandidateModel,
        >::empty(),
    decreases b.len(),
{
    assert(seq![p].drop_last() =~= Seq::<P>::empty());
    assert(seq![p].last() == p);
    assert(offered(Seq::<P>::empty(), ctx) + p.offers(ctx) =~= p.offers(ctx));
    if b.len() > 0 {
        every_enabled_provider_is_asked(a, b.drop_last(), p, ctx);
        assert((a + b).drop_last() =~= a + b.drop_last());
        let last = b.last();
        assert(offered(a, ctx) + offered(b.drop_last(), ctx) + last.offers(ctx) =~= offered(a, ctx)
            + (offered(b.drop_last(), ctx) + last.offers(ctx)));
    } else {
        assert(a + b =~= a);
        assert(offered(a, ctx) + offered(b, ctx) =~= offered(a, ctx));
    }
}

/// A sandbox leaves out the commands and keeps everything else; outside one nothing is left out.
pub proof fn a_sandbox_leaves_out_commands_alone<P: Provider>(providers: Seq<P>, ctx: &ScanContext)
    ensures
        ctx.paths@.sandboxed ==> discovered(providers, ctx) == deduped(
            offered(providers, ctx),
        ).filter(|c: CandidateModel| c.action is RemovePaths),
        !ctx.paths@.sandboxed ==> discovered(providers, ctx) == deduped(offered(providers, ctx)),
{
    lemma_without_commands(deduped(offered(providers, ctx)));
}

proof fn lemma_without_commands(cs: Seq<CandidateModel>)
    ensures
        without_commands(cs) == cs.filter(|c: CandidateModel| c.action is RemovePaths),
    decreases cs.len(),
{
    reveal(Seq::filter);
    if cs.len() > 0 {
        lemma_without_commands(cs.drop_last());
    } else {
        assert(without_commands(cs) =~= cs);
    }
}

/// The paths that are there are kept, in order.
pub proof fn only_missing_paths_are_left_out(disk: DiskModel, paths: Seq<Seq<char>>)
    ensures
        present_paths(disk, paths) == paths.filter(
            |path: Seq<char>|
                exists|i: int| 0 <= i < disk.entries.len() && (#[trigger] disk.entries[i]).path == path,
        ),
    decreases paths.len(),
{
    reveal(Seq::filter);
    if paths.len() > 0 {
        only_missing_paths_are_left_out(disk, paths.drop_last());
        a_path_is_there_where_it_is_listed(disk, paths.last());
    } else {
        assert(present_paths(disk, paths) =~= paths);
    }
}

/// What is hidden is every candidate whose id is not shown, in order.
pub proof fn what_is_not_shown_is_hidden(all: Seq<CandidateModel>, shown: Seq<CandidateModel>)
    ensures
        hidden_among(all, shown) == all.filter(
            |c: CandidateModel|
                forall|i: int| 0 <= i < shown.len() ==> (#[trigger] shown[i]).id != c.id,
        ),
    decreases all.len(),
{
    reveal(Seq::filter);
    if all.len() > 0 {
        what_is_not_shown_is_hidden(all.drop_last(), shown);
    } else {
        assert(hidden_among(all, shown) =~= all);
    }
}

/// An id finds the first candidate that has it, and nothing where none has.
pub proof fn an_id_finds_its_candidate(all: Seq<CandidateModel>, id: Seq<char>)
    ensures
        first_with_id(all, id) is None <==> forall|i: int|
            0 <= i < all.len() ==> (#[trigger] all[i]).id != id,
        first_with_id(all, id) matches Some(c) ==> c.id == id && exists|i: int|
            0 <= i < all.len() && #[trigger] all[i] == c && forall|k: int|
                0 <= k < i ==> (#[trigger] all[k]).id != id,
    decreases all.len(),
{
    if all.len() > 0 {
        let rest = all.skip(1);
        an_id_finds_its_candidate(rest, id);
        if all[0].id != id {
            if let Some(c) = first_with_id(rest, id) {
                let i = choose|i: int|
                    0 <= i < rest.len() && #[trigger] rest[i] == c && forall|k: int|
                        0 <= k < i ==> (#[trigger] rest[k]).id != id;
                assert(all[i + 1] == c);
                assert forall|k: int| 0 <= k < i + 1 implies (#[trigger] all[k]).id != id by {
                    if k > 0 {
                        assert(all[k] == rest[k - 1]);
                    }
                }
            } else {
                assert forall|i: int| 0 <= i < all.len() implies (#[trigger] all[i]).id != id by {
                    if i > 0 {
                        assert(all[i] == rest[i - 1]);
                    }
                }
            }
        }
    }
}

/// Measuring gives each candidate the size of its own walk, given what all walks before it met, and
/// the freshness that follows. It changes nothing else of a candidate.
pub proof fn each_candidate_has_its_own_measurement(
    cs: Seq<CandidateModel>,
    walks: Seq<CandidateWalkModel>,
    same_device: bool,
    now: Moment,
    i: int,
)
    requires
        0 <= i < cs.len() == walks.len(),
    ensures
        ({
            let out = measured_candidates(cs, walks, same_device, now);
            let m = measured_all(
                walks[i].walked,
                same_device,
                seen_after(walks.take(i), same_device, Set::empty()),
            ).0;
            &&& out.len() == cs.len()
            &&& out[i].size == Some(m.size)
            &&& out[i].signals == Some(
                signals_of(cs[i], m, walks[i].source_mtime, walks[i].vcs_activity, now),
            )
            &&& out[i].id == cs[i].id && out[i].provider == cs[i].provider
            &&& out[i].group == cs[i].group && out[i].label == cs[i].label
            &&& out[i].detail == cs[i].detail && out[i].paths == cs[i].paths
            &&& out[i].kind == cs[i].kind && out[i].tier == cs[i].tier
            &&& out[i].action == cs[i].action && out[i].regen == cs[i].regen
            &&& out[i].warnings == cs[i].warnings && out[i].project == cs[i].project
            &&& out[i].score == cs[i].score
        }),
        seen_after(walks.take(0), same_device, Set::empty()) == Set::<(u64, u64)>::empty(),
        seen_after(walks.take(i + 1), same_device, Set::empty()) == measured_all(
            walks[i].walked,
            same_device,
            seen_after(walks.take(i), same_device, Set::empty()),
        ).1,
{
    assert(walks.take(i + 1).drop_last() =~= walks.take(i));
    assert(walks.take(i + 1).last() == walks[i]);
}

/// A file of several names that one candidate has met is met for every candidate after it, so that
/// its bytes are claimed once in a scan.
pub proof fn no_bytes_are_claimed_twice(
    walks: Seq<CandidateWalkModel>,
    same_device: bool,
    i: int,
    j: int,
)
    requires
        0 <= i <= j <= walks.len(),
    ensures
        seen_after(walks.take(i), same_device, Set::empty()).subset_of(
            seen_after(walks.take(j), same_device, Set::empty()),
        ),
    decreases j - i,
{
    if i < j {
        no_bytes_are_claimed_twice(walks, same_device, i, j - 1);
        assert(walks.take(j).drop_last() =~= walks.take(j - 1));
        assert(walks.take(j).last() == walks[j - 1]);
        lemma_measured_all_keeps(
            walks[j - 1].walked,
            same_device,
            seen_after(walks.take(j - 1), same_device, Set::empty()),
        );
    }
}

proof fn lemma_measured_all_keeps(
    walked: Seq<(Option<Stat>, Seq<WalkEntry>)>,
    same_device: bool,
    seen: Set<(u64, u64)>,
)
    ensures
        seen.subset_of(measured_all(walked, same_device, seen).1),
    decreases walked.len(),
{
    if walked.len() > 0 {
        lemma_measured_all_keeps(walked.drop_last(), same_device, seen);
        measuring_forgets_no_link(
            walked.last(),
            same_device,
            measured_all(walked.drop_last(), same_device, seen).1,
        );
    }
}

/// A scan keeps every measured candidate with its score, and shows of them what passes the filter,
/// in the order of their rank.
pub proof fn a_scan_shows_what_passes(
    measured: Seq<CandidateModel>,
    scores: Seq<u64>,
    filter: FilterModel,
    r: ScanResult,
)
    requires
        measured.len() == scores.len(),
        completes(measured, scores, filter, r),
    ensures
        views(r.all@).to_multiset() == Seq::new(
            measured.len(),
            |k: int| CandidateModel { score: Some(scores[k]), ..measured[k] },
        ).to_multiset(),
        views(r.candidates@) == views(r.all@).filter(|c: CandidateModel| filter.passes(c)),
        ranked(scored(measured, scores), views(r.all@)),
{
    ranking_keeps_every_candidate(scored(measured, scores), views(r.all@));
    assert(scored(measured, scores) =~= Seq::new(
        measured.len(),
        |k: int| CandidateModel { score: Some(scores[k]), ..measured[k] },
    ));
    a_filter_selects_what_passes(filter, views(r.all@));
}

/// A walk stays on one device unless crossing is configured, and is serial exactly where one worker
/// is configured.
pub proof fn a_walk_follows_the_configuration(config: ScanConfig)
    ensures
        walk_options_of(config).same_device != config.cross_device,
        (walk_options_of(config).threads == 1) == (config.concurrency == 1),
        walk_options_of(config).max_depth == 64,
{
}

} // verus!
