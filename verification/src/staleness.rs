//! Freshness signals, ranking and filtering.
//!
//! The score is only a sorting aid, and is computed elsewhere; everything here
//! is a function of its arguments.
use vstd::prelude::*;
use vstd::string::*;
use crate::config::{is_named_by, names_provider};
use crate::model::{
    Candidate, CandidateModel, Group, Kind, Moment, Signals, Size, Tier, days_between, days_since,
    elapsed_seconds, seconds_between,
};
use crate::sort::{
    Descending, Ranked, is_stable_order, lemma_order_by_key, lemma_sorted_pairs, order_of, pick,
    pick_copies, positions, sorting_keeps_every_item, stably_sorted,
};
use crate::text::{Dup, lemma_text_le_total, lemma_text_le_transitive, text_at_most, text_le, views};
use crate::walk::{Measurement, newest, newest_of, vcs_activity};

verus! {

broadcast use crate::text::lemma_views_push;

/// Anything touched inside this window is treated as possibly in use right now.
pub const ACTIVE_WINDOW_SECONDS: u64 = 86_400;

/// Touched within the last day. A moment in the future means a skewed clock, and counts as
/// active too.
pub open spec fn active_at(last_used: Moment, now: Moment) -> bool {
    last_used > now || elapsed_seconds(last_used, now) < ACTIVE_WINDOW_SECONDS
}

pub fn is_active_now(last_used: Moment, now: Moment) -> (r: bool)
    ensures
        r == active_at(last_used, now),
{
    last_used > now || seconds_between(last_used, now) < ACTIVE_WINDOW_SECONDS
}

/// The project whose activity tells how fresh the candidate is, if it belongs to one.
pub open spec fn owner(c: CandidateModel) -> Option<Seq<char>> {
    if c.kind == Kind::ProjectArtifact {
        c.project
    } else {
        None
    }
}

/// The project whose sources and git state decide on the candidate's freshness.
pub fn owning_project(candidate: &Candidate) -> (p: Option<&str>)
    ensures
        match p {
            Some(path) => owner(candidate@) == Some(path@),
            None => owner(candidate@) is None,
        },
{
    match (candidate.kind, &candidate.project) {
        (Kind::ProjectArtifact, Some(project)) => Some(project.as_str()),
        _ => None,
    }
}

/// The signals of a measured candidate. The activity of a project counts for its artifacts
/// alone.
pub open spec fn signals_of(
    c: CandidateModel,
    m: Measurement,
    source_mtime: Option<Moment>,
    vcs_activity: Option<Moment>,
    now: Moment,
) -> Signals {
    let owned = owner(c) is Some;
    let raw = Signals {
        artifact_mtime: match m.newest_mtime {
            Some(t) => t,
            None => 0,
        },
        artifact_atime: m.newest_atime,
        source_mtime: if owned {
            source_mtime
        } else {
            None
        },
        vcs_activity: if owned {
            vcs_activity
        } else {
            None
        },
        last_used_days: 0,
        active_now: false,
    };
    Signals {
        last_used_days: days_between(raw.latest(), now) as u32,
        active_now: active_at(raw.latest(), now),
        ..raw
    }
}

/// Build the freshness signals for a candidate from its measurement.
///
/// An artifact takes its owning project's activity into account: a `target/` directory that
/// is six months old still belongs to a repository that saw a commit yesterday.
pub fn derive_signals(
    candidate: &Candidate,
    measurement: &Measurement,
    source_mtime: Option<Moment>,
    vcs_activity: Option<Moment>,
    now: Moment,
) -> (s: Signals)
    ensures
        s == signals_of(candidate@, *measurement, source_mtime, vcs_activity, now),
{
    let owned = owning_project(candidate).is_some();
    let mut signals = Signals {
        artifact_mtime: match measurement.newest_mtime {
            Some(t) => t,
            None => 0,
        },
        artifact_atime: measurement.newest_atime,
        source_mtime: if owned {
            source_mtime
        } else {
            None
        },
        vcs_activity: if owned {
            vcs_activity
        } else {
            None
        },
        last_used_days: 0,
        active_now: false,
    };
    let last_used = signals.last_used();
    signals.last_used_days = days_since(last_used, now);
    signals.active_now = is_active_now(last_used, now);
    signals
}

/// A project's own freshness: the later of its sources' and its git activity.
pub fn project_last_activity(source: Option<Moment>, vcs: Option<Moment>) -> (m: Option<Moment>)
    ensures
        m == newest_of(source, vcs),
{
    newest(source, vcs)
}

/// What candidates are ranked by: score, then size, then id.
pub struct RankKey {
    pub score: u64,
    pub size: u64,
    pub id: String,
}

impl View for RankKey {
    type V = (u64, nat, Seq<char>);

    open spec fn view(&self) -> (u64, nat, Seq<char>) {
        (self.score, self.size as nat, self.id@)
    }
}

/// Higher scores come first, then larger sizes, then ids in text order.
pub open spec fn ranks_before(a: (u64, nat, Seq<char>), b: (u64, nat, Seq<char>)) -> bool {
    a.0 > b.0 || (a.0 == b.0 && (a.1 > b.1 || (a.1 == b.1 && text_le(a.2, b.2))))
}

impl Ranked for RankKey {
    open spec fn le(a: (u64, nat, Seq<char>), b: (u64, nat, Seq<char>)) -> bool {
        ranks_before(a, b)
    }

    proof fn le_total(a: (u64, nat, Seq<char>), b: (u64, nat, Seq<char>)) {
        lemma_text_le_total(a.2, b.2);
    }

    proof fn le_transitive(
        a: (u64, nat, Seq<char>),
        b: (u64, nat, Seq<char>),
        c: (u64, nat, Seq<char>),
    ) {
        if text_le(a.2, b.2) && text_le(b.2, c.2) {
            lemma_text_le_transitive(a.2, b.2, c.2);
        }
    }

    fn at_most(&self, other: &Self) -> (r: bool) {
        self.score > other.score || (self.score == other.score && (self.size > other.size || (
        self.size == other.size && text_at_most(self.id.as_str(), other.id.as_str()))))
    }
}

pub open spec fn rank_key(c: CandidateModel) -> (u64, nat, Seq<char>) {
    (
        match c.score {
            Some(score) => score,
            None => 0,
        },
        c.freed(),
        c.id,
    )
}

pub open spec fn candidate_le(a: CandidateModel, b: CandidateModel) -> bool {
    ranks_before(rank_key(a), rank_key(b))
}

/// The candidates with their scores.
pub open spec fn scored(candidates: Seq<CandidateModel>, scores: Seq<u64>) -> Seq<CandidateModel> {
    Seq::new(
        candidates.len(),
        |i: int| CandidateModel { score: Some(scores[i]), ..candidates[i] },
    )
}

/// Candidates in the order they are offered in.
pub open spec fn ranked(before: Seq<CandidateModel>, after: Seq<CandidateModel>) -> bool {
    stably_sorted(before, after, |a: CandidateModel, b: CandidateModel| candidate_le(a, b))
}

/// Attach scores to candidates and sort them: by score, then by size so that among equally
/// stale items the bigger win comes first.
pub fn rank(candidates: &Vec<Candidate>, scores: &Vec<u64>) -> (out: Vec<Candidate>)
    requires
        candidates@.len() == scores@.len(),
    ensures
        ranked(scored(views(candidates@), scores@), views(out@)),
{
    let mut with_scores: Vec<Candidate> = Vec::new();
    let mut keys: Vec<RankKey> = Vec::new();
    let mut i: usize = 0;
    while i < candidates.len()
        invariant
            i <= candidates@.len(),
            candidates@.len() == scores@.len(),
            with_scores@.len() == i,
            keys@.len() == i,
            forall|k: int|
                0 <= k < i ==> (#[trigger] with_scores@[k])@ == (CandidateModel {
                    score: Some(scores@[k]),
                    ..candidates@[k]@
                }),
            forall|k: int| 0 <= k < i ==> (#[trigger] keys@[k])@ == rank_key(with_scores@[k]@),
        decreases candidates@.len() - i,
    {
        let c = candidates[i].with_score(scores[i]);
        keys.push(RankKey { score: scores[i], size: c.reclaimable(), id: c.id.0.clone() });
        with_scores.push(c);
        i += 1;
    }
    let ghost all = views(with_scores@);
    assert(all =~= scored(views(candidates@), scores@));
    let order = order_of(&keys);
    assert forall|k: int| 0 <= k < order@.len() implies (#[trigger] order@[k]) < with_scores@.len() by {
        assert(positions(order@)[k] < views(keys@).len());
    }
    let out = pick(&with_scores, &order);
    proof {
        let key = |c: CandidateModel| rank_key(c);
        let le = |a: (u64, nat, Seq<char>), b: (u64, nat, Seq<char>)| <RankKey as Ranked>::le(a, b);
        assert forall|k: int| 0 <= k < all.len() implies views(keys@)[k] == #[trigger] key(all[k]) by {
            assert(keys@[k]@ == rank_key(with_scores@[k]@));
        }
        lemma_order_by_key(all, views(keys@), key, le, positions(order@));
        let by_rank = |a: CandidateModel, b: CandidateModel| candidate_le(a, b);
        assert((|a: CandidateModel, b: CandidateModel| le(key(a), key(b))) =~= by_rank);
        assert(is_stable_order(all, by_rank, positions(order@)));
    }
    out
}

/// Filters applied to a measured, ranked candidate list.
#[derive(Debug, Clone, PartialEq)]
pub struct Filter {
    pub min_size: u64,
    pub max_tier: Option<Tier>,
    pub min_age_days: Option<u32>,
    pub groups: Option<Vec<Group>>,
    pub providers: Option<Vec<String>>,
    /// Let items pass that were touched in the last day. Deleting a cache that a running
    /// build writes to produces confusing failures.
    pub include_active: bool,
}

pub struct FilterModel {
    pub min_size: u64,
    pub max_tier: Option<Tier>,
    pub min_age_days: Option<u32>,
    pub groups: Option<Seq<Group>>,
    pub providers: Option<Seq<Seq<char>>>,
    pub include_active: bool,
}

impl View for Filter {
    type V = FilterModel;

    open spec fn view(&self) -> FilterModel {
        FilterModel {
            min_size: self.min_size,
            max_tier: self.max_tier,
            min_age_days: self.min_age_days,
            groups: match self.groups {
                Some(groups) => Some(groups@),
                None => None,
            },
            providers: match self.providers {
                Some(providers) => Some(views(providers@)),
                None => None,
            },
            include_active: self.include_active,
        }
    }
}

impl FilterModel {
    /// Lets everything pass but what is active.
    pub open spec fn open_filter() -> FilterModel {
        FilterModel {
            min_size: 0,
            max_tier: None,
            min_age_days: None,
            groups: None,
            providers: None,
            include_active: false,
        }
    }

    pub open spec fn passes(self, c: CandidateModel) -> bool {
        &&& c.freed() >= self.min_size
        &&& self.max_tier matches Some(max) ==> c.tier.risk() <= max.risk()
        &&& self.min_age_days matches Some(days) ==> (match c.age() {
            Some(age) => age,
            None => 0,
        }) >= days
        &&& self.groups matches Some(groups) ==> groups.contains(c.group)
        &&& self.providers matches Some(providers) ==> any_names(providers, c.provider)
        &&& self.include_active || !c.active()
    }

    /// The candidates that pass, in order.
    pub open spec fn selection(self, candidates: Seq<CandidateModel>) -> Seq<CandidateModel>
        decreases candidates.len(),
    {
        if candidates.len() == 0 {
            Seq::empty()
        } else {
            let before = self.selection(candidates.drop_last());
            if self.passes(candidates.last()) {
                before.push(candidates.last())
            } else {
                before
            }
        }
    }
}

/// One of the patterns is the provider's id or its prefix.
pub open spec fn any_names(patterns: Seq<Seq<char>>, id: Seq<char>) -> bool {
    exists|i: int| 0 <= i < patterns.len() && names_provider(#[trigger] patterns[i], id)
}

fn any_name(patterns: &Vec<String>, id: &str) -> (r: bool)
    ensures
        r == any_names(views(patterns@), id@),
{
    let mut i: usize = 0;
    while i < patterns.len()
        invariant
            i <= patterns@.len(),
            forall|k: int| 0 <= k < i ==> !names_provider(#[trigger] views(patterns@)[k], id@),
        decreases patterns@.len() - i,
    {
        if is_named_by(id, patterns[i].as_str()) {
            assert(names_provider(views(patterns@)[i as int], id@));
            return true;
        }
        i += 1;
    }
    false
}

fn has_group(groups: &Vec<Group>, group: Group) -> (r: bool)
    ensures
        r == groups@.contains(group),
{
    let mut i: usize = 0;
    while i < groups.len()
        invariant
            i <= groups@.len(),
            forall|k: int| 0 <= k < i ==> groups@[k] != group,
        decreases groups@.len() - i,
    {
        if groups[i] == group {
            return true;
        }
        i += 1;
    }
    false
}

impl Default for Filter {
    fn default() -> (f: Filter)
        ensures
            f@ == FilterModel::open_filter(),
    {
        Filter {
            min_size: 0,
            max_tier: None,
            min_age_days: None,
            groups: None,
            providers: None,
            include_active: false,
        }
    }
}

impl Filter {
    pub fn matches(&self, candidate: &Candidate) -> (r: bool)
        ensures
            r == self@.passes(candidate@),
    {
        if candidate.reclaimable() < self.min_size {
            return false;
        }
        if let Some(max) = self.max_tier {
            if candidate.tier.level() > max.level() {
                return false;
            }
        }
        if let Some(min_age) = self.min_age_days {
            let age: u32 = match candidate.last_used_days() {
                Some(days) => days,
                None => 0,
            };
            if age < min_age {
                return false;
            }
        }
        if let Some(groups) = &self.groups {
            if !has_group(groups, candidate.group) {
                return false;
            }
        }
        if let Some(providers) = &self.providers {
            if !any_name(providers, candidate.provider.as_str()) {
                return false;
            }
        }
        if !self.include_active {
            if let Some(signals) = &candidate.signals {
                if signals.active_now {
                    return false;
                }
            }
        }
        true
    }

    /// The candidates that pass, in order.
    pub fn apply(&self, candidates: &Vec<Candidate>) -> (out: Vec<Candidate>)
        ensures
            views(out@) == self@.selection(views(candidates@)),
    {
        let ghost all = views(candidates@);
        let mut out: Vec<Candidate> = Vec::new();
        let mut i: usize = 0;
        assert(views(out@) =~= self@.selection(all.take(0)));
        while i < candidates.len()
            invariant
                i <= candidates@.len(),
                all == views(candidates@),
                views(out@) == self@.selection(all.take(i as int)),
            decreases candidates@.len() - i,
        {
            assert(all.take(i + 1).drop_last() =~= all.take(i as int));
            assert(all.take(i + 1).last() == candidates@[i as int]@);
            if self.matches(&candidates[i]) {
                out.push(candidates[i].dup());
            }
            i += 1;
        }
        assert(all.take(all.len() as int) =~= all);
        out
    }
}

/// Bytes that all candidates together would free.
pub open spec fn total_freed(candidates: Seq<CandidateModel>) -> nat
    decreases candidates.len(),
{
    if candidates.len() == 0 {
        0
    } else {
        total_freed(candidates.drop_last()) + candidates.last().freed()
    }
}

proof fn lemma_total_freed_grows(candidates: Seq<CandidateModel>, i: int)
    requires
        0 <= i <= candidates.len(),
    ensures
        total_freed(candidates.take(i)) <= total_freed(candidates),
    decreases candidates.len() - i,
{
    if i == candidates.len() {
        assert(candidates.take(i) =~= candidates);
    } else {
        assert(candidates.drop_last().take(i) =~= candidates.take(i));
        lemma_total_freed_grows(candidates.drop_last(), i);
    }
}

/// Total reclaimable bytes across a candidate list.
pub fn total_reclaimable(candidates: &Vec<Candidate>) -> (n: u64)
    requires
        total_freed(views(candidates@)) <= u64::MAX,
    ensures
        n == total_freed(views(candidates@)),
{
    let ghost all = views(candidates@);
    let mut n: u64 = 0;
    let mut i: usize = 0;
    assert(all.take(0) =~= Seq::empty());
    while i < candidates.len()
        invariant
            i <= candidates@.len(),
            all == views(candidates@),
            total_freed(all) <= u64::MAX,
            n == total_freed(all.take(i as int)),
        decreases candidates@.len() - i,
    {
        proof {
            assert(all.take(i + 1).drop_last() =~= all.take(i as int));
            assert(all.take(i + 1).last() == candidates@[i as int]@);
            lemma_total_freed_grows(all, i + 1);
        }
        n = n + candidates[i].reclaimable();
        i += 1;
    }
    assert(all.take(all.len() as int) =~= all);
    n
}

/// The sizes of a group's measured candidates added up, or `None` where it has none.
pub open spec fn group_size(candidates: Seq<CandidateModel>, group: Group) -> Option<Size>
    decreases candidates.len(),
{
    if candidates.len() == 0 {
        None
    } else {
        let before = group_size(candidates.drop_last(), group);
        let last = candidates.last();
        if last.group != group {
            before
        } else {
            match last.size {
                Some(size) => match before {
                    Some(sum) => Some(sum.sum(size)),
                    None => Some(Size::zero().sum(size)),
                },
                None => before,
            }
        }
    }
}

/// The sums of a group's sizes fit.
pub open spec fn group_fits(candidates: Seq<CandidateModel>, group: Group) -> bool
    decreases candidates.len(),
{
    candidates.len() > 0 ==> {
        let rest = candidates.drop_last();
        let last = candidates.last();
        &&& group_fits(rest, group)
        &&& (last.group == group && last.size is Some && group_size(rest, group) is Some)
            ==> group_size(rest, group)->0.addable(last.size->0)
    }
}

proof fn lemma_group_fits_prefix(candidates: Seq<CandidateModel>, group: Group, i: int)
    requires
        group_fits(candidates, group),
        0 <= i <= candidates.len(),
    ensures
        group_fits(candidates.take(i), group),
    decreases candidates.len() - i,
{
    if i == candidates.len() {
        assert(candidates.take(i) =~= candidates);
    } else {
        assert(candidates.drop_last().take(i) =~= candidates.take(i));
        lemma_group_fits_prefix(candidates.drop_last(), group, i);
    }
}

fn sum_group(candidates: &Vec<Candidate>, group: Group) -> (size: Option<Size>)
    requires
        group_fits(views(candidates@), group),
    ensures
        size == group_size(views(candidates@), group),
{
    let ghost all = views(candidates@);
    let mut sum: Option<Size> = None;
    let mut i: usize = 0;
    assert(all.take(0) =~= Seq::empty());
    while i < candidates.len()
        invariant
            i <= candidates@.len(),
            all == views(candidates@),
            group_fits(all, group),
            sum == group_size(all.take(i as int), group),
        decreases candidates@.len() - i,
    {
        proof {
            lemma_group_fits_prefix(all, group, i + 1);
            assert(all.take(i + 1).drop_last() =~= all.take(i as int));
            assert(all.take(i + 1).last() == candidates@[i as int]@);
        }
        if candidates[i].group == group {
            if let Some(size) = candidates[i].size {
                sum = Some(
                    match sum {
                        Some(before) => before + size,
                        None => Size::default() + size,
                    },
                );
            }
        }
        i += 1;
    }
    assert(all.take(all.len() as int) =~= all);
    sum
}

/// The groups with measured candidates among the first ones, in group order, with their sizes.
pub open spec fn group_sizes(candidates: Seq<CandidateModel>, groups: Seq<Group>) -> Seq<
    (Group, Size),
>
    decreases groups.len(),
{
    if groups.len() == 0 {
        Seq::empty()
    } else {
        let before = group_sizes(candidates, groups.drop_last());
        match group_size(candidates, groups.last()) {
            Some(size) => before.push((groups.last(), size)),
            None => before,
        }
    }
}

/// Larger groups first.
pub open spec fn larger_first(a: (Group, Size), b: (Group, Size)) -> bool {
    a.1.on_disk >= b.1.on_disk
}

/// Whether what the candidates free adds up to at most 64 bits.
pub fn freed_fits(candidates: &Vec<Candidate>) -> (r: bool)
    ensures
        r == (total_freed(views(candidates@)) <= u64::MAX),
{
    let ghost all = views(candidates@);
    let limit: u128 = u64::MAX as u128;
    let mut sum: u128 = 0;
    let mut i: usize = 0;
    assert(all.take(0) =~= Seq::empty());
    while i < candidates.len()
        invariant
            i <= candidates@.len(),
            all == views(candidates@),
            limit == u64::MAX,
            sum <= limit,
            sum == total_freed(all.take(i as int)),
        decreases candidates@.len() - i,
    {
        assert(all.take(i + 1).drop_last() =~= all.take(i as int));
        assert(all.take(i + 1).last() == candidates@[i as int]@);
        sum = sum + candidates[i].reclaimable() as u128;
        i += 1;
        if sum > limit {
            proof {
                lemma_total_freed_grows(all, i as int);
            }
            return false;
        }
    }
    assert(all.take(all.len() as int) =~= all);
    true
}

fn can_sum(a: Size, b: Size) -> (r: bool)
    ensures
        r == a.addable(b),
{
    a.logical <= u64::MAX - b.logical && a.on_disk <= u64::MAX - b.on_disk && a.shared <= u64::MAX
        - b.shared && a.files <= u64::MAX - b.files && a.dirs <= u64::MAX - b.dirs
}

fn fits_in_group(candidates: &Vec<Candidate>, group: Group) -> (r: bool)
    ensures
        r == group_fits(views(candidates@), group),
{
    let ghost all = views(candidates@);
    let mut sum: Option<Size> = None;
    let mut i: usize = 0;
    assert(all.take(0) =~= Seq::empty());
    while i < candidates.len()
        invariant
            i <= candidates@.len(),
            all == views(candidates@),
            group_fits(all.take(i as int), group),
            sum == group_size(all.take(i as int), group),
        decreases candidates@.len() - i,
    {
        proof {
            assert(all.take(i + 1).drop_last() =~= all.take(i as int));
            assert(all.take(i + 1).last() == candidates@[i as int]@);
        }
        if candidates[i].group == group {
            if let Some(size) = candidates[i].size {
                match sum {
                    Some(before) => {
                        if !can_sum(before, size) {
                            proof {
                                if group_fits(all, group) {
                                    lemma_group_fits_prefix(all, group, i + 1);
                                }
                            }
                            return false;
                        }
                        sum = Some(before + size);
                    },
                    None => {
                        sum = Some(Size::default() + size);
                    },
                }
            }
        }
        i += 1;
    }
    assert(all.take(all.len() as int) =~= all);
    true
}

/// Whether the sums of every group's sizes fit.
pub fn groups_fit(candidates: &Vec<Candidate>) -> (r: bool)
    ensures
        r == forall|g: Group| group_fits(views(candidates@), g),
{
    let groups = Group::all();
    let mut i: usize = 0;
    while i < groups.len()
        invariant
            i <= groups@.len(),
            groups@ == Group::every(),
            forall|k: int| 0 <= k < i ==> group_fits(views(candidates@), #[trigger] groups@[k]),
        decreases groups@.len() - i,
    {
        if !fits_in_group(candidates, groups[i]) {
            return false;
        }
        i += 1;
    }
    assert forall|g: Group| group_fits(views(candidates@), g) by {
        let k = choose|k: int| 0 <= k < groups@.len() && groups@[k] == g;
        assert(Group::every().contains(g)) by {
            lemma_every_group(g);
        }
        assert(group_fits(views(candidates@), groups@[k]));
    }
    true
}

proof fn lemma_every_group(g: Group)
    ensures
        Group::every().contains(g),
{
    let all = Group::every();
    match g {
        Group::Node => assert(all[0] == g),
        Group::Python => assert(all[1] == g),
        Group::Rust => assert(all[2] == g),
        Group::Jvm => assert(all[3] == g),
        Group::Go => assert(all[4] == g),
        Group::Apple => assert(all[5] == g),
        Group::Android => assert(all[6] == g),
        Group::Containers => assert(all[7] == g),
        Group::DotNet => assert(all[8] == g),
        Group::Ruby => assert(all[9] == g),
        Group::Php => assert(all[10] == g),
        Group::Dart => assert(all[11] == g),
        Group::BuildTools => assert(all[12] == g),
        Group::Editors => assert(all[13] == g),
        Group::System => assert(all[14] == g),
        Group::Ml => assert(all[15] == g),
    }
}

/// Totals per group, the largest first.
pub fn totals_by_group(candidates: &Vec<Candidate>) -> (out: Vec<(Group, Size)>)
    requires
        forall|g: Group| group_fits(views(candidates@), g),
    ensures
        stably_sorted(
            group_sizes(views(candidates@), Group::every()),
            out@,
            |a: (Group, Size), b: (Group, Size)| larger_first(a, b),
        ),
{
    let ghost all = views(candidates@);
    let groups = Group::all();
    let mut totals: Vec<(Group, Size)> = Vec::new();
    let mut keys: Vec<Descending> = Vec::new();
    let mut i: usize = 0;
    assert(totals@ =~= group_sizes(all, groups@.take(0)));
    while i < groups.len()
        invariant
            i <= groups@.len(),
            all == views(candidates@),
            forall|g: Group| group_fits(all, g),
            totals@ == group_sizes(all, groups@.take(i as int)),
            keys@.len() == totals@.len(),
            forall|k: int| 0 <= k < keys@.len() ==> (#[trigger] keys@[k])@ == totals@[k].1.on_disk,
        decreases groups@.len() - i,
    {
        assert(groups@.take(i + 1).drop_last() =~= groups@.take(i as int));
        assert(group_fits(all, groups@[i as int]));
        if let Some(size) = sum_group(candidates, groups[i]) {
            totals.push((groups[i], size));
            keys.push(Descending { n: size.on_disk as i128 });
        }
        i += 1;
    }
    assert(groups@.take(groups@.len() as int) =~= groups@);
    let order = order_of(&keys);
    assert forall|k: int| 0 <= k < order@.len() implies (#[trigger] order@[k]) < totals@.len() by {
        assert(positions(order@)[k] < views(keys@).len());
    }
    let out = pick_copies(&totals, &order);
    proof {
        let key = |t: (Group, Size)| t.1.on_disk as int;
        let le = |a: int, b: int| <Descending as Ranked>::le(a, b);
        assert forall|k: int| 0 <= k < totals@.len() implies views(keys@)[k] == #[trigger] key(
            totals@[k],
        ) by {
            assert(keys@[k]@ == totals@[k].1.on_disk);
        }
        lemma_order_by_key(totals@, views(keys@), key, le, positions(order@));
        let by_size = |a: (Group, Size), b: (Group, Size)| larger_first(a, b);
        assert((|a: (Group, Size), b: (Group, Size)| le(key(a), key(b))) =~= by_size);
        assert(is_stable_order(totals@, by_size, positions(order@)));
    }
    out
}

/// Ranking adds and drops nothing.
pub proof fn ranking_keeps_every_candidate(before: Seq<CandidateModel>, after: Seq<CandidateModel>)
    requires
        ranked(before, after),
    ensures
        after.to_multiset() == before.to_multiset(),
{
    sorting_keeps_every_item(
        before,
        after,
        |a: CandidateModel, b: CandidateModel| candidate_le(a, b),
    );
}

/// Scores never rise along a ranked list, and equal scores have sizes that never rise.
pub proof fn ranking_is_by_score_then_size(
    before: Seq<CandidateModel>,
    after: Seq<CandidateModel>,
    i: int,
    j: int,
)
    requires
        ranked(before, after),
        0 <= i < j < after.len(),
    ensures
        rank_key(after[i]).0 >= rank_key(after[j]).0,
        rank_key(after[i]).0 == rank_key(after[j]).0 ==> after[i].freed() >= after[j].freed(),
{
    let le = |a: CandidateModel, b: CandidateModel| candidate_le(a, b);
    lemma_sorted_pairs(before, after, le);
    assert(le(after[i], after[j]));
}

/// What passes the filter obeys its ceiling, its size floor and its age, and is not in use
/// unless that is asked for.
pub proof fn filtered_candidates_obey_the_filter(
    filter: FilterModel,
    candidates: Seq<CandidateModel>,
    i: int,
)
    requires
        0 <= i < filter.selection(candidates).len(),
    ensures
        filter.passes(filter.selection(candidates)[i]),
        candidates.contains(filter.selection(candidates)[i]),
        filter.selection(candidates).len() <= candidates.len(),
    decreases candidates.len(),
{
    if candidates.len() > 0 {
        let rest = candidates.drop_last();
        let before = filter.selection(rest);
        if i < before.len() {
            filtered_candidates_obey_the_filter(filter, rest, i);
            let k = choose|k: int| 0 <= k < rest.len() && rest[k] == before[i];
            assert(candidates[k] == before[i]);
        } else {
            assert(candidates[candidates.len() - 1] == filter.selection(candidates)[i]);
            lemma_selection_len(filter, rest);
        }
    }
}

pub proof fn lemma_selection_len(filter: FilterModel, candidates: Seq<CandidateModel>)
    ensures
        filter.selection(candidates).len() <= candidates.len(),
    decreases candidates.len(),
{
    if candidates.len() > 0 {
        lemma_selection_len(filter, candidates.drop_last());
    }
}

/// An artifact of a project that saw activity is as fresh as that activity.
pub proof fn project_activity_keeps_an_artifact_fresh(
    c: CandidateModel,
    m: Measurement,
    source: Option<Moment>,
    vcs: Option<Moment>,
    now: Moment,
)
    requires
        owner(c) is Some,
    ensures
        source matches Some(t) ==> signals_of(c, m, source, vcs, now).latest() >= t,
        vcs matches Some(t) ==> signals_of(c, m, source, vcs, now).latest() >= t,
{
}

/// Nanoseconds in a day.
pub const NANOS_PER_DAY: i128 = 86_400_000_000_000;

proof fn lemma_whole_days(then: Moment, now: Moment)
    ensures
        now <= then ==> days_between(then, now) == 0 && active_at(then, now),
        now > then ==> active_at(then, now) == (now - then < NANOS_PER_DAY),
        now > then && days_between(then, now) < u32::MAX ==> days_between(then, now)
            * NANOS_PER_DAY <= now - then < (days_between(then, now) + 1) * NANOS_PER_DAY,
        now > then && days_between(then, now) == u32::MAX ==> now - then >= u32::MAX
            * NANOS_PER_DAY,
{
    if now > then {
        let passed = now - then;
        let seconds = passed / 1_000_000_000;
        let days = seconds / 86_400;
        assert(seconds * 1_000_000_000 <= passed < (seconds + 1) * 1_000_000_000);
        assert(days * 86_400 <= seconds < (days + 1) * 86_400);
    }
}

/// What counts as the last use of a candidate is the latest of what its own files tell and, for an
/// artifact of a project, of what the sources and the git activity of that project tell. Its age is
/// the whole days since then, and it is active within a day of it.
pub proof fn the_latest_activity_tells_the_age(
    c: CandidateModel,
    m: Measurement,
    source: Option<Moment>,
    vcs: Option<Moment>,
    now: Moment,
)
    ensures
        ({
            let s = signals_of(c, m, source, vcs, now);
            let owned = c.kind == Kind::ProjectArtifact && c.project is Some;
            let mtime: Moment = match m.newest_mtime {
                Some(t) => t,
                None => 0,
            };
            let last = s.latest();
            &&& s.artifact_mtime == mtime && s.artifact_atime == m.newest_atime
            &&& owned ==> s.source_mtime == source && s.vcs_activity == vcs
            &&& !owned ==> s.source_mtime is None && s.vcs_activity is None
            &&& last >= mtime
            &&& m.newest_atime matches Some(t) ==> last >= t
            &&& owned && source is Some ==> last >= source->0
            &&& owned && vcs is Some ==> last >= vcs->0
            &&& last == mtime || m.newest_atime == Some(last) || (owned && source == Some(last))
                || (owned && vcs == Some(last))
            &&& now <= last ==> s.last_used_days == 0 && s.active_now
            &&& now > last ==> s.active_now == (now - last < NANOS_PER_DAY)
            &&& now > last && s.last_used_days < u32::MAX ==> s.last_used_days * NANOS_PER_DAY
                <= now - last < (s.last_used_days + 1) * NANOS_PER_DAY
            &&& now > last && s.last_used_days == u32::MAX ==> now - last >= u32::MAX
                * NANOS_PER_DAY
        }),
{
    lemma_whole_days(signals_of(c, m, source, vcs, now).latest(), now);
}

/// An artifact is no older than the last activity of its project: its age is at most the days since
/// that, and within a day of it the artifact is active.
pub proof fn a_project_at_work_keeps_its_artifacts(
    c: CandidateModel,
    m: Measurement,
    source: Option<Moment>,
    vcs: Option<Moment>,
    now: Moment,
    activity: Moment,
)
    requires
        c.kind == Kind::ProjectArtifact,
        c.project is Some,
        source == Some(activity) || vcs == Some(activity),
    ensures
        now <= activity ==> signals_of(c, m, source, vcs, now).last_used_days == 0,
        now > activity ==> signals_of(c, m, source, vcs, now).last_used_days * NANOS_PER_DAY <= now
            - activity,
        now - activity < NANOS_PER_DAY ==> signals_of(c, m, source, vcs, now).active_now,
{
    the_latest_activity_tells_the_age(c, m, source, vcs, now);
}

/// The pattern is an id, or all of it that stands before one of its dots.
pub open spec fn is_id_or_group(pattern: Seq<char>, id: Seq<char>) -> bool {
    pattern == id || exists|rest: Seq<char>| id == pattern + seq!['.'] + rest
}

proof fn lemma_id_or_group(pattern: Seq<char>, id: Seq<char>)
    ensures
        names_provider(pattern, id) == is_id_or_group(pattern, id),
{
    if names_provider(pattern, id) && pattern != id {
        let rest = id.skip(pattern.len() as int + 1);
        assert(id =~= pattern + seq!['.'] + rest);
    }
    if is_id_or_group(pattern, id) && pattern != id {
        let rest = choose|rest: Seq<char>| id == pattern + seq!['.'] + rest;
        assert(id.take(pattern.len() as int) =~= pattern);
        assert(id[pattern.len() as int] == '.');
    }
}

/// A candidate passes a filter exactly where it is large enough, of no riskier tier than the
/// ceiling, old enough, of one of the groups, of one of the providers, and not in use unless that
/// is let pass. What the filter does not set, it does not ask for; what was not measured has no
/// size and no age.
pub proof fn a_filter_passes_what_it_allows(filter: FilterModel, c: CandidateModel)
    ensures
        filter.passes(c) == {
            let size = match c.size {
                Some(size) => size.on_disk as int,
                None => 0,
            };
            let age = match c.signals {
                Some(signals) => signals.last_used_days as int,
                None => 0,
            };
            &&& size >= filter.min_size
            &&& filter.max_tier == Some(Tier::Safe) ==> c.tier == Tier::Safe
            &&& filter.max_tier == Some(Tier::Review) ==> c.tier != Tier::Caution
            &&& filter.min_age_days matches Some(days) ==> age >= days
            &&& filter.groups matches Some(groups) ==> exists|i: int|
                0 <= i < groups.len() && #[trigger] groups[i] == c.group
            &&& filter.providers matches Some(patterns) ==> exists|i: int|
                0 <= i < patterns.len() && is_id_or_group(#[trigger] patterns[i], c.provider)
            &&& !filter.include_active && c.signals is Some ==> !c.signals->0.active_now
        },
{
    if let Some(patterns) = filter.providers {
        assert forall|i: int| 0 <= i < patterns.len() implies names_provider(
            #[trigger] patterns[i],
            c.provider,
        ) == is_id_or_group(patterns[i], c.provider) by {
            lemma_id_or_group(patterns[i], c.provider);
        }
        if any_names(patterns, c.provider) {
            let i = choose|i: int|
                0 <= i < patterns.len() && names_provider(#[trigger] patterns[i], c.provider);
            assert(is_id_or_group(patterns[i], c.provider));
        }
        if exists|i: int|
            0 <= i < patterns.len() && is_id_or_group(#[trigger] patterns[i], c.provider) {
            let i = choose|i: int|
                0 <= i < patterns.len() && is_id_or_group(#[trigger] patterns[i], c.provider);
            assert(names_provider(patterns[i], c.provider));
        }
    }
    if let Some(groups) = filter.groups {
        if groups.contains(c.group) {
            let i = choose|i: int| 0 <= i < groups.len() && groups[i] == c.group;
            assert(groups[i] == c.group);
        }
    }
}

/// Whatever passes a filter with a ceiling is of no riskier tier: only the safe tier passes under a
/// safe ceiling, and nothing of the caution tier under the review ceiling. A higher ceiling lets
/// pass whatever a lower one does.
pub proof fn nothing_passes_above_the_ceiling(
    filter: FilterModel,
    candidates: Seq<CandidateModel>,
    i: int,
)
    requires
        0 <= i < filter.selection(candidates).len(),
    ensures
        filter.max_tier == Some(Tier::Safe) ==> filter.selection(candidates)[i].tier == Tier::Safe,
        filter.max_tier == Some(Tier::Review) ==> filter.selection(candidates)[i].tier
            != Tier::Caution,
        filter.max_tier == Some(Tier::Safe) ==> (FilterModel {
            max_tier: Some(Tier::Review),
            ..filter
        }).passes(filter.selection(candidates)[i]),
        filter.max_tier is Some ==> (FilterModel {
            max_tier: Some(Tier::Caution),
            ..filter
        }).passes(filter.selection(candidates)[i]),
{
    filtered_candidates_obey_the_filter(filter, candidates, i);
    a_filter_passes_what_it_allows(filter, filter.selection(candidates)[i]);
}

/// What a filter selects is every candidate that passes, in order.
pub proof fn a_filter_selects_what_passes(filter: FilterModel, candidates: Seq<CandidateModel>)
    ensures
        filter.selection(candidates) == candidates.filter(|c: CandidateModel| filter.passes(c)),
    decreases candidates.len(),
{
    reveal(Seq::filter);
    if candidates.len() > 0 {
        a_filter_selects_what_passes(filter, candidates.drop_last());
    } else {
        assert(filter.selection(candidates) =~= candidates);
    }
}

/// What a list frees is what its parts free: nothing for nothing, the measured size on disk for one
/// candidate, and the sum for two lists.
pub proof fn what_is_freed_adds_up(
    a: Seq<CandidateModel>,
    b: Seq<CandidateModel>,
    c: CandidateModel,
)
    ensures
        total_freed(Seq::empty()) == 0,
        c.size matches Some(size) ==> total_freed(seq![c]) == size.on_disk,
        c.size is None ==> total_freed(seq![c]) == 0,
        total_freed(a + b) == total_freed(a) + total_freed(b),
    decreases b.len(),
{
    assert(seq![c].drop_last() =~= Seq::empty());
    assert(seq![c].last() == c);
    if b.len() > 0 {
        what_is_freed_adds_up(a, b.drop_last(), c);
        assert((a + b).drop_last() =~= a + b.drop_last());
    } else {
        assert(a + b =~= a);
    }
}

/// Ranking gives each candidate its own score and changes nothing else of it. Of two candidates the
/// one with the higher score stands first; of equal scores the larger one; of equal sizes the one
/// whose id is first in text order.
pub proof fn the_best_candidate_stands_first(
    candidates: Seq<CandidateModel>,
    scores: Seq<u64>,
    after: Seq<CandidateModel>,
    i: int,
    j: int,
)
    requires
        candidates.len() == scores.len(),
        ranked(scored(candidates, scores), after),
        0 <= i < j < after.len(),
    ensures
        after.to_multiset() == Seq::new(
            candidates.len(),
            |k: int| CandidateModel { score: Some(scores[k]), ..candidates[k] },
        ).to_multiset(),
        after[i].score is Some && after[j].score is Some,
        after[i].score->0 >= after[j].score->0,
        after[i].score == after[j].score ==> after[i].freed() >= after[j].freed(),
        after[i].score == after[j].score && after[i].freed() == after[j].freed() ==> text_le(
            after[i].id,
            after[j].id,
        ),
{
    let all = scored(candidates, scores);
    assert(all =~= Seq::new(
        candidates.len(),
        |k: int| CandidateModel { score: Some(scores[k]), ..candidates[k] },
    ));
    let le = |a: CandidateModel, b: CandidateModel| candidate_le(a, b);
    lemma_sorted_pairs(all, after, le);
    assert(le(after[i], after[j]));
    ranking_keeps_every_candidate(all, after);
    all.to_multiset_ensures();
    after.to_multiset_ensures();
    assert forall|k: int| 0 <= k < after.len() implies (#[trigger] after[k]).score is Some by {
        assert(after.contains(after[k]));
        assert(all.to_multiset().count(after[k]) > 0);
        assert(all.contains(after[k]));
    }
}

/// The sizes of a group are the sums over its measured candidates: a candidate of another group, or
/// one that was not measured, changes nothing, and a measured one adds each of its figures.
pub proof fn a_group_adds_up_its_candidates(
    candidates: Seq<CandidateModel>,
    group: Group,
    c: CandidateModel,
)
    requires
        group_fits(candidates.push(c), group),
    ensures
        c.group != group || c.size is None ==> group_size(candidates.push(c), group) == group_size(
            candidates,
            group,
        ),
        c.group == group && c.size is Some && group_size(candidates, group) is None ==> group_size(
            candidates.push(c),
            group,
        ) == c.size,
        c.group == group && c.size is Some && group_size(candidates, group) is Some ==> ({
            let before = group_size(candidates, group)->0;
            let after = group_size(candidates.push(c), group)->0;
            let size = c.size->0;
            &&& group_size(candidates.push(c), group) is Some
            &&& after.logical == before.logical + size.logical
            &&& after.on_disk == before.on_disk + size.on_disk
            &&& after.shared == before.shared + size.shared
            &&& after.files == before.files + size.files
            &&& after.dirs == before.dirs + size.dirs
            &&& after.partial == (before.partial || size.partial)
        }),
{
    assert(candidates.push(c).drop_last() =~= candidates);
}

proof fn lemma_group_freed(candidates: Seq<CandidateModel>, group: Group)
    requires
        group_fits(candidates, group),
    ensures
        group_size(candidates, group) is Some <==> exists|i: int|
            0 <= i < candidates.len() && (#[trigger] candidates[i]).group == group
                && candidates[i].size is Some,
        group_size(candidates, group) matches Some(size) ==> size.on_disk == total_freed(
            candidates.filter(|c: CandidateModel| c.group == group),
        ),
        group_size(candidates, group) is None ==> total_freed(
            candidates.filter(|c: CandidateModel| c.group == group),
        ) == 0,
    decreases candidates.len(),
{
    let of_group = |c: CandidateModel| c.group == group;
    reveal(Seq::filter);
    if candidates.len() > 0 {
        let fewer = candidates.drop_last();
        let last = candidates.last();
        lemma_group_freed(fewer, group);
        let before = fewer.filter(of_group);
        assert(before.push(last).drop_last() =~= before);
        if exists|i: int|
            0 <= i < fewer.len() && (#[trigger] fewer[i]).group == group && fewer[i].size is Some {
            let i = choose|i: int|
                0 <= i < fewer.len() && (#[trigger] fewer[i]).group == group
                    && fewer[i].size is Some;
            assert(candidates[i].group == group && candidates[i].size is Some);
        }
        if exists|i: int|
            0 <= i < candidates.len() && (#[trigger] candidates[i]).group == group
                && candidates[i].size is Some {
            let i = choose|i: int|
                0 <= i < candidates.len() && (#[trigger] candidates[i]).group == group
                    && candidates[i].size is Some;
            if i < fewer.len() {
                assert(fewer[i].group == group && fewer[i].size is Some);
            }
        }
        if last.group == group && last.size is Some {
            assert(candidates[candidates.len() - 1].group == group);
        }
    }
}

proof fn lemma_group_sizes(candidates: Seq<CandidateModel>, groups: Seq<Group>, total: (Group, Size))
    ensures
        group_sizes(candidates, groups).contains(total) == (groups.contains(total.0) && group_size(
            candidates,
            total.0,
        ) == Some(total.1)),
    decreases groups.len(),
{
    if groups.len() > 0 {
        let fewer = groups.drop_last();
        lemma_group_sizes(candidates, fewer, total);
        let before = group_sizes(candidates, fewer);
        let now = group_sizes(candidates, groups);
        assert(groups =~= fewer.push(groups.last()));
        assert(groups.contains(total.0) == (fewer.contains(total.0) || groups.last() == total.0))
            by {
            if fewer.contains(total.0) {
                let k = choose|k: int| 0 <= k < fewer.len() && fewer[k] == total.0;
                assert(groups[k] == total.0);
            }
            assert(groups[groups.len() - 1] == groups.last());
        }
        if let Some(size) = group_size(candidates, groups.last()) {
            assert(now.contains(total) == (before.contains(total) || total == (
                groups.last(),
                size,
            ))) by {
                if before.contains(total) {
                    let k = choose|k: int| 0 <= k < before.len() && before[k] == total;
                    assert(now[k] == total);
                }
                assert(now[now.len() - 1] == (groups.last(), size));
            }
        }
    }
}

/// The totals name every group with a measured candidate and no other, each with what its
/// candidates free, the largest first.
pub proof fn totals_name_every_measured_group(
    candidates: Seq<CandidateModel>,
    totals: Seq<(Group, Size)>,
    group: Group,
)
    requires
        forall|g: Group| group_fits(candidates, g),
        stably_sorted(
            group_sizes(candidates, Group::every()),
            totals,
            |a: (Group, Size), b: (Group, Size)| larger_first(a, b),
        ),
    ensures
        (exists|k: int| 0 <= k < totals.len() && (#[trigger] totals[k]).0 == group) == (exists|
            i: int,
        |
            0 <= i < candidates.len() && (#[trigger] candidates[i]).group == group
                && candidates[i].size is Some),
        forall|k: int|
            0 <= k < totals.len() ==> (#[trigger] totals[k]).1.on_disk == total_freed(
                candidates.filter(|c: CandidateModel| c.group == totals[k].0),
            ),
        forall|k: int, l: int|
            0 <= k < l < totals.len() ==> (#[trigger] totals[k]).1.on_disk >= (
            #[trigger] totals[l]).1.on_disk,
{
    let le = |a: (Group, Size), b: (Group, Size)| larger_first(a, b);
    let all = group_sizes(candidates, Group::every());
    sorting_keeps_every_item(all, totals, le);
    lemma_sorted_pairs(all, totals, le);
    all.to_multiset_ensures();
    totals.to_multiset_ensures();
    assert forall|t: (Group, Size)| totals.contains(t) == #[trigger] all.contains(t) by {
        assert(totals.contains(t) == (totals.to_multiset().count(t) > 0));
        assert(all.contains(t) == (all.to_multiset().count(t) > 0));
    }
    assert(group_fits(candidates, group));
    lemma_group_freed(candidates, group);
    lemma_every_group(group);
    if let Some(size) = group_size(candidates, group) {
        lemma_group_sizes(candidates, Group::every(), (group, size));
        assert(all.contains((group, size)));
        let k = choose|k: int| 0 <= k < totals.len() && totals[k] == (group, size);
        assert(totals[k].0 == group);
    }
    assert forall|k: int| 0 <= k < totals.len() implies group_size(
        candidates,
        (#[trigger] totals[k]).0,
    ) == Some(totals[k].1) by {
        assert(totals.contains(totals[k]));
        assert(all.contains(totals[k]));
        lemma_group_sizes(candidates, Group::every(), totals[k]);
    }
    assert forall|k: int| 0 <= k < totals.len() implies (#[trigger] totals[k]).1.on_disk
        == total_freed(candidates.filter(|c: CandidateModel| c.group == totals[k].0)) by {
        assert(group_fits(candidates, totals[k].0));
        lemma_group_freed(candidates, totals[k].0);
    }
    assert forall|k: int, l: int| 0 <= k < l < totals.len() implies (#[trigger] totals[k]).1.on_disk
        >= (#[trigger] totals[l]).1.on_disk by {
        assert(le(totals[k], totals[l]));
    }
}

} // verus!
