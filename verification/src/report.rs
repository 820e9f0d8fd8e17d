//! Aggregate reporting over run history: what all runs together have done.
use vstd::prelude::*;
use vstd::string::*;
use vstd::seq_lib::lemma_multiset_commutative;
use crate::journal::{
    Disposition, OutcomeModel, RunModel, RunRecord, Trigger, every_failed_item_is_a_failure,
    failed_items, freed_by, trashed_by,
};
use crate::model::{Group, Moment, Tier};
use crate::sort::{
    Ascending, Descending, Ranked, arranged, is_stable_order, lemma_filtered_from,
    lemma_numbers_step, lemma_sorted_pairs, lemma_sorted_with, numbers_where, order_of,
    pick_copies, positions, sort_by_keys, sorted_with, sorting_has_one_result,
    sorting_keeps_every_item, stably_sorted,
};
use crate::text::{Dup, views};

verus! {

broadcast use crate::text::lemma_views_push;

/// How many entries the ranked lists keep.
pub const TOP_ITEMS_LIMIT: usize = 15;

pub const FAILURES_LIMIT: usize = 25;

#[derive(Debug, Clone, PartialEq)]
pub struct HistoryReport {
    pub generated_at: Moment,
    pub runs: usize,
    pub real_runs: usize,
    pub dry_runs: usize,
    pub lifetime_freed: u64,
    pub lifetime_trashed: u64,
    pub lifetime_candidates_found: u64,
    pub failed_items: usize,
    /// Largest ecosystem first.
    pub by_group: Vec<GroupStats>,
    /// Most-used trigger first.
    pub by_trigger: Vec<TriggerStats>,
    /// Oldest first, real runs only.
    pub timeline: Vec<TimelinePoint>,
    /// Biggest single reclaims, largest first.
    pub top_items: Vec<TopItem>,
    /// Most recent failures first.
    pub failures: Vec<FailureEntry>,
    /// Most recent runs first.
    pub runs_detail: Vec<RunSummary>,
}

#[derive(Debug, Clone, PartialEq)]
pub struct GroupStats {
    pub group: Group,
    pub title: String,
    pub freed: u64,
    pub trashed: u64,
    pub items: usize,
}

pub struct GroupStatsModel {
    pub group: Group,
    pub title: Seq<char>,
    pub freed: nat,
    pub trashed: nat,
    pub items: nat,
}

impl View for GroupStats {
    type V = GroupStatsModel;

    open spec fn view(&self) -> GroupStatsModel {
        GroupStatsModel {
            group: self.group,
            title: self.title@,
            freed: self.freed as nat,
            trashed: self.trashed as nat,
            items: self.items as nat,
        }
    }
}

impl Dup for GroupStats {
    fn dup(&self) -> (copy: Self) {
        GroupStats {
            group: self.group,
            title: self.title.clone(),
            freed: self.freed,
            trashed: self.trashed,
            items: self.items,
        }
    }
}

#[derive(Debug, Clone, PartialEq)]
pub struct TriggerStats {
    pub trigger: Trigger,
    pub label: String,
    pub runs: usize,
    pub freed: u64,
}

pub struct TriggerStatsModel {
    pub trigger: Trigger,
    pub label: Seq<char>,
    pub runs: nat,
    pub freed: nat,
}

impl View for TriggerStats {
    type V = TriggerStatsModel;

    open spec fn view(&self) -> TriggerStatsModel {
        TriggerStatsModel {
            trigger: self.trigger,
            label: self.label@,
            runs: self.runs as nat,
            freed: self.freed as nat,
        }
    }
}

impl Dup for TriggerStats {
    fn dup(&self) -> (copy: Self) {
        TriggerStats {
            trigger: self.trigger,
            label: self.label.clone(),
            runs: self.runs,
            freed: self.freed,
        }
    }
}

#[derive(Debug, Clone, Copy, PartialEq, Eq, Structural)]
pub struct TimelinePoint {
    pub started_at: Moment,
    pub freed: u64,
    pub trashed: u64,
    pub cumulative_freed: u64,
}

pub struct TimelineModel {
    pub started_at: Moment,
    pub freed: nat,
    pub trashed: nat,
    pub cumulative_freed: nat,
}

impl View for TimelinePoint {
    type V = TimelineModel;

    open spec fn view(&self) -> TimelineModel {
        TimelineModel {
            started_at: self.started_at,
            freed: self.freed as nat,
            trashed: self.trashed as nat,
            cumulative_freed: self.cumulative_freed as nat,
        }
    }
}

#[derive(Debug, Clone, PartialEq)]
pub struct TopItem {
    pub label: String,
    pub group: Group,
    pub tier: Tier,
    pub bytes: u64,
    pub started_at: Moment,
}

pub struct TopItemModel {
    pub label: Seq<char>,
    pub group: Group,
    pub tier: Tier,
    pub bytes: u64,
    pub started_at: Moment,
}

impl View for TopItem {
    type V = TopItemModel;

    open spec fn view(&self) -> TopItemModel {
        TopItemModel {
            label: self.label@,
            group: self.group,
            tier: self.tier,
            bytes: self.bytes,
            started_at: self.started_at,
        }
    }
}

impl Dup for TopItem {
    fn dup(&self) -> (copy: Self) {
        TopItem {
            label: self.label.clone(),
            group: self.group,
            tier: self.tier,
            bytes: self.bytes,
            started_at: self.started_at,
        }
    }
}

#[derive(Debug, Clone, PartialEq)]
pub struct FailureEntry {
    pub started_at: Moment,
    pub label: String,
    pub provider: String,
    pub error: String,
}

pub struct FailureModel {
    pub started_at: Moment,
    pub label: Seq<char>,
    pub provider: Seq<char>,
    pub error: Seq<char>,
}

impl View for FailureEntry {
    type V = FailureModel;

    open spec fn view(&self) -> FailureModel {
        FailureModel {
            started_at: self.started_at,
            label: self.label@,
            provider: self.provider@,
            error: self.error@,
        }
    }
}

impl Dup for FailureEntry {
    fn dup(&self) -> (copy: Self) {
        FailureEntry {
            started_at: self.started_at,
            label: self.label.clone(),
            provider: self.provider.clone(),
            error: self.error.clone(),
        }
    }
}

#[derive(Debug, Clone, PartialEq)]
pub struct RunSummary {
    pub id: String,
    pub started_at: Moment,
    pub trigger: Trigger,
    pub dry_run: bool,
    pub candidates_found: usize,
    pub freed: u64,
    pub trashed: u64,
    pub items: usize,
    pub failures: usize,
    pub succeeded: bool,
}

pub struct RunSummaryModel {
    pub id: Seq<char>,
    pub started_at: Moment,
    pub trigger: Trigger,
    pub dry_run: bool,
    pub candidates_found: usize,
    pub freed: nat,
    pub trashed: nat,
    pub items: nat,
    pub failures: nat,
    pub succeeded: bool,
}

impl View for RunSummary {
    type V = RunSummaryModel;

    open spec fn view(&self) -> RunSummaryModel {
        RunSummaryModel {
            id: self.id@,
            started_at: self.started_at,
            trigger: self.trigger,
            dry_run: self.dry_run,
            candidates_found: self.candidates_found,
            freed: self.freed as nat,
            trashed: self.trashed as nat,
            items: self.items as nat,
            failures: self.failures as nat,
            succeeded: self.succeeded,
        }
    }
}

impl Dup for RunSummary {
    fn dup(&self) -> (copy: Self) {
        RunSummary {
            id: self.id.clone(),
            started_at: self.started_at,
            trigger: self.trigger,
            dry_run: self.dry_run,
            candidates_found: self.candidates_found,
            freed: self.freed,
            trashed: self.trashed,
            items: self.items,
            failures: self.failures,
            succeeded: self.succeeded,
        }
    }
}

/// An item together with the run it belongs to.
pub struct HistoryItem {
    pub started_at: Moment,
    pub dry_run: bool,
    pub item: OutcomeModel,
}

/// The items of a run.
pub open spec fn items_of(run: RunModel) -> Seq<HistoryItem> {
    Seq::new(
        run.items.len(),
        |i: int|
            HistoryItem { started_at: run.started_at, dry_run: run.dry_run, item: run.items[i] },
    )
}

/// The items of all runs, run by run.
pub open spec fn all_items(runs: Seq<RunModel>) -> Seq<HistoryItem>
    decreases runs.len(),
{
    if runs.len() == 0 {
        Seq::empty()
    } else {
        all_items(runs.drop_last()) + items_of(runs.last())
    }
}

/// Runs from the oldest to the newest.
pub open spec fn chronological(runs: Seq<RunModel>, sorted: Seq<RunModel>) -> bool {
    stably_sorted(runs, sorted, |a: RunModel, b: RunModel| a.started_at <= b.started_at)
}

pub open spec fn dry_run_count(runs: Seq<RunModel>) -> nat
    decreases runs.len(),
{
    if runs.len() == 0 {
        0
    } else {
        dry_run_count(runs.drop_last()) + if runs.last().dry_run {
            1nat
        } else {
            0
        }
    }
}

/// Bytes freed by the runs that were no dry runs.
pub open spec fn real_freed(runs: Seq<RunModel>) -> nat
    decreases runs.len(),
{
    if runs.len() == 0 {
        0
    } else {
        real_freed(runs.drop_last()) + if runs.last().dry_run {
            0
        } else {
            freed_by(runs.last().items)
        }
    }
}

/// Bytes trashed by the runs that were no dry runs.
pub open spec fn real_trashed(runs: Seq<RunModel>) -> nat
    decreases runs.len(),
{
    if runs.len() == 0 {
        0
    } else {
        real_trashed(runs.drop_last()) + if runs.last().dry_run {
            0
        } else {
            trashed_by(runs.last().items)
        }
    }
}

pub open spec fn candidates_total(runs: Seq<RunModel>) -> nat
    decreases runs.len(),
{
    if runs.len() == 0 {
        0
    } else {
        candidates_total(runs.drop_last()) + runs.last().candidates_found as nat
    }
}

/// The real runs with what each freed and what had been freed by then.
pub open spec fn timeline_of(runs: Seq<RunModel>) -> Seq<TimelineModel>
    decreases runs.len(),
{
    if runs.len() == 0 {
        Seq::empty()
    } else {
        let before = timeline_of(runs.drop_last());
        let run = runs.last();
        if run.dry_run {
            before
        } else {
            before.push(
                TimelineModel {
                    started_at: run.started_at,
                    freed: freed_by(run.items),
                    trashed: trashed_by(run.items),
                    cumulative_freed: real_freed(runs),
                },
            )
        }
    }
}

/// The failed items, run by run.
pub open spec fn failures_of(items: Seq<HistoryItem>) -> Seq<FailureModel>
    decreases items.len(),
{
    if items.len() == 0 {
        Seq::empty()
    } else {
        let before = failures_of(items.drop_last());
        let last = items.last();
        if last.item.disposition == Disposition::Failed {
            before.push(
                FailureModel {
                    started_at: last.started_at,
                    label: last.item.label,
                    provider: last.item.provider,
                    error: match last.item.error {
                        Some(e) => e,
                        None => "unknown error"@,
                    },
                },
            )
        } else {
            before
        }
    }
}

/// An item that counts for its group: it did not fail and was credited something.
pub open spec fn counts_for_group(item: OutcomeModel, group: Group) -> bool {
    item.group == group && item.disposition != Disposition::Failed && item.freed_bytes > 0
}

pub open spec fn group_items(items: Seq<HistoryItem>, group: Group) -> nat
    decreases items.len(),
{
    if items.len() == 0 {
        0
    } else {
        group_items(items.drop_last(), group) + if counts_for_group(items.last().item, group) {
            1nat
        } else {
            0
        }
    }
}

pub open spec fn group_freed(items: Seq<HistoryItem>, group: Group) -> nat
    decreases items.len(),
{
    if items.len() == 0 {
        0
    } else {
        group_freed(items.drop_last(), group) + if counts_for_group(items.last().item, group)
            && items.last().item.disposition.frees() {
            items.last().item.freed_bytes as nat
        } else {
            0
        }
    }
}

pub open spec fn group_trashed(items: Seq<HistoryItem>, group: Group) -> nat
    decreases items.len(),
{
    if items.len() == 0 {
        0
    } else {
        group_trashed(items.drop_last(), group) + if counts_for_group(items.last().item, group)
            && items.last().item.disposition == Disposition::Trashed {
            items.last().item.freed_bytes as nat
        } else {
            0
        }
    }
}

pub open spec fn group_stats(items: Seq<HistoryItem>, group: Group) -> GroupStatsModel {
    GroupStatsModel {
        group,
        title: group.heading(),
        freed: group_freed(items, group),
        trashed: group_trashed(items, group),
        items: group_items(items, group),
    }
}

/// The statistics of the groups that something counts for, in group order.
pub open spec fn groups_seen(items: Seq<HistoryItem>, groups: Seq<Group>) -> Seq<GroupStatsModel>
    decreases groups.len(),
{
    if groups.len() == 0 {
        Seq::empty()
    } else {
        let before = groups_seen(items, groups.drop_last());
        if group_items(items, groups.last()) > 0 {
            before.push(group_stats(items, groups.last()))
        } else {
            before
        }
    }
}

pub open spec fn trigger_runs(runs: Seq<RunModel>, trigger: Trigger) -> nat
    decreases runs.len(),
{
    if runs.len() == 0 {
        0
    } else {
        trigger_runs(runs.drop_last(), trigger) + if runs.last().trigger == trigger {
            1nat
        } else {
            0
        }
    }
}

pub open spec fn trigger_freed(runs: Seq<RunModel>, trigger: Trigger) -> nat
    decreases runs.len(),
{
    if runs.len() == 0 {
        0
    } else {
        trigger_freed(runs.drop_last(), trigger) + if runs.last().trigger == trigger {
            freed_by(runs.last().items)
        } else {
            0
        }
    }
}

pub open spec fn every_trigger() -> Seq<Trigger> {
    seq![Trigger::Tui, Trigger::Cli, Trigger::Web, Trigger::Scheduled]
}

/// The statistics of the triggers that started a run, in trigger order.
pub open spec fn triggers_seen(runs: Seq<RunModel>, triggers: Seq<Trigger>) -> Seq<
    TriggerStatsModel,
>
    decreases triggers.len(),
{
    if triggers.len() == 0 {
        Seq::empty()
    } else {
        let before = triggers_seen(runs, triggers.drop_last());
        let trigger = triggers.last();
        if trigger_runs(runs, trigger) > 0 {
            before.push(
                TriggerStatsModel {
                    trigger,
                    label: trigger.name(),
                    runs: trigger_runs(runs, trigger),
                    freed: trigger_freed(runs, trigger),
                },
            )
        } else {
            before
        }
    }
}

/// The items of real runs that returned space, run by run.
pub open spec fn reclaims_of(items: Seq<HistoryItem>) -> Seq<TopItemModel>
    decreases items.len(),
{
    if items.len() == 0 {
        Seq::empty()
    } else {
        let before = reclaims_of(items.drop_last());
        let last = items.last();
        if last.item.disposition.frees() && last.item.freed_bytes > 0 && !last.dry_run {
            before.push(
                TopItemModel {
                    label: last.item.label,
                    group: last.item.group,
                    tier: last.item.tier,
                    bytes: last.item.freed_bytes,
                    started_at: last.started_at,
                },
            )
        } else {
            before
        }
    }
}

pub open spec fn summary_of(run: RunModel) -> RunSummaryModel {
    RunSummaryModel {
        id: run.id,
        started_at: run.started_at,
        trigger: run.trigger,
        dry_run: run.dry_run,
        candidates_found: run.candidates_found,
        freed: freed_by(run.items),
        trashed: trashed_by(run.items),
        items: run.items.len(),
        failures: failed_items(run.items).len(),
        succeeded: failed_items(run.items).len() == 0,
    }
}

pub open spec fn summaries_of(runs: Seq<RunModel>) -> Seq<RunSummaryModel> {
    Seq::new(runs.len(), |i: int| summary_of(runs[i]))
}

/// At most the first `limit`.
pub open spec fn capped<A>(s: Seq<A>, limit: nat) -> Seq<A> {
    if s.len() > limit {
        s.take(limit as int)
    } else {
        s
    }
}

/// `shown` is the beginning of `all` in the given order, up to a limit.
pub open spec fn first_in_order<A>(
    all: Seq<A>,
    le: spec_fn(A, A) -> bool,
    limit: nat,
    shown: Seq<A>,
) -> bool {
    exists|sorted: Seq<A>| #[trigger] stably_sorted(all, sorted, le) && shown == capped(sorted, limit)
}

pub open spec fn group_le(a: GroupStatsModel, b: GroupStatsModel) -> bool {
    a.freed + a.trashed >= b.freed + b.trashed
}

pub open spec fn trigger_le(a: TriggerStatsModel, b: TriggerStatsModel) -> bool {
    a.runs >= b.runs
}

pub open spec fn top_le(a: TopItemModel, b: TopItemModel) -> bool {
    a.bytes >= b.bytes
}

pub open spec fn failure_le(a: FailureModel, b: FailureModel) -> bool {
    a.started_at >= b.started_at
}

pub open spec fn summary_le(a: RunSummaryModel, b: RunSummaryModel) -> bool {
    a.started_at >= b.started_at
}

/// What a group freed and trashed together, and the count of its items, fit.
pub open spec fn group_sums_fit(items: Seq<HistoryItem>, group: Group) -> bool {
    &&& group_freed(items, group) + group_trashed(items, group) <= u64::MAX
    &&& group_items(items, group) <= usize::MAX
}

/// The sums that a report is made of fit.
pub open spec fn history_fits(runs: Seq<RunModel>) -> bool {
    &&& forall|i: int| 0 <= i < runs.len() ==> (#[trigger] runs[i]).bytes_fit()
    &&& real_freed(runs) <= u64::MAX
    &&& real_trashed(runs) <= u64::MAX
    &&& candidates_total(runs) <= u64::MAX
    &&& forall|trigger: Trigger| #[trigger] trigger_freed(runs, trigger) <= u64::MAX
    &&& forall|group: Group| #[trigger] group_sums_fit(all_items(runs), group)
}

impl HistoryReport {
    /// The report is that of runs in chronological order.
    pub open spec fn tells(&self, runs: Seq<RunModel>) -> bool {
        let items = all_items(runs);
        &&& self.runs == runs.len()
        &&& self.dry_runs == dry_run_count(runs)
        &&& self.real_runs == runs.len() - dry_run_count(runs)
        &&& self.lifetime_freed == real_freed(runs)
        &&& self.lifetime_trashed == real_trashed(runs)
        &&& self.lifetime_candidates_found == candidates_total(runs)
        &&& self.failed_items == failures_of(items).len()
        &&& stably_sorted(
            groups_seen(items, Group::every()),
            views(self.by_group@),
            |a: GroupStatsModel, b: GroupStatsModel| group_le(a, b),
        )
        &&& stably_sorted(
            triggers_seen(runs, every_trigger()),
            views(self.by_trigger@),
            |a: TriggerStatsModel, b: TriggerStatsModel| trigger_le(a, b),
        )
        &&& views(self.timeline@) == timeline_of(runs)
        &&& first_in_order(
            reclaims_of(items),
            |a: TopItemModel, b: TopItemModel| top_le(a, b),
            TOP_ITEMS_LIMIT as nat,
            views(self.top_items@),
        )
        &&& first_in_order(
            failures_of(items),
            |a: FailureModel, b: FailureModel| failure_le(a, b),
            FAILURES_LIMIT as nat,
            views(self.failures@),
        )
        &&& stably_sorted(
            summaries_of(runs),
            views(self.runs_detail@),
            |a: RunSummaryModel, b: RunSummaryModel| summary_le(a, b),
        )
    }
}

proof fn lemma_prefix_sums(runs: Seq<RunModel>, i: int)
    requires
        0 <= i <= runs.len(),
    ensures
        candidates_total(runs.take(i)) <= candidates_total(runs),
        real_freed(runs.take(i)) <= real_freed(runs),
        real_trashed(runs.take(i)) <= real_trashed(runs),
        dry_run_count(runs.take(i)) <= i,
        forall|t: Trigger| #[trigger] trigger_freed(runs.take(i), t) <= trigger_freed(runs, t),
    decreases runs.len() - i,
{
    if i == runs.len() {
        assert(runs.take(i) =~= runs);
        lemma_dry_runs(runs);
    } else {
        assert(runs.drop_last().take(i) =~= runs.take(i));
        lemma_prefix_sums(runs.drop_last(), i);
        assert forall|t: Trigger| #[trigger] trigger_freed(runs.take(i), t) <= trigger_freed(
            runs,
            t,
        ) by {
            assert(trigger_freed(runs.take(i), t) <= trigger_freed(runs.drop_last(), t));
        }
    }
}

proof fn lemma_dry_runs(runs: Seq<RunModel>)
    ensures
        dry_run_count(runs) <= runs.len(),
    decreases runs.len(),
{
    if runs.len() > 0 {
        lemma_dry_runs(runs.drop_last());
    }
}

/// The runs in chronological order.
fn in_order<'a>(records: &'a Vec<RunRecord>) -> (out: Vec<&'a RunRecord>)
    ensures
        chronological(views(records@), views(out@)),
{
    let mut refs: Vec<&RunRecord> = Vec::new();
    let mut keys: Vec<Ascending> = Vec::new();
    let mut i: usize = 0;
    while i < records.len()
        invariant
            i <= records@.len(),
            refs@.len() == i,
            keys@.len() == i,
            forall|k: int| 0 <= k < i ==> (#[trigger] refs@[k])@ == records@[k]@,
            forall|k: int| 0 <= k < i ==> (#[trigger] keys@[k])@ == records@[k]@.started_at,
        decreases records@.len() - i,
    {
        refs.push(&records[i]);
        keys.push(Ascending { n: records[i].started_at });
        i += 1;
    }
    assert(views(refs@) =~= views(records@));
    let order = order_of(&keys);
    assert forall|k: int| 0 <= k < order@.len() implies (#[trigger] order@[k]) < refs@.len() by {
        assert(positions(order@)[k] < views(keys@).len());
    }
    let out = pick_copies(&refs, &order);
    proof {
        let all = views(records@);
        assert(views(out@) =~= arranged(all, positions(order@))) by {
            assert forall|k: int| 0 <= k < out@.len() implies (#[trigger] views(out@)[k])
                == arranged(all, positions(order@))[k] by {
                assert(out@[k] == refs@[order@[k] as int]);
                assert(refs@[order@[k] as int]@ == records@[order@[k] as int]@);
            }
        }
        let key = |r: RunModel| r.started_at as int;
        let le = |a: int, b: int| <Ascending as Ranked>::le(a, b);
        let by_start = |a: RunModel, b: RunModel| a.started_at <= b.started_at;
        assert(sorted_with(all, views(keys@), le, views(out@)));
        assert forall|k: int| 0 <= k < all.len() implies views(keys@)[k] == #[trigger] key(all[k]) by {
            assert(keys@[k]@ == records@[k]@.started_at);
        }
        lemma_sorted_with(all, views(keys@), key, le, views(out@), by_start);
    }
    out
}

fn count_dry_runs(runs: &Vec<&RunRecord>) -> (n: usize)
    ensures
        n == dry_run_count(views(runs@)),
        n <= runs@.len(),
{
    let ghost all = views(runs@);
    let mut n: usize = 0;
    let mut i: usize = 0;
    assert(all.take(0) =~= Seq::empty());
    while i < runs.len()
        invariant
            i <= runs@.len(),
            all == views(runs@),
            n == dry_run_count(all.take(i as int)),
            n <= i,
        decreases runs@.len() - i,
    {
        assert(all.take(i + 1).drop_last() =~= all.take(i as int));
        assert(all.take(i + 1).last() == runs@[i as int]@);
        if runs[i].dry_run {
            n += 1;
        }
        i += 1;
    }
    assert(all.take(all.len() as int) =~= all);
    n
}

/// The lifetime figures fit.
spec fn totals_fit(runs: Seq<RunModel>) -> bool {
    &&& real_freed(runs) <= u64::MAX
    &&& real_trashed(runs) <= u64::MAX
    &&& candidates_total(runs) <= u64::MAX
}

/// Freed, trashed and found over all runs, and the timeline of the real ones. Nothing where they
/// do not fit.
fn totals(runs: &Vec<&RunRecord>) -> (r: Option<(u64, u64, u64, Vec<TimelinePoint>)>)
    requires
        forall|i: int| 0 <= i < runs@.len() ==> (#[trigger] views(runs@)[i]).bytes_fit(),
    ensures
        match r {
            Some((freed, trashed, found, timeline)) => {
                &&& totals_fit(views(runs@))
                &&& freed == real_freed(views(runs@))
                &&& trashed == real_trashed(views(runs@))
                &&& found == candidates_total(views(runs@))
                &&& views(timeline@) == timeline_of(views(runs@))
            },
            None => !totals_fit(views(runs@)),
        },
{
    let ghost all = views(runs@);
    let limit: u64 = u64::MAX;
    let mut freed: u64 = 0;
    let mut trashed: u64 = 0;
    let mut found: u64 = 0;
    let mut timeline: Vec<TimelinePoint> = Vec::new();
    let mut i: usize = 0;
    assert(all.take(0) =~= Seq::empty());
    assert(views(timeline@) =~= timeline_of(all.take(0)));
    while i < runs.len()
        invariant
            i <= runs@.len(),
            all == views(runs@),
            limit == u64::MAX,
            forall|k: int| 0 <= k < runs@.len() ==> (#[trigger] all[k]).bytes_fit(),
            freed == real_freed(all.take(i as int)),
            trashed == real_trashed(all.take(i as int)),
            found == candidates_total(all.take(i as int)),
            views(timeline@) == timeline_of(all.take(i as int)),
        decreases runs@.len() - i,
    {
        proof {
            assert(all.take(i + 1).drop_last() =~= all.take(i as int));
            assert(all.take(i + 1).last() == runs@[i as int]@);
            lemma_prefix_sums(all, i + 1);
            assert(all[i as int].bytes_fit());
        }
        if runs[i].candidates_found as u64 > limit - found {
            return None;
        }
        found = found + runs[i].candidates_found as u64;
        if !runs[i].dry_run {
            let run_freed: u64 = runs[i].bytes_freed();
            let run_trashed: u64 = runs[i].bytes_trashed();
            if run_freed > limit - freed || run_trashed > limit - trashed {
                return None;
            }
            freed = freed + run_freed;
            trashed = trashed + run_trashed;
            timeline.push(
                TimelinePoint {
                    started_at: runs[i].started_at,
                    freed: run_freed,
                    trashed: run_trashed,
                    cumulative_freed: freed,
                },
            );
        }
        i += 1;
    }
    assert(all.take(all.len() as int) =~= all);
    Some((freed, trashed, found, timeline))
}

/// The items of the first runs and of the first items of the next one.
spec fn items_up_to(runs: Seq<RunModel>, i: int, j: int) -> Seq<HistoryItem> {
    all_items(runs.take(i)) + (if i < runs.len() {
        items_of(runs[i]).take(j)
    } else {
        Seq::empty()
    })
}

proof fn lemma_items_step(runs: Seq<RunModel>, i: int, j: int)
    requires
        0 <= i < runs.len(),
        0 <= j < runs[i].items.len(),
    ensures
        items_up_to(runs, i, j + 1) == items_up_to(runs, i, j).push(
            HistoryItem {
                started_at: runs[i].started_at,
                dry_run: runs[i].dry_run,
                item: runs[i].items[j],
            },
        ),
        items_up_to(runs, i, j + 1).drop_last() == items_up_to(runs, i, j),
        items_up_to(runs, i, j + 1).last().item == runs[i].items[j],
{
    let next = HistoryItem {
        started_at: runs[i].started_at,
        dry_run: runs[i].dry_run,
        item: runs[i].items[j],
    };
    assert(items_of(runs[i]).take(j + 1) =~= items_of(runs[i]).take(j).push(next));
    assert(items_up_to(runs, i, j + 1) =~= items_up_to(runs, i, j).push(next));
    assert(items_up_to(runs, i, j + 1).drop_last() =~= items_up_to(runs, i, j));
}

proof fn lemma_items_run(runs: Seq<RunModel>, i: int)
    requires
        0 <= i < runs.len(),
    ensures
        items_up_to(runs, i, runs[i].items.len() as int) == items_up_to(runs, i + 1, 0),
{
    assert(runs.take(i + 1).drop_last() =~= runs.take(i));
    assert(items_of(runs[i]).take(runs[i].items.len() as int) =~= items_of(runs[i]));
    assert(items_up_to(runs, i, runs[i].items.len() as int) =~= items_up_to(runs, i + 1, 0)) by {
        if i + 1 < runs.len() {
            assert(items_of(runs[i + 1]).take(0) =~= Seq::empty());
        }
    }
}

proof fn lemma_items_ends(runs: Seq<RunModel>)
    ensures
        items_up_to(runs, 0, 0) == Seq::<HistoryItem>::empty(),
        items_up_to(runs, runs.len() as int, 0) == all_items(runs),
{
    assert(runs.take(0) =~= Seq::empty());
    if runs.len() > 0 {
        assert(items_of(runs[0]).take(0) =~= Seq::empty());
    }
    assert(items_up_to(runs, 0, 0) =~= Seq::empty());
    assert(runs.take(runs.len() as int) =~= runs);
    assert(items_up_to(runs, runs.len() as int, 0) =~= all_items(runs));
}

fn collect_failures(runs: &Vec<&RunRecord>) -> (out: Vec<FailureEntry>)
    ensures
        views(out@) == failures_of(all_items(views(runs@))),
{
    let ghost all = views(runs@);
    let mut out: Vec<FailureEntry> = Vec::new();
    let mut i: usize = 0;
    proof {
        lemma_items_ends(all);
        assert(views(out@) =~= failures_of(items_up_to(all, 0, 0)));
    }
    while i < runs.len()
        invariant
            i <= runs@.len(),
            all == views(runs@),
            views(out@) == failures_of(items_up_to(all, i as int, 0)),
        decreases runs@.len() - i,
    {
        let run = runs[i];
        let mut j: usize = 0;
        while j < run.items.len()
            invariant
                i < runs@.len(),
                all == views(runs@),
                run == runs@[i as int],
                j <= run.items@.len(),
                views(out@) == failures_of(items_up_to(all, i as int, j as int)),
            decreases run.items@.len() - j,
        {
            proof {
                assert(all[i as int] == run@);
                assert(run@.items[j as int] == run.items@[j as int]@);
                lemma_items_step(all, i as int, j as int);
            }
            let item = &run.items[j];
            if item.disposition == Disposition::Failed {
                let error = match &item.error {
                    Some(e) => e.clone(),
                    None => "unknown error".to_owned(),
                };
                out.push(
                    FailureEntry {
                        started_at: run.started_at,
                        label: item.label.clone(),
                        provider: item.provider.clone(),
                        error,
                    },
                );
            }
            j += 1;
        }
        proof {
            assert(all[i as int] == run@);
            lemma_items_run(all, i as int);
        }
        i += 1;
    }
    proof {
        lemma_items_ends(all);
    }
    out
}

fn collect_reclaims(runs: &Vec<&RunRecord>) -> (out: Vec<TopItem>)
    ensures
        views(out@) == reclaims_of(all_items(views(runs@))),
{
    let ghost all = views(runs@);
    let mut out: Vec<TopItem> = Vec::new();
    let mut i: usize = 0;
    proof {
        lemma_items_ends(all);
        assert(views(out@) =~= reclaims_of(items_up_to(all, 0, 0)));
    }
    while i < runs.len()
        invariant
            i <= runs@.len(),
            all == views(runs@),
            views(out@) == reclaims_of(items_up_to(all, i as int, 0)),
        decreases runs@.len() - i,
    {
        let run = runs[i];
        let mut j: usize = 0;
        while j < run.items.len()
            invariant
                i < runs@.len(),
                all == views(runs@),
                run == runs@[i as int],
                j <= run.items@.len(),
                views(out@) == reclaims_of(items_up_to(all, i as int, j as int)),
            decreases run.items@.len() - j,
        {
            proof {
                assert(all[i as int] == run@);
                assert(run@.items[j as int] == run.items@[j as int]@);
                lemma_items_step(all, i as int, j as int);
            }
            let item = &run.items[j];
            if item.disposition.frees_space_immediately() && item.freed_bytes > 0 && !run.dry_run {
                out.push(
                    TopItem {
                        label: item.label.clone(),
                        group: item.group,
                        tier: item.tier,
                        bytes: item.freed_bytes,
                        started_at: run.started_at,
                    },
                );
            }
            j += 1;
        }
        proof {
            assert(all[i as int] == run@);
            lemma_items_run(all, i as int);
        }
        i += 1;
    }
    proof {
        lemma_items_ends(all);
    }
    out
}

proof fn lemma_group_concat(a: Seq<HistoryItem>, b: Seq<HistoryItem>, group: Group)
    ensures
        group_freed(a + b, group) == group_freed(a, group) + group_freed(b, group),
        group_trashed(a + b, group) == group_trashed(a, group) + group_trashed(b, group),
        group_items(a + b, group) == group_items(a, group) + group_items(b, group),
    decreases b.len(),
{
    if b.len() == 0 {
        assert(a + b =~= a);
    } else {
        lemma_group_concat(a, b.drop_last(), group);
        assert((a + b).drop_last() =~= a + b.drop_last());
    }
}

/// The sums of a group over the first runs are no more than those over all.
proof fn lemma_group_runs(runs: Seq<RunModel>, i: int, group: Group)
    requires
        0 <= i <= runs.len(),
    ensures
        group_freed(all_items(runs.take(i)), group) <= group_freed(all_items(runs), group),
        group_trashed(all_items(runs.take(i)), group) <= group_trashed(all_items(runs), group),
        group_items(all_items(runs.take(i)), group) <= group_items(all_items(runs), group),
    decreases runs.len() - i,
{
    if i == runs.len() {
        assert(runs.take(i) =~= runs);
    } else {
        assert(runs.drop_last().take(i) =~= runs.take(i));
        lemma_group_runs(runs.drop_last(), i, group);
        lemma_group_concat(all_items(runs.drop_last()), items_of(runs.last()), group);
    }
}

/// The sums of a group over the first items are no more than those over all.
proof fn lemma_group_prefix(runs: Seq<RunModel>, i: int, j: int, group: Group)
    requires
        0 <= i < runs.len(),
        0 <= j <= runs[i].items.len(),
    ensures
        group_freed(items_up_to(runs, i, j), group) <= group_freed(all_items(runs), group),
        group_trashed(items_up_to(runs, i, j), group) <= group_trashed(all_items(runs), group),
        group_items(items_up_to(runs, i, j), group) <= group_items(all_items(runs), group),
{
    let before = all_items(runs.take(i));
    let part = items_of(runs[i]).take(j);
    let rest = items_of(runs[i]).skip(j);
    assert(part + rest =~= items_of(runs[i]));
    assert(runs.take(i + 1).drop_last() =~= runs.take(i));
    lemma_group_concat(before, part, group);
    lemma_group_concat(part, rest, group);
    lemma_group_concat(before, items_of(runs[i]), group);
    lemma_group_runs(runs, i + 1, group);
}

/// The statistics of one group. Nothing where its sums do not fit.
fn stats_of_group(runs: &Vec<&RunRecord>, group: Group) -> (s: Option<GroupStats>)
    ensures
        match s {
            Some(stats) => group_sums_fit(all_items(views(runs@)), group) && stats@ == group_stats(
                all_items(views(runs@)),
                group,
            ),
            None => !group_sums_fit(all_items(views(runs@)), group),
        },
{
    let ghost all = views(runs@);
    let limit: u64 = u64::MAX;
    let mut freed: u64 = 0;
    let mut trashed: u64 = 0;
    let mut count: usize = 0;
    let mut i: usize = 0;
    proof {
        lemma_items_ends(all);
    }
    while i < runs.len()
        invariant
            i <= runs@.len(),
            all == views(runs@),
            limit == u64::MAX,
            freed + trashed <= limit,
            freed == group_freed(items_up_to(all, i as int, 0), group),
            trashed == group_trashed(items_up_to(all, i as int, 0), group),
            count == group_items(items_up_to(all, i as int, 0), group),
        decreases runs@.len() - i,
    {
        let run = runs[i];
        let mut j: usize = 0;
        while j < run.items.len()
            invariant
                i < runs@.len(),
                all == views(runs@),
                limit == u64::MAX,
                freed + trashed <= limit,
                run == runs@[i as int],
                j <= run.items@.len(),
                freed == group_freed(items_up_to(all, i as int, j as int), group),
                trashed == group_trashed(items_up_to(all, i as int, j as int), group),
                count == group_items(items_up_to(all, i as int, j as int), group),
            decreases run.items@.len() - j,
        {
            proof {
                assert(all[i as int] == run@);
                assert(run@.items[j as int] == run.items@[j as int]@);
                lemma_items_step(all, i as int, j as int);
                lemma_group_prefix(all, i as int, j + 1, group);
            }
            let item = &run.items[j];
            if item.group == group && item.disposition != Disposition::Failed && item.freed_bytes
                > 0 {
                let room: u64 = limit - freed - trashed;
                if count == usize::MAX {
                    return None;
                }
                count = count + 1;
                if item.disposition.frees_space_immediately() {
                    if item.freed_bytes > room {
                        return None;
                    }
                    freed = freed + item.freed_bytes;
                } else if item.disposition == Disposition::Trashed {
                    if item.freed_bytes > room {
                        return None;
                    }
                    trashed = trashed + item.freed_bytes;
                }
            }
            j += 1;
        }
        proof {
            assert(all[i as int] == run@);
            lemma_items_run(all, i as int);
        }
        i += 1;
    }
    proof {
        lemma_items_ends(all);
    }
    Some(GroupStats { group, title: group.title().to_owned(), freed, trashed, items: count })
}

fn collect_groups(runs: &Vec<&RunRecord>) -> (out: Vec<GroupStats>)
    requires
        history_fits(views(runs@)),
    ensures
        stably_sorted(
            groups_seen(all_items(views(runs@)), Group::every()),
            views(out@),
            |a: GroupStatsModel, b: GroupStatsModel| group_le(a, b),
        ),
{
    let ghost items = all_items(views(runs@));
    let groups = Group::all();
    let mut found: Vec<GroupStats> = Vec::new();
    let mut keys: Vec<Descending> = Vec::new();
    let mut i: usize = 0;
    assert(views(found@) =~= groups_seen(items, groups@.take(0)));
    while i < groups.len()
        invariant
            i <= groups@.len(),
            items == all_items(views(runs@)),
            history_fits(views(runs@)),
            views(found@) == groups_seen(items, groups@.take(i as int)),
            keys@.len() == found@.len(),
            forall|k: int|
                0 <= k < keys@.len() ==> (#[trigger] keys@[k])@ == found@[k].freed
                    + found@[k].trashed,
        decreases groups@.len() - i,
    {
        assert(groups@.take(i + 1).drop_last() =~= groups@.take(i as int));
        assert(group_sums_fit(items, groups@[i as int]));
        if let Some(stats) = stats_of_group(runs, groups[i]) {
            if stats.items > 0 {
                keys.push(Descending { n: stats.freed as i128 + stats.trashed as i128 });
                found.push(stats);
            }
        }
        i += 1;
    }
    assert(groups@.take(groups@.len() as int) =~= groups@);
    let out = sort_by_keys(&found, &keys);
    proof {
        let key = |s: GroupStatsModel| (s.freed + s.trashed) as int;
        let le = |a: int, b: int| <Descending as Ranked>::le(a, b);
        assert forall|k: int| 0 <= k < found@.len() implies views(keys@)[k] == #[trigger] key(
            views(found@)[k],
        ) by {
            assert(keys@[k]@ == found@[k].freed + found@[k].trashed);
        }
        lemma_sorted_with(
            views(found@),
            views(keys@),
            key,
            le,
            views(out@),
            |a: GroupStatsModel, b: GroupStatsModel| group_le(a, b),
        );
    }
    out
}

/// The statistics of one trigger. Nothing where its sum does not fit.
fn stats_of_trigger(runs: &Vec<&RunRecord>, trigger: Trigger) -> (s: Option<TriggerStats>)
    requires
        forall|i: int| 0 <= i < runs@.len() ==> (#[trigger] views(runs@)[i]).bytes_fit(),
    ensures
        match s {
            Some(stats) => trigger_freed(views(runs@), trigger) <= u64::MAX && stats@ == (
            TriggerStatsModel {
                trigger,
                label: trigger.name(),
                runs: trigger_runs(views(runs@), trigger),
                freed: trigger_freed(views(runs@), trigger),
            }),
            None => trigger_freed(views(runs@), trigger) > u64::MAX,
        },
{
    let ghost all = views(runs@);
    let limit: u64 = u64::MAX;
    let mut count: usize = 0;
    let mut freed: u64 = 0;
    let mut i: usize = 0;
    assert(all.take(0) =~= Seq::empty());
    while i < runs.len()
        invariant
            i <= runs@.len(),
            all == views(runs@),
            limit == u64::MAX,
            forall|k: int| 0 <= k < runs@.len() ==> (#[trigger] all[k]).bytes_fit(),
            count == trigger_runs(all.take(i as int), trigger),
            count <= i,
            freed == trigger_freed(all.take(i as int), trigger),
        decreases runs@.len() - i,
    {
        proof {
            assert(all.take(i + 1).drop_last() =~= all.take(i as int));
            assert(all.take(i + 1).last() == runs@[i as int]@);
            lemma_prefix_sums(all, i + 1);
            assert(trigger_freed(all.take(i + 1), trigger) <= trigger_freed(all, trigger));
            assert(all[i as int].bytes_fit());
        }
        if runs[i].trigger == trigger {
            let run_freed: u64 = runs[i].bytes_freed();
            if run_freed > limit - freed {
                return None;
            }
            count = count + 1;
            freed = freed + run_freed;
        }
        i += 1;
    }
    assert(all.take(all.len() as int) =~= all);
    Some(TriggerStats { trigger, label: trigger.label().to_owned(), runs: count, freed })
}

fn collect_triggers(runs: &Vec<&RunRecord>) -> (out: Vec<TriggerStats>)
    requires
        history_fits(views(runs@)),
    ensures
        stably_sorted(
            triggers_seen(views(runs@), every_trigger()),
            views(out@),
            |a: TriggerStatsModel, b: TriggerStatsModel| trigger_le(a, b),
        ),
{
    let ghost all = views(runs@);
    let triggers = vec![Trigger::Tui, Trigger::Cli, Trigger::Web, Trigger::Scheduled];
    assert(triggers@ =~= every_trigger());
    let mut found: Vec<TriggerStats> = Vec::new();
    let mut keys: Vec<Descending> = Vec::new();
    let mut i: usize = 0;
    assert(views(found@) =~= triggers_seen(all, triggers@.take(0)));
    while i < triggers.len()
        invariant
            i <= triggers@.len(),
            all == views(runs@),
            history_fits(all),
            views(found@) == triggers_seen(all, triggers@.take(i as int)),
            keys@.len() == found@.len(),
            forall|k: int| 0 <= k < keys@.len() ==> (#[trigger] keys@[k])@ == found@[k].runs,
        decreases triggers@.len() - i,
    {
        assert(triggers@.take(i + 1).drop_last() =~= triggers@.take(i as int));
        assert(trigger_freed(all, triggers@[i as int]) <= u64::MAX);
        if let Some(stats) = stats_of_trigger(runs, triggers[i]) {
            if stats.runs > 0 {
                keys.push(Descending { n: stats.runs as i128 });
                found.push(stats);
            }
        }
        i += 1;
    }
    assert(triggers@.take(triggers@.len() as int) =~= triggers@);
    let out = sort_by_keys(&found, &keys);
    proof {
        let key = |s: TriggerStatsModel| s.runs as int;
        let le = |a: int, b: int| <Descending as Ranked>::le(a, b);
        assert forall|k: int| 0 <= k < found@.len() implies views(keys@)[k] == #[trigger] key(
            views(found@)[k],
        ) by {
            assert(keys@[k]@ == found@[k].runs);
        }
        lemma_sorted_with(
            views(found@),
            views(keys@),
            key,
            le,
            views(out@),
            |a: TriggerStatsModel, b: TriggerStatsModel| trigger_le(a, b),
        );
    }
    out
}

fn largest_first(found: &Vec<TopItem>) -> (out: Vec<TopItem>)
    ensures
        first_in_order(
            views(found@),
            |a: TopItemModel, b: TopItemModel| top_le(a, b),
            TOP_ITEMS_LIMIT as nat,
            views(out@),
        ),
{
    let mut keys: Vec<Descending> = Vec::new();
    let mut i: usize = 0;
    while i < found.len()
        invariant
            i <= found@.len(),
            keys@.len() == i,
            forall|k: int| 0 <= k < i ==> (#[trigger] keys@[k])@ == found@[k].bytes,
        decreases found@.len() - i,
    {
        keys.push(Descending { n: found[i].bytes as i128 });
        i += 1;
    }
    let mut out = sort_by_keys(found, &keys);
    let ghost sorted = views(out@);
    proof {
        let key = |s: TopItemModel| s.bytes as int;
        let le = |a: int, b: int| <Descending as Ranked>::le(a, b);
        assert forall|k: int| 0 <= k < found@.len() implies views(keys@)[k] == #[trigger] key(
            views(found@)[k],
        ) by {
            assert(keys@[k]@ == found@[k].bytes);
        }
        lemma_sorted_with(
            views(found@),
            views(keys@),
            key,
            le,
            sorted,
            |a: TopItemModel, b: TopItemModel| top_le(a, b),
        );
    }
    if out.len() > TOP_ITEMS_LIMIT {
        out.truncate(TOP_ITEMS_LIMIT);
    }
    assert(views(out@) =~= capped(sorted, TOP_ITEMS_LIMIT as nat));
    out
}

fn newest_failures(found: &Vec<FailureEntry>) -> (out: Vec<FailureEntry>)
    ensures
        first_in_order(
            views(found@),
            |a: FailureModel, b: FailureModel| failure_le(a, b),
            FAILURES_LIMIT as nat,
            views(out@),
        ),
{
    let mut keys: Vec<Descending> = Vec::new();
    let mut i: usize = 0;
    while i < found.len()
        invariant
            i <= found@.len(),
            keys@.len() == i,
            forall|k: int| 0 <= k < i ==> (#[trigger] keys@[k])@ == found@[k].started_at,
        decreases found@.len() - i,
    {
        keys.push(Descending { n: found[i].started_at });
        i += 1;
    }
    let mut out = sort_by_keys(found, &keys);
    let ghost sorted = views(out@);
    proof {
        let key = |s: FailureModel| s.started_at as int;
        let le = |a: int, b: int| <Descending as Ranked>::le(a, b);
        assert forall|k: int| 0 <= k < found@.len() implies views(keys@)[k] == #[trigger] key(
            views(found@)[k],
        ) by {
            assert(keys@[k]@ == found@[k].started_at);
        }
        lemma_sorted_with(
            views(found@),
            views(keys@),
            key,
            le,
            sorted,
            |a: FailureModel, b: FailureModel| failure_le(a, b),
        );
    }
    if out.len() > FAILURES_LIMIT {
        out.truncate(FAILURES_LIMIT);
    }
    assert(views(out@) =~= capped(sorted, FAILURES_LIMIT as nat));
    out
}

fn summarize(runs: &Vec<&RunRecord>) -> (out: Vec<RunSummary>)
    requires
        history_fits(views(runs@)),
    ensures
        stably_sorted(
            summaries_of(views(runs@)),
            views(out@),
            |a: RunSummaryModel, b: RunSummaryModel| summary_le(a, b),
        ),
{
    let ghost all = views(runs@);
    let mut found: Vec<RunSummary> = Vec::new();
    let mut keys: Vec<Descending> = Vec::new();
    let mut i: usize = 0;
    while i < runs.len()
        invariant
            i <= runs@.len(),
            all == views(runs@),
            history_fits(all),
            found@.len() == i,
            keys@.len() == i,
            forall|k: int| 0 <= k < i ==> (#[trigger] found@[k])@ == summary_of(all[k]),
            forall|k: int| 0 <= k < i ==> (#[trigger] keys@[k])@ == found@[k].started_at,
        decreases runs@.len() - i,
    {
        let run = runs[i];
        assert(all[i as int] == run@);
        assert(all[i as int].bytes_fit());
        let failed = run.failures();
        assert(views(failed@).len() == failed@.len());
        keys.push(Descending { n: run.started_at });
        found.push(
            RunSummary {
                id: run.id.clone(),
                started_at: run.started_at,
                trigger: run.trigger,
                dry_run: run.dry_run,
                candidates_found: run.candidates_found,
                freed: run.bytes_freed(),
                trashed: run.bytes_trashed(),
                items: run.items.len(),
                failures: failed.len(),
                succeeded: run.succeeded(),
            },
        );
        i += 1;
    }
    assert(views(found@) =~= summaries_of(all));
    let out = sort_by_keys(&found, &keys);
    proof {
        let key = |s: RunSummaryModel| s.started_at as int;
        let le = |a: int, b: int| <Descending as Ranked>::le(a, b);
        assert forall|k: int| 0 <= k < found@.len() implies views(keys@)[k] == #[trigger] key(
            views(found@)[k],
        ) by {
            assert(keys@[k]@ == found@[k].started_at);
        }
        lemma_sorted_with(
            views(found@),
            views(keys@),
            key,
            le,
            views(out@),
            |a: RunSummaryModel, b: RunSummaryModel| summary_le(a, b),
        );
    }
    out
}

/// Sorting runs keeps every sum.
proof fn lemma_history_fits_sorted(runs: Seq<RunModel>, sorted: Seq<RunModel>)
    requires
        history_fits(runs),
        chronological(runs, sorted),
    ensures
        history_fits(sorted),
        sorted.len() == runs.len(),
{
    let le = |a: RunModel, b: RunModel| a.started_at <= b.started_at;
    sorting_keeps_every_item(runs, sorted, le);
    lemma_permuted_sums(runs, sorted);
    let order = choose|order: Seq<int>| #[trigger]
        is_stable_order(runs, le, order) && sorted == arranged(runs, order);
    assert forall|i: int| 0 <= i < sorted.len() implies (#[trigger] sorted[i]).bytes_fit() by {
        assert(runs[order[i]].bytes_fit());
    }
    assert forall|trigger: Trigger| #[trigger]
        trigger_freed(sorted, trigger) <= u64::MAX by {
        assert(trigger_freed(runs, trigger) <= u64::MAX);
    }
    assert forall|group: Group| #[trigger] group_sums_fit(all_items(sorted), group) by {
        assert(group_sums_fit(all_items(runs), group));
        lemma_permuted_groups(runs, sorted, group);
    }
}

/// The sums over runs do not depend on their order.
pub proof fn lemma_permuted_sums(a: Seq<RunModel>, b: Seq<RunModel>)
    requires
        a.to_multiset() == b.to_multiset(),
    ensures
        candidates_total(a) == candidates_total(b),
        forall|t: Trigger| #[trigger] trigger_freed(a, t) == trigger_freed(b, t),
        real_freed(a) == real_freed(b),
        real_trashed(a) == real_trashed(b),
        dry_run_count(a) == dry_run_count(b),
        a.len() == b.len(),
    decreases a.len(),
{
    broadcast use vstd::seq_lib::group_to_multiset_ensures;

    a.to_multiset_ensures();
    b.to_multiset_ensures();
    if a.len() > 0 {
        let x = a.last();
        assert(a.contains(a[a.len() - 1]));
        assert(b.to_multiset().count(x) > 0);
        assert(b.contains(x));
        let k = choose|k: int| 0 <= k < b.len() && b[k] == x;
        let rest_a = a.drop_last();
        let rest_b = b.remove(k);
        rest_a.to_multiset_ensures();
        assert(a =~= rest_a.push(x));
        assert(rest_a.to_multiset() =~= a.to_multiset().remove(x));
        assert(rest_b.to_multiset() =~= b.to_multiset().remove(x));
        lemma_permuted_sums(rest_a, rest_b);
        lemma_removed_sums(b, k);
        assert forall|t: Trigger| #[trigger] trigger_freed(a, t) == trigger_freed(b, t) by {
            assert(trigger_freed(rest_a, t) == trigger_freed(rest_b, t));
            lemma_removed_trigger(b, k, t);
        }
    }
}

/// The sums of a group do not depend on the order of the runs.
proof fn lemma_permuted_groups(a: Seq<RunModel>, b: Seq<RunModel>, group: Group)
    requires
        a.to_multiset() == b.to_multiset(),
    ensures
        group_freed(all_items(a), group) == group_freed(all_items(b), group),
        group_trashed(all_items(a), group) == group_trashed(all_items(b), group),
        group_items(all_items(a), group) == group_items(all_items(b), group),
    decreases a.len(),
{
    broadcast use vstd::seq_lib::group_to_multiset_ensures;

    a.to_multiset_ensures();
    b.to_multiset_ensures();
    if a.len() > 0 {
        let x = a.last();
        assert(a.contains(a[a.len() - 1]));
        assert(b.to_multiset().count(x) > 0);
        assert(b.contains(x));
        let k = choose|k: int| 0 <= k < b.len() && b[k] == x;
        let rest_a = a.drop_last();
        let rest_b = b.remove(k);
        rest_a.to_multiset_ensures();
        assert(a =~= rest_a.push(x));
        assert(rest_a.to_multiset() =~= a.to_multiset().remove(x));
        assert(rest_b.to_multiset() =~= b.to_multiset().remove(x));
        lemma_permuted_groups(rest_a, rest_b, group);
        lemma_group_concat(all_items(rest_a), items_of(x), group);
        lemma_removed_group(b, k, group);
    }
}

proof fn lemma_removed_group(b: Seq<RunModel>, k: int, group: Group)
    requires
        0 <= k < b.len(),
    ensures
        group_freed(all_items(b), group) == group_freed(all_items(b.remove(k)), group)
            + group_freed(items_of(b[k]), group),
        group_trashed(all_items(b), group) == group_trashed(all_items(b.remove(k)), group)
            + group_trashed(items_of(b[k]), group),
        group_items(all_items(b), group) == group_items(all_items(b.remove(k)), group)
            + group_items(items_of(b[k]), group),
    decreases b.len(),
{
    lemma_group_concat(all_items(b.drop_last()), items_of(b.last()), group);
    if k == b.len() - 1 {
        assert(b.remove(k) =~= b.drop_last());
    } else {
        lemma_removed_group(b.drop_last(), k, group);
        assert(b.remove(k).drop_last() =~= b.drop_last().remove(k));
        assert(b.remove(k).last() == b.last());
        lemma_group_concat(all_items(b.remove(k).drop_last()), items_of(b.last()), group);
    }
}

proof fn lemma_removed_trigger(b: Seq<RunModel>, k: int, trigger: Trigger)
    requires
        0 <= k < b.len(),
    ensures
        trigger_freed(b, trigger) == trigger_freed(b.remove(k), trigger) + if b[k].trigger
            == trigger {
            freed_by(b[k].items)
        } else {
            0
        },
    decreases b.len(),
{
    if k == b.len() - 1 {
        assert(b.remove(k) =~= b.drop_last());
    } else {
        lemma_removed_trigger(b.drop_last(), k, trigger);
        assert(b.remove(k).drop_last() =~= b.drop_last().remove(k));
        assert(b.remove(k).last() == b.last());
    }
}

/// Taking a run out takes its share out of every sum.
proof fn lemma_removed_sums(b: Seq<RunModel>, k: int)
    requires
        0 <= k < b.len(),
    ensures
        candidates_total(b) == candidates_total(b.remove(k)) + b[k].candidates_found,
        real_freed(b) == real_freed(b.remove(k)) + if b[k].dry_run {
            0
        } else {
            freed_by(b[k].items)
        },
        real_trashed(b) == real_trashed(b.remove(k)) + if b[k].dry_run {
            0
        } else {
            trashed_by(b[k].items)
        },
        dry_run_count(b) == dry_run_count(b.remove(k)) + if b[k].dry_run {
            1nat
        } else {
            0
        },
    decreases b.len(),
{
    if k == b.len() - 1 {
        assert(b.remove(k) =~= b.drop_last());
    } else {
        lemma_removed_sums(b.drop_last(), k);
        assert(b.remove(k).drop_last() =~= b.drop_last().remove(k));
        assert(b.remove(k).last() == b.last());
    }
}

impl HistoryReport {
    /// Build a report from records in any order.
    pub fn build(records: &Vec<RunRecord>, now: Moment) -> (report: Self)
        requires
            history_fits(views(records@)),
        ensures
            report.generated_at == now,
            exists|sorted: Seq<RunModel>| #[trigger]
                chronological(views(records@), sorted) && report.tells(sorted),
    {
        let runs = in_order(records);
        proof {
            lemma_history_fits_sorted(views(records@), views(runs@));
        }
        let dry_runs: usize = count_dry_runs(&runs);
        proof {
            lemma_prefix_sums(views(runs@), runs@.len() as int);
            assert(views(runs@).take(runs@.len() as int) =~= views(runs@));
        }
        let (lifetime_freed, lifetime_trashed, lifetime_candidates_found, timeline) = match totals(
            &runs,
        ) {
            Some(figures) => figures,
            None => (0, 0, 0, Vec::new()),
        };
        let found_failures = collect_failures(&runs);
        assert(views(found_failures@).len() == found_failures@.len());
        let report = HistoryReport {
            generated_at: now,
            runs: records.len(),
            real_runs: records.len() - dry_runs,
            dry_runs,
            lifetime_freed,
            lifetime_trashed,
            lifetime_candidates_found,
            failed_items: found_failures.len(),
            by_group: collect_groups(&runs),
            by_trigger: collect_triggers(&runs),
            timeline,
            top_items: largest_first(&collect_reclaims(&runs)),
            failures: newest_failures(&found_failures),
            runs_detail: summarize(&runs),
        };
        assert(report.tells(views(runs@)));
        report
    }

    /// Whether the sums that a report is made of fit, so that it can be built.
    pub fn can_build(records: &Vec<RunRecord>) -> (r: bool)
        ensures
            r == history_fits(views(records@)),
    {
        let ghost all = views(records@);
        let mut runs: Vec<&RunRecord> = Vec::new();
        let mut i: usize = 0;
        while i < records.len()
            invariant
                i <= records@.len(),
                all == views(records@),
                runs@.len() == i,
                forall|k: int| 0 <= k < i ==> (#[trigger] runs@[k])@ == all[k],
                forall|k: int| 0 <= k < i ==> (#[trigger] all[k]).bytes_fit(),
            decreases records@.len() - i,
        {
            assert(all[i as int] == records@[i as int]@);
            if !records[i].bytes_fit() {
                return false;
            }
            runs.push(&records[i]);
            i += 1;
        }
        assert(views(runs@) =~= all);
        totals(&runs).is_some() && triggers_fit(&runs) && groups_fit(&runs)
    }
}

fn triggers_fit(runs: &Vec<&RunRecord>) -> (r: bool)
    requires
        forall|i: int| 0 <= i < runs@.len() ==> (#[trigger] views(runs@)[i]).bytes_fit(),
    ensures
        r == forall|trigger: Trigger| #[trigger] trigger_freed(views(runs@), trigger) <= u64::MAX,
{
    let tui = stats_of_trigger(runs, Trigger::Tui).is_some();
    let cli = stats_of_trigger(runs, Trigger::Cli).is_some();
    let web = stats_of_trigger(runs, Trigger::Web).is_some();
    let scheduled = stats_of_trigger(runs, Trigger::Scheduled).is_some();
    let r = tui && cli && web && scheduled;
    proof {
        if r {
            assert forall|trigger: Trigger| #[trigger]
                trigger_freed(views(runs@), trigger) <= u64::MAX by {
                match trigger {
                    Trigger::Tui => {},
                    Trigger::Cli => {},
                    Trigger::Web => {},
                    Trigger::Scheduled => {},
                }
            }
        }
    }
    r
}

fn groups_fit(runs: &Vec<&RunRecord>) -> (r: bool)
    ensures
        r == forall|group: Group| #[trigger] group_sums_fit(all_items(views(runs@)), group),
{
    let ghost items = all_items(views(runs@));
    let groups = Group::all();
    let mut i: usize = 0;
    while i < groups.len()
        invariant
            i <= groups@.len(),
            items == all_items(views(runs@)),
            forall|k: int| 0 <= k < i ==> group_sums_fit(items, #[trigger] groups@[k]),
        decreases groups@.len() - i,
    {
        if stats_of_group(runs, groups[i]).is_none() {
            assert(!group_sums_fit(items, groups@[i as int]));
            return false;
        }
        i += 1;
    }
    assert forall|group: Group| #[trigger] group_sums_fit(items, group) by {
        assert(groups@[group.index()] == group);
    }
    true
}

/// The lifetime figures and the counts do not depend on the order the records come in.
pub proof fn lifetime_figures_ignore_the_order(a: Seq<RunModel>, b: Seq<RunModel>)
    requires
        a.to_multiset() == b.to_multiset(),
    ensures
        real_freed(a) == real_freed(b),
        real_trashed(a) == real_trashed(b),
        candidates_total(a) == candidates_total(b),
        dry_run_count(a) == dry_run_count(b),
{
    lemma_permuted_sums(a, b);
}

/// Dry runs add nothing to the lifetime figures.
pub proof fn dry_runs_add_nothing(runs: Seq<RunModel>, dry: RunModel)
    requires
        dry.dry_run,
    ensures
        real_freed(runs.push(dry)) == real_freed(runs),
        real_trashed(runs.push(dry)) == real_trashed(runs),
        timeline_of(runs.push(dry)) == timeline_of(runs),
{
    assert(runs.push(dry).drop_last() =~= runs);
}

/// The running total of the last point is everything the real runs freed.
pub proof fn the_timeline_ends_at_the_lifetime_total(runs: Seq<RunModel>)
    ensures
        timeline_of(runs).len() > 0 ==> timeline_of(runs).last().cumulative_freed == real_freed(
            runs,
        ),
        timeline_of(runs).len() == 0 ==> real_freed(runs) == 0,
        timeline_of(runs).len() == runs.len() - dry_run_count(runs),
    decreases runs.len(),
{
    if runs.len() > 0 {
        the_timeline_ends_at_the_lifetime_total(runs.drop_last());
    }
}

/// No history gives a report of nothing.
pub proof fn an_empty_history_reports_nothing(report: HistoryReport)
    requires
        report.tells(Seq::empty()),
    ensures
        report.runs == 0,
        report.lifetime_freed == 0,
        report.by_group@.len() == 0,
        report.timeline@.len() == 0,
        report.failures@.len() == 0,
{
    let none = Seq::<HistoryItem>::empty();
    assert(all_items(Seq::<RunModel>::empty()) == none);
    lemma_no_groups(Group::every());
    let le = |a: GroupStatsModel, b: GroupStatsModel| group_le(a, b);
    assert(stably_sorted(
        groups_seen(none, Group::every()),
        views(report.by_group@),
        le,
    ));
    let order = choose|order: Seq<int>| #[trigger]
        is_stable_order(groups_seen(none, Group::every()), le, order) && views(report.by_group@)
            == arranged(groups_seen(none, Group::every()), order);
    assert(views(report.by_group@).len() == report.by_group@.len());
    assert(views(report.timeline@).len() == report.timeline@.len());
    assert(views(report.failures@).len() == report.failures@.len());
    let fle = |a: FailureModel, b: FailureModel| failure_le(a, b);
    let sorted = choose|sorted: Seq<FailureModel>| #[trigger]
        stably_sorted(failures_of(none), sorted, fle) && views(report.failures@) == capped(
            sorted,
            FAILURES_LIMIT as nat,
        );
    let forder = choose|order: Seq<int>| #[trigger]
        is_stable_order(failures_of(none), fle, order) && sorted == arranged(
            failures_of(none),
            order,
        );
}

proof fn lemma_no_groups(groups: Seq<Group>)
    ensures
        groups_seen(Seq::<HistoryItem>::empty(), groups).len() == 0,
    decreases groups.len(),
{
    if groups.len() > 0 {
        lemma_no_groups(groups.drop_last());
    }
}

/// What is freed across groups.
pub open spec fn freed_across(items: Seq<HistoryItem>, groups: Seq<Group>) -> nat
    decreases groups.len(),
{
    if groups.len() == 0 {
        0
    } else {
        freed_across(items, groups.drop_last()) + group_freed(items, groups.last())
    }
}

/// What an item returned to the filesystem.
spec fn freed_of(item: OutcomeModel) -> nat {
    if item.disposition.frees() {
        item.freed_bytes as nat
    } else {
        0
    }
}

/// What items returned to the filesystem.
spec fn freed_in(items: Seq<HistoryItem>) -> nat
    decreases items.len(),
{
    if items.len() == 0 {
        0
    } else {
        freed_in(items.drop_last()) + freed_of(items.last().item)
    }
}

proof fn lemma_freed_across_push(items: Seq<HistoryItem>, groups: Seq<Group>)
    requires
        items.len() > 0,
        groups.no_duplicates(),
    ensures
        freed_across(items, groups) == freed_across(items.drop_last(), groups) + if groups.contains(
            items.last().item.group,
        ) {
            freed_of(items.last().item)
        } else {
            0
        },
    decreases groups.len(),
{
    if groups.len() > 0 {
        let before = groups.drop_last();
        let last = groups.last();
        let group = items.last().item.group;
        lemma_freed_across_push(items, before);
        assert(groups =~= before.push(last));
        if before.contains(group) {
            let k = before.index_of(group);
            assert(groups[k] == group);
            assert(groups[groups.len() - 1] == last);
        } else if groups.contains(group) {
            let k = groups.index_of(group);
            assert(k == groups.len() - 1) by {
                if k < groups.len() - 1 {
                    assert(before[k] == group);
                }
            }
        } else {
            assert(groups[groups.len() - 1] == last);
        }
    }
}

proof fn lemma_freed_across(items: Seq<HistoryItem>)
    ensures
        freed_across(items, Group::every()) == freed_in(items),
    decreases items.len(),
{
    let groups = Group::every();
    if items.len() == 0 {
        lemma_freed_across_none(items, groups);
    } else {
        lemma_freed_across(items.drop_last());
        lemma_freed_across_push(items, groups);
        let group = items.last().item.group;
        assert(groups[group.index()] == group);
    }
}

proof fn lemma_freed_across_none(items: Seq<HistoryItem>, groups: Seq<Group>)
    requires
        items.len() == 0,
    ensures
        freed_across(items, groups) == 0,
    decreases groups.len(),
{
    if groups.len() > 0 {
        lemma_freed_across_none(items, groups.drop_last());
    }
}

proof fn lemma_freed_in_sum(a: Seq<HistoryItem>, b: Seq<HistoryItem>)
    ensures
        freed_in(a + b) == freed_in(a) + freed_in(b),
    decreases b.len(),
{
    if b.len() == 0 {
        assert(a + b =~= a);
    } else {
        assert((a + b).drop_last() =~= a + b.drop_last());
        lemma_freed_in_sum(a, b.drop_last());
    }
}

proof fn lemma_freed_in_run(run: RunModel)
    ensures
        freed_in(items_of(run)) == freed_by(run.items),
    decreases run.items.len(),
{
    if run.items.len() > 0 {
        let before = RunModel { items: run.items.drop_last(), ..run };
        lemma_freed_in_run(before);
        assert(items_of(run).drop_last() =~= items_of(before));
    }
}

proof fn lemma_freed_in_history(runs: Seq<RunModel>)
    requires
        forall|i: int|
            0 <= i < runs.len() && (#[trigger] runs[i]).dry_run ==> freed_by(runs[i].items) == 0,
    ensures
        freed_in(all_items(runs)) == real_freed(runs),
    decreases runs.len(),
{
    if runs.len() > 0 {
        let before = runs.drop_last();
        assert forall|i: int|
            0 <= i < before.len() && (#[trigger] before[i]).dry_run implies freed_by(
            before[i].items,
        ) == 0 by {
            assert(before[i] == runs[i]);
        }
        lemma_freed_in_history(before);
        lemma_freed_in_sum(all_items(before), items_of(runs.last()));
        lemma_freed_in_run(runs.last());
        assert(runs[runs.len() - 1] == runs.last());
    }
}

/// What the ecosystems freed adds up to the lifetime total, where dry runs freed nothing.
pub proof fn the_groups_add_up_to_the_lifetime_total(runs: Seq<RunModel>)
    requires
        forall|i: int|
            0 <= i < runs.len() && (#[trigger] runs[i]).dry_run ==> freed_by(runs[i].items) == 0,
    ensures
        freed_across(all_items(runs), Group::every()) == real_freed(runs),
{
    lemma_freed_across(all_items(runs));
    lemma_freed_in_history(runs);
}

/// Every run is counted for exactly one trigger.
pub proof fn every_run_has_one_trigger(runs: Seq<RunModel>)
    ensures
        trigger_runs(runs, Trigger::Tui) + trigger_runs(runs, Trigger::Cli) + trigger_runs(
            runs,
            Trigger::Web,
        ) + trigger_runs(runs, Trigger::Scheduled) == runs.len(),
    decreases runs.len(),
{
    if runs.len() > 0 {
        every_run_has_one_trigger(runs.drop_last());
    }
}

/// Start times are all different.
pub open spec fn started_apart(runs: Seq<RunModel>) -> bool {
    forall|i: int, j: int|
        #![trigger runs[i], runs[j]]
        0 <= i < j < runs.len() ==> runs[i].started_at != runs[j].started_at
}

/// A permutation of runs that started apart is such a list, too.
proof fn lemma_permuted_apart(a: Seq<RunModel>, b: Seq<RunModel>)
    requires
        a.to_multiset() == b.to_multiset(),
        started_apart(a),
    ensures
        started_apart(b),
{
    a.to_multiset_ensures();
    b.to_multiset_ensures();
    assert(a.no_duplicates());
    a.lemma_multiset_has_no_duplicates();
    b.lemma_multiset_has_no_duplicates_conv();
    assert forall|i: int, j: int| #![trigger b[i], b[j]] 0 <= i < j < b.len() implies b[i].started_at
        != b[j].started_at by {
        assert(b.contains(b[i]) && b.contains(b[j]));
        assert(a.to_multiset().count(b[i]) > 0 && a.to_multiset().count(b[j]) > 0);
        assert(a.contains(b[i]) && a.contains(b[j]));
        let p = a.index_of(b[i]);
        let q = a.index_of(b[j]);
        assert(b[i] != b[j]);
        if p < q {
            assert(a[p].started_at != a[q].started_at);
        } else {
            assert(a[q].started_at != a[p].started_at);
        }
    }
}

/// Runs that started apart have one chronological order.
proof fn lemma_one_chronology(a: Seq<RunModel>, b: Seq<RunModel>)
    requires
        a.to_multiset() == b.to_multiset(),
        forall|i: int, j: int| 0 <= i < j < a.len() ==> a[i].started_at < a[j].started_at,
        forall|i: int, j: int| 0 <= i < j < b.len() ==> b[i].started_at < b[j].started_at,
    ensures
        a == b,
    decreases a.len(),
{
    broadcast use vstd::seq_lib::group_to_multiset_ensures;

    a.to_multiset_ensures();
    b.to_multiset_ensures();
    if a.len() == 0 {
        assert(a =~= b);
    } else {
        let x = a.last();
        let y = b.last();
        assert(a.contains(a[a.len() - 1]) && b.contains(b[b.len() - 1]));
        assert(b.to_multiset().count(x) > 0 && a.to_multiset().count(y) > 0);
        assert(b.contains(x) && a.contains(y));
        let i = b.index_of(x);
        let j = a.index_of(y);
        assert(i == b.len() - 1) by {
            if i < b.len() - 1 {
                assert(b[i].started_at < b[b.len() - 1].started_at);
                if j < a.len() - 1 {
                    assert(a[j].started_at < a[a.len() - 1].started_at);
                }
            }
        }
        let fewer_a = a.drop_last();
        let fewer_b = b.drop_last();
        fewer_a.to_multiset_ensures();
        fewer_b.to_multiset_ensures();
        assert(a =~= fewer_a.push(x));
        assert(b =~= fewer_b.push(x));
        assert(fewer_a.to_multiset() =~= a.to_multiset().remove(x));
        assert(fewer_b.to_multiset() =~= b.to_multiset().remove(x));
        lemma_one_chronology(fewer_a, fewer_b);
    }
}

/// Runs that started apart are strictly increasing once they are in order.
proof fn lemma_strictly_later(runs: Seq<RunModel>, sorted: Seq<RunModel>)
    requires
        started_apart(runs),
        chronological(runs, sorted),
    ensures
        sorted.to_multiset() == runs.to_multiset(),
        forall|i: int, j: int|
            0 <= i < j < sorted.len() ==> sorted[i].started_at < sorted[j].started_at,
{
    let le = |a: RunModel, b: RunModel| a.started_at <= b.started_at;
    sorting_keeps_every_item(runs, sorted, le);
    lemma_sorted_pairs(runs, sorted, le);
    lemma_permuted_apart(runs, sorted);
    assert forall|i: int, j: int| 0 <= i < j < sorted.len() implies sorted[i].started_at
        < sorted[j].started_at by {
        assert(le(sorted[i], sorted[j]));
        assert(sorted[i].started_at != sorted[j].started_at);
    }
}

/// Two reports agree in every figure and every list; when they were made may differ.
pub open spec fn same_figures(r: HistoryReport, q: HistoryReport) -> bool {
    &&& r.runs == q.runs
    &&& r.real_runs == q.real_runs
    &&& r.dry_runs == q.dry_runs
    &&& r.lifetime_freed == q.lifetime_freed
    &&& r.lifetime_trashed == q.lifetime_trashed
    &&& r.lifetime_candidates_found == q.lifetime_candidates_found
    &&& r.failed_items == q.failed_items
    &&& views(r.by_group@) == views(q.by_group@)
    &&& views(r.by_trigger@) == views(q.by_trigger@)
    &&& views(r.timeline@) == views(q.timeline@)
    &&& views(r.top_items@) == views(q.top_items@)
    &&& views(r.failures@) == views(q.failures@)
    &&& views(r.runs_detail@) == views(q.runs_detail@)
}

/// The runs of a history have one report.
pub proof fn a_history_has_one_report(r: HistoryReport, q: HistoryReport, runs: Seq<RunModel>)
    requires
        r.tells(runs),
        q.tells(runs),
    ensures
        same_figures(r, q),
{
    let items = all_items(runs);
    sorting_has_one_result(
        groups_seen(items, Group::every()),
        views(r.by_group@),
        views(q.by_group@),
        |a: GroupStatsModel, b: GroupStatsModel| group_le(a, b),
    );
    sorting_has_one_result(
        triggers_seen(runs, every_trigger()),
        views(r.by_trigger@),
        views(q.by_trigger@),
        |a: TriggerStatsModel, b: TriggerStatsModel| trigger_le(a, b),
    );
    sorting_has_one_result(
        summaries_of(runs),
        views(r.runs_detail@),
        views(q.runs_detail@),
        |a: RunSummaryModel, b: RunSummaryModel| summary_le(a, b),
    );
    lemma_first_in_order_once(
        reclaims_of(items),
        |a: TopItemModel, b: TopItemModel| top_le(a, b),
        TOP_ITEMS_LIMIT as nat,
        views(r.top_items@),
        views(q.top_items@),
    );
    lemma_first_in_order_once(
        failures_of(items),
        |a: FailureModel, b: FailureModel| failure_le(a, b),
        FAILURES_LIMIT as nat,
        views(r.failures@),
        views(q.failures@),
    );
}

proof fn lemma_first_in_order_once<A>(
    all: Seq<A>,
    le: spec_fn(A, A) -> bool,
    limit: nat,
    a: Seq<A>,
    b: Seq<A>,
)
    requires
        first_in_order(all, le, limit, a),
        first_in_order(all, le, limit, b),
    ensures
        a == b,
{
    let x = choose|sorted: Seq<A>| #[trigger]
        stably_sorted(all, sorted, le) && a == capped(sorted, limit);
    let y = choose|sorted: Seq<A>| #[trigger]
        stably_sorted(all, sorted, le) && b == capped(sorted, limit);
    sorting_has_one_result(all, x, y, le);
}

/// A report does not depend on the order the records come in, where no two runs started at the
/// same moment.
pub proof fn reports_ignore_the_order(
    a: Seq<RunModel>,
    b: Seq<RunModel>,
    sorted_a: Seq<RunModel>,
    sorted_b: Seq<RunModel>,
    r: HistoryReport,
    q: HistoryReport,
)
    requires
        a.to_multiset() == b.to_multiset(),
        started_apart(a),
        chronological(a, sorted_a),
        chronological(b, sorted_b),
        r.tells(sorted_a),
        q.tells(sorted_b),
    ensures
        same_figures(r, q),
{
    lemma_permuted_apart(a, b);
    lemma_strictly_later(a, sorted_a);
    lemma_strictly_later(b, sorted_b);
    lemma_one_chronology(sorted_a, sorted_b);
    a_history_has_one_report(r, q, sorted_a);
}

/// The lifetime figures are sums over the runs: of two histories the sum, and of one run what it
/// freed and trashed unless it was dry, and what it found.
pub proof fn lifetime_figures_add_up(a: Seq<RunModel>, b: Seq<RunModel>, run: RunModel)
    ensures
        real_freed(a + b) == real_freed(a) + real_freed(b),
        real_trashed(a + b) == real_trashed(a) + real_trashed(b),
        candidates_total(a + b) == candidates_total(a) + candidates_total(b),
        dry_run_count(a + b) == dry_run_count(a) + dry_run_count(b),
        run.dry_run ==> real_freed(seq![run]) == 0 && real_trashed(seq![run]) == 0 && dry_run_count(
            seq![run],
        ) == 1,
        !run.dry_run ==> real_freed(seq![run]) == freed_by(run.items) && real_trashed(seq![run])
            == trashed_by(run.items) && dry_run_count(seq![run]) == 0,
        candidates_total(seq![run]) == run.candidates_found,
        real_freed(Seq::empty()) == 0 && real_trashed(Seq::empty()) == 0 && candidates_total(
            Seq::empty(),
        ) == 0,
    decreases b.len(),
{
    let one = seq![run];
    assert(one.drop_last() =~= Seq::empty());
    assert(one.last() == run && one.len() == 1);
    assert(real_freed(one.drop_last()) == 0 && real_trashed(one.drop_last()) == 0);
    assert(candidates_total(one.drop_last()) == 0 && dry_run_count(one.drop_last()) == 0);
    if b.len() > 0 {
        lifetime_figures_add_up(a, b.drop_last(), run);
        assert((a + b).drop_last() =~= a + b.drop_last());
    } else {
        assert(a + b =~= a);
    }
}

/// The timeline has a point for every run that was not dry, in order: what it freed and trashed, and
/// what all runs up to it freed.
pub proof fn every_real_run_is_on_the_timeline(runs: Seq<RunModel>)
    ensures
        timeline_of(runs) == numbers_where(runs.len(), |i: int| !runs[i].dry_run).map_values(
            |i: int|
                TimelineModel {
                    started_at: runs[i].started_at,
                    freed: freed_by(runs[i].items),
                    trashed: trashed_by(runs[i].items),
                    cumulative_freed: real_freed(runs.take(i + 1)),
                },
        ),
{
    lemma_timeline(runs, runs.len());
    assert(runs.take(runs.len() as int) =~= runs);
}

proof fn lemma_timeline(runs: Seq<RunModel>, n: nat)
    requires
        n <= runs.len(),
    ensures
        timeline_of(runs.take(n as int)) == numbers_where(
            n,
            |i: int| !runs[i].dry_run,
        ).map_values(
            |i: int|
                TimelineModel {
                    started_at: runs[i].started_at,
                    freed: freed_by(runs[i].items),
                    trashed: trashed_by(runs[i].items),
                    cumulative_freed: real_freed(runs.take(i + 1)),
                },
        ),
    decreases n,
{
    let counts = |i: int| !runs[i].dry_run;
    let point = |i: int|
        TimelineModel {
            started_at: runs[i].started_at,
            freed: freed_by(runs[i].items),
            trashed: trashed_by(runs[i].items),
            cumulative_freed: real_freed(runs.take(i + 1)),
        };
    if n > 0 {
        let m = (n - 1) as nat;
        lemma_timeline(runs, m);
        lemma_numbers_step(m, counts);
        assert(runs.take(n as int).drop_last() =~= runs.take(m as int));
        assert(runs.take(n as int).last() == runs[m as int]);
        let before = numbers_where(m, counts);
        assert(before.push(m as int).map_values(point) =~= before.map_values(point).push(
            point(m as int),
        ));
    } else {
        lemma_numbers_step(0, counts);
        assert(numbers_where(0, counts).map_values(point) =~= Seq::empty());
    }
}

/// The items of a history are those of its runs, one run after the other, each with the start of
/// its run.
pub proof fn every_item_stands_in_the_history(a: Seq<RunModel>, b: Seq<RunModel>, run: RunModel)
    ensures
        all_items(a + b) == all_items(a) + all_items(b),
        all_items(seq![run]).len() == run.items.len(),
        forall|i: int|
            0 <= i < run.items.len() ==> (#[trigger] all_items(seq![run])[i]).item == run.items[i]
                && all_items(seq![run])[i].started_at == run.started_at && all_items(
                seq![run],
            )[i].dry_run == run.dry_run,
    decreases b.len(),
{
    let one = seq![run];
    assert(one.drop_last() =~= Seq::empty());
    assert(one.last() == run);
    assert(all_items(one.drop_last()) + items_of(run) =~= items_of(run));
    if b.len() > 0 {
        every_item_stands_in_the_history(a, b.drop_last(), run);
        assert((a + b).drop_last() =~= a + b.drop_last());
        assert(all_items(a) + all_items(b.drop_last()) + items_of(b.last()) =~= all_items(a) + (
        all_items(b.drop_last()) + items_of(b.last())));
    } else {
        assert(a + b =~= a);
        assert(all_items(a) + all_items(b) =~= all_items(a));
    }
}

/// The failures are the failed items, each with its own reason, and the reclaims are the items of
/// real runs that returned space.
pub proof fn failures_and_reclaims_are_told_apart(items: Seq<HistoryItem>)
    ensures
        failures_of(items) == items.filter(
            |i: HistoryItem| i.item.disposition == Disposition::Failed,
        ).map_values(
            |i: HistoryItem|
                FailureModel {
                    started_at: i.started_at,
                    label: i.item.label,
                    provider: i.item.provider,
                    error: if i.item.error is Some {
                        i.item.error->0
                    } else {
                        "unknown error"@
                    },
                },
        ),
        reclaims_of(items) == items.filter(
            |i: HistoryItem|
                !i.dry_run && i.item.freed_bytes > 0 && (i.item.disposition == Disposition::Purged
                    || i.item.disposition == Disposition::CommandRun),
        ).map_values(
            |i: HistoryItem|
                TopItemModel {
                    label: i.item.label,
                    group: i.item.group,
                    tier: i.item.tier,
                    bytes: i.item.freed_bytes,
                    started_at: i.started_at,
                },
        ),
    decreases items.len(),
{
    let fails = |i: HistoryItem| i.item.disposition == Disposition::Failed;
    let failure = |i: HistoryItem|
        FailureModel {
            started_at: i.started_at,
            label: i.item.label,
            provider: i.item.provider,
            error: if i.item.error is Some {
                i.item.error->0
            } else {
                "unknown error"@
            },
        };
    let frees = |i: HistoryItem|
        !i.dry_run && i.item.freed_bytes > 0 && (i.item.disposition == Disposition::Purged
            || i.item.disposition == Disposition::CommandRun);
    let reclaim = |i: HistoryItem|
        TopItemModel {
            label: i.item.label,
            group: i.item.group,
            tier: i.item.tier,
            bytes: i.item.freed_bytes,
            started_at: i.started_at,
        };
    reveal(Seq::filter);
    if items.len() > 0 {
        let fewer = items.drop_last();
        let last = items.last();
        failures_and_reclaims_are_told_apart(fewer);
        let a = fewer.filter(fails);
        let b = fewer.filter(frees);
        assert(a.push(last).map_values(failure) =~= a.map_values(failure).push(failure(last)));
        assert(b.push(last).map_values(reclaim) =~= b.map_values(reclaim).push(reclaim(last)));
    } else {
        assert(items.filter(fails).map_values(failure) =~= Seq::empty());
        assert(items.filter(frees).map_values(reclaim) =~= Seq::empty());
    }
}

/// The figures of a group are sums over its items that did not fail and credit anything: what was
/// purged or cleaned by a command is freed, what was trashed is trashed.
pub proof fn group_figures_add_up(
    a: Seq<HistoryItem>,
    b: Seq<HistoryItem>,
    i: HistoryItem,
    group: Group,
)
    ensures
        group_freed(a + b, group) == group_freed(a, group) + group_freed(b, group),
        group_trashed(a + b, group) == group_trashed(a, group) + group_trashed(b, group),
        group_items(a + b, group) == group_items(a, group) + group_items(b, group),
        i.item.group != group || i.item.disposition == Disposition::Failed || i.item.freed_bytes
            == 0 ==> group_freed(seq![i], group) == 0 && group_trashed(seq![i], group) == 0
            && group_items(seq![i], group) == 0,
        i.item.group == group && i.item.disposition != Disposition::Failed && i.item.freed_bytes
            > 0 ==> {
            &&& group_items(seq![i], group) == 1
            &&& group_freed(seq![i], group) == if i.item.disposition == Disposition::Purged
                || i.item.disposition == Disposition::CommandRun {
                i.item.freed_bytes as nat
            } else {
                0
            }
            &&& group_trashed(seq![i], group) == if i.item.disposition == Disposition::Trashed {
                i.item.freed_bytes as nat
            } else {
                0
            }
        },
{
    lemma_group_concat(a, b, group);
    let one = seq![i];
    assert(one.drop_last() =~= Seq::empty());
    assert(one.last() == i && one.len() == 1);
    assert(group_freed(one.drop_last(), group) == 0 && group_trashed(one.drop_last(), group) == 0);
    assert(group_items(one.drop_last(), group) == 0);
}

/// The figures of a trigger are sums over the runs that it started.
pub proof fn trigger_figures_add_up(
    a: Seq<RunModel>,
    b: Seq<RunModel>,
    run: RunModel,
    trigger: Trigger,
)
    ensures
        trigger_runs(a + b, trigger) == trigger_runs(a, trigger) + trigger_runs(b, trigger),
        trigger_freed(a + b, trigger) == trigger_freed(a, trigger) + trigger_freed(b, trigger),
        run.trigger == trigger ==> trigger_runs(seq![run], trigger) == 1 && trigger_freed(
            seq![run],
            trigger,
        ) == freed_by(run.items),
        run.trigger != trigger ==> trigger_runs(seq![run], trigger) == 0 && trigger_freed(
            seq![run],
            trigger,
        ) == 0,
    decreases b.len(),
{
    let one = seq![run];
    assert(one.drop_last() =~= Seq::empty());
    assert(one.last() == run && one.len() == 1);
    assert(trigger_runs(one.drop_last(), trigger) == 0);
    assert(trigger_freed(one.drop_last(), trigger) == 0);
    if b.len() > 0 {
        trigger_figures_add_up(a, b.drop_last(), run, trigger);
        assert((a + b).drop_last() =~= a + b.drop_last());
    } else {
        assert(a + b =~= a);
    }
}

proof fn lemma_groups_seen(items: Seq<HistoryItem>, groups: Seq<Group>)
    ensures
        groups_seen(items, groups) == groups.filter(
            |g: Group| group_items(items, g) > 0,
        ).map_values(|g: Group| group_stats(items, g)),
    decreases groups.len(),
{
    let seen = |g: Group| group_items(items, g) > 0;
    let stats = |g: Group| group_stats(items, g);
    reveal(Seq::filter);
    if groups.len() > 0 {
        let fewer = groups.drop_last();
        lemma_groups_seen(items, fewer);
        let before = fewer.filter(seen);
        assert(before.push(groups.last()).map_values(stats) =~= before.map_values(stats).push(
            stats(groups.last()),
        ));
    } else {
        assert(groups.filter(seen).map_values(stats) =~= Seq::empty());
    }
}

proof fn lemma_triggers_seen(runs: Seq<RunModel>, triggers: Seq<Trigger>)
    ensures
        triggers_seen(runs, triggers) == triggers.filter(
            |t: Trigger| trigger_runs(runs, t) > 0,
        ).map_values(
            |t: Trigger|
                TriggerStatsModel {
                    trigger: t,
                    label: t.name(),
                    runs: trigger_runs(runs, t),
                    freed: trigger_freed(runs, t),
                },
        ),
    decreases triggers.len(),
{
    let seen = |t: Trigger| trigger_runs(runs, t) > 0;
    let stats = |t: Trigger|
        TriggerStatsModel {
            trigger: t,
            label: t.name(),
            runs: trigger_runs(runs, t),
            freed: trigger_freed(runs, t),
        };
    reveal(Seq::filter);
    if triggers.len() > 0 {
        let fewer = triggers.drop_last();
        lemma_triggers_seen(runs, fewer);
        let before = fewer.filter(seen);
        assert(before.push(triggers.last()).map_values(stats) =~= before.map_values(stats).push(
            stats(triggers.last()),
        ));
    } else {
        assert(triggers.filter(seen).map_values(stats) =~= Seq::empty());
    }
}

/// A report counts the runs of its history and tells its lifetime figures.
pub proof fn a_report_counts_its_runs(r: HistoryReport, runs: Seq<RunModel>)
    requires
        r.tells(runs),
    ensures
        r.runs == runs.len(),
        r.dry_runs == runs.filter(|run: RunModel| run.dry_run).len(),
        r.real_runs == runs.filter(|run: RunModel| !run.dry_run).len(),
        r.lifetime_freed == real_freed(runs),
        r.lifetime_trashed == real_trashed(runs),
        r.lifetime_candidates_found == candidates_total(runs),
        r.failed_items == all_items(runs).filter(
            |i: HistoryItem| i.item.disposition == Disposition::Failed,
        ).len(),
        views(r.timeline@) == timeline_of(runs),
{
    lemma_dry_runs_counted(runs);
    failures_and_reclaims_are_told_apart(all_items(runs));
}

proof fn lemma_dry_runs_counted(runs: Seq<RunModel>)
    ensures
        dry_run_count(runs) == runs.filter(|run: RunModel| run.dry_run).len(),
        runs.len() - dry_run_count(runs) == runs.filter(|run: RunModel| !run.dry_run).len(),
    decreases runs.len(),
{
    reveal(Seq::filter);
    if runs.len() > 0 {
        lemma_dry_runs_counted(runs.drop_last());
    }
}

/// A report lists the groups that something was credited to, the largest first, and the triggers
/// that started a run, the most used first: each with its figures, none left out and none added.
pub proof fn a_report_ranks_groups_and_triggers(r: HistoryReport, runs: Seq<RunModel>)
    requires
        r.tells(runs),
    ensures
        views(r.by_group@).to_multiset() == Group::every().filter(
            |g: Group| group_items(all_items(runs), g) > 0,
        ).map_values(
            |g: Group|
                GroupStatsModel {
                    group: g,
                    title: g.heading(),
                    freed: group_freed(all_items(runs), g),
                    trashed: group_trashed(all_items(runs), g),
                    items: group_items(all_items(runs), g),
                },
        ).to_multiset(),
        forall|i: int, j: int|
            0 <= i < j < r.by_group@.len() ==> (#[trigger] r.by_group@[i]).freed
                + r.by_group@[i].trashed >= (#[trigger] r.by_group@[j]).freed
                + r.by_group@[j].trashed,
        views(r.by_trigger@).to_multiset() == seq![
            Trigger::Tui,
            Trigger::Cli,
            Trigger::Web,
            Trigger::Scheduled,
        ].filter(|t: Trigger| trigger_runs(runs, t) > 0).map_values(
            |t: Trigger|
                TriggerStatsModel {
                    trigger: t,
                    label: t.name(),
                    runs: trigger_runs(runs, t),
                    freed: trigger_freed(runs, t),
                },
        ).to_multiset(),
        forall|i: int, j: int|
            0 <= i < j < r.by_trigger@.len() ==> (#[trigger] r.by_trigger@[i]).runs >= (
            #[trigger] r.by_trigger@[j]).runs,
{
    let items = all_items(runs);
    let by_group = |a: GroupStatsModel, b: GroupStatsModel| group_le(a, b);
    let by_trigger = |a: TriggerStatsModel, b: TriggerStatsModel| trigger_le(a, b);
    let groups = groups_seen(items, Group::every());
    let triggers = triggers_seen(runs, every_trigger());
    lemma_groups_seen(items, Group::every());
    lemma_triggers_seen(runs, every_trigger());
    let seen = |g: Group| group_items(items, g) > 0;
    assert(Group::every().filter(seen).map_values(|g: Group| group_stats(items, g))
        =~= Group::every().filter(seen).map_values(
        |g: Group|
            GroupStatsModel {
                group: g,
                title: g.heading(),
                freed: group_freed(items, g),
                trashed: group_trashed(items, g),
                items: group_items(items, g),
            },
    ));
    sorting_keeps_every_item(groups, views(r.by_group@), by_group);
    sorting_keeps_every_item(triggers, views(r.by_trigger@), by_trigger);
    lemma_sorted_pairs(groups, views(r.by_group@), by_group);
    lemma_sorted_pairs(triggers, views(r.by_trigger@), by_trigger);
    assert forall|i: int, j: int| 0 <= i < j < r.by_group@.len() implies (
    #[trigger] r.by_group@[i]).freed + r.by_group@[i].trashed >= (#[trigger] r.by_group@[j]).freed
        + r.by_group@[j].trashed by {
        assert(by_group(views(r.by_group@)[i], views(r.by_group@)[j]));
    }
    assert forall|i: int, j: int| 0 <= i < j < r.by_trigger@.len() implies (
    #[trigger] r.by_trigger@[i]).runs >= (#[trigger] r.by_trigger@[j]).runs by {
        assert(by_trigger(views(r.by_trigger@)[i], views(r.by_trigger@)[j]));
    }
}

proof fn lemma_first_in_order<A>(
    all: Seq<A>,
    le: spec_fn(A, A) -> bool,
    limit: nat,
    shown: Seq<A>,
)
    requires
        first_in_order(all, le, limit, shown),
    ensures
        shown.len() == if all.len() <= limit {
            all.len()
        } else {
            limit
        },
        forall|i: int, j: int|
            0 <= i < j < shown.len() ==> le(#[trigger] shown[i], #[trigger] shown[j]),
        shown.to_multiset().subset_of(all.to_multiset()),
        forall|x: A, i: int|
            0 <= i < shown.len() && #[trigger] all.to_multiset().count(x)
                > shown.to_multiset().count(x) ==> le(#[trigger] shown[i], x),
{
    let sorted = choose|sorted: Seq<A>| #[trigger]
        stably_sorted(all, sorted, le) && shown == capped(sorted, limit);
    sorting_keeps_every_item(all, sorted, le);
    lemma_sorted_pairs(all, sorted, le);
    all.to_multiset_ensures();
    sorted.to_multiset_ensures();
    if sorted.len() > limit {
        let rest = sorted.skip(limit as int);
        assert(sorted =~= shown + rest);
        lemma_multiset_commutative(shown, rest);
        rest.to_multiset_ensures();
        assert forall|x: A, i: int|
            0 <= i < shown.len() && #[trigger] all.to_multiset().count(x)
                > shown.to_multiset().count(x) implies le(#[trigger] shown[i], x) by {
            assert(rest.to_multiset().count(x) > 0);
            assert(rest.contains(x));
            let k = choose|k: int| 0 <= k < rest.len() && rest[k] == x;
            assert(le(sorted[i], sorted[limit + k]));
        }
    }
}

/// A report shows the fifteen largest reclaims, the largest first, and the twenty-five latest
/// failures, the latest first: what it leaves out is no larger and no later.
pub proof fn a_report_shows_the_largest_and_the_latest(r: HistoryReport, runs: Seq<RunModel>)
    requires
        r.tells(runs),
    ensures
        ({
            let all = reclaims_of(all_items(runs));
            let shown = views(r.top_items@);
            &&& shown.len() == if all.len() <= 15 {
                all.len()
            } else {
                15nat
            }
            &&& forall|i: int, j: int|
                0 <= i < j < shown.len() ==> (#[trigger] shown[i]).bytes >= (
                #[trigger] shown[j]).bytes
            &&& shown.to_multiset().subset_of(all.to_multiset())
            &&& forall|x: TopItemModel, i: int|
                0 <= i < shown.len() && #[trigger] all.to_multiset().count(x)
                    > shown.to_multiset().count(x) ==> (#[trigger] shown[i]).bytes >= x.bytes
        }),
        ({
            let all = failures_of(all_items(runs));
            let shown = views(r.failures@);
            &&& shown.len() == if all.len() <= 25 {
                all.len()
            } else {
                25nat
            }
            &&& forall|i: int, j: int|
                0 <= i < j < shown.len() ==> (#[trigger] shown[i]).started_at >= (
                #[trigger] shown[j]).started_at
            &&& shown.to_multiset().subset_of(all.to_multiset())
            &&& forall|x: FailureModel, i: int|
                0 <= i < shown.len() && #[trigger] all.to_multiset().count(x)
                    > shown.to_multiset().count(x) ==> (#[trigger] shown[i]).started_at
                    >= x.started_at
        }),
{
    let items = all_items(runs);
    let larger = |a: TopItemModel, b: TopItemModel| top_le(a, b);
    let later = |a: FailureModel, b: FailureModel| failure_le(a, b);
    let top = views(r.top_items@);
    let failures = views(r.failures@);
    lemma_first_in_order(reclaims_of(items), larger, TOP_ITEMS_LIMIT as nat, top);
    lemma_first_in_order(failures_of(items), later, FAILURES_LIMIT as nat, failures);
    assert forall|i: int, j: int| 0 <= i < j < top.len() implies (#[trigger] top[i]).bytes >= (
    #[trigger] top[j]).bytes by {
        assert(larger(top[i], top[j]));
    }
    assert forall|i: int, j: int| 0 <= i < j < failures.len() implies (
    #[trigger] failures[i]).started_at >= (#[trigger] failures[j]).started_at by {
        assert(later(failures[i], failures[j]));
    }
    assert forall|x: TopItemModel, i: int|
        0 <= i < top.len() && #[trigger] reclaims_of(items).to_multiset().count(x)
            > top.to_multiset().count(x) implies (#[trigger] top[i]).bytes >= x.bytes by {
        assert(larger(top[i], x));
    }
    assert forall|x: FailureModel, i: int|
        0 <= i < failures.len() && #[trigger] failures_of(items).to_multiset().count(x)
            > failures.to_multiset().count(x) implies (#[trigger] failures[i]).started_at
        >= x.started_at by {
        assert(later(failures[i], x));
    }
}

/// A report sums up every run, the latest first.
pub proof fn a_report_sums_up_every_run(r: HistoryReport, runs: Seq<RunModel>)
    requires
        r.tells(runs),
    ensures
        views(r.runs_detail@).to_multiset() == runs.map_values(
            |run: RunModel|
                RunSummaryModel {
                    id: run.id,
                    started_at: run.started_at,
                    trigger: run.trigger,
                    dry_run: run.dry_run,
                    candidates_found: run.candidates_found,
                    freed: freed_by(run.items),
                    trashed: trashed_by(run.items),
                    items: run.items.len(),
                    failures: run.items.filter(
                        |item: OutcomeModel| item.disposition == Disposition::Failed,
                    ).len(),
                    succeeded: forall|i: int|
                        0 <= i < run.items.len() ==> (#[trigger] run.items[i]).disposition
                            != Disposition::Failed,
                },
        ).to_multiset(),
        forall|i: int, j: int|
            0 <= i < j < r.runs_detail@.len() ==> (#[trigger] r.runs_detail@[i]).started_at >= (
            #[trigger] r.runs_detail@[j]).started_at,
{
    let later = |a: RunSummaryModel, b: RunSummaryModel| summary_le(a, b);
    let all = summaries_of(runs);
    let shown = views(r.runs_detail@);
    sorting_keeps_every_item(all, shown, later);
    lemma_sorted_pairs(all, shown, later);
    let summary = |run: RunModel|
        RunSummaryModel {
            id: run.id,
            started_at: run.started_at,
            trigger: run.trigger,
            dry_run: run.dry_run,
            candidates_found: run.candidates_found,
            freed: freed_by(run.items),
            trashed: trashed_by(run.items),
            items: run.items.len(),
            failures: run.items.filter(
                |item: OutcomeModel| item.disposition == Disposition::Failed,
            ).len(),
            succeeded: forall|i: int|
                0 <= i < run.items.len() ==> (#[trigger] run.items[i]).disposition
                    != Disposition::Failed,
        };
    assert forall|k: int| 0 <= k < runs.len() implies #[trigger] all[k] == summary(runs[k]) by {
        let fails = |item: OutcomeModel| item.disposition == Disposition::Failed;
        let items = runs[k].items;
        every_failed_item_is_a_failure(items);
        if items.filter(fails).len() == 0 {
            assert forall|i: int| 0 <= i < items.len() implies (#[trigger] items[i]).disposition
                != Disposition::Failed by {
                if fails(items[i]) {
                    items.lemma_filter_contains(fails, i);
                    assert(items.filter(fails).contains(items[i]));
                }
            }
        } else {
            items.lemma_filter_pred(fails, 0);
            lemma_filtered_from(items, fails, 0);
            let i = choose|i: int| 0 <= i < items.len() && items[i] == items.filter(fails)[0];
            assert(items[i].disposition == Disposition::Failed);
        }
    }
    assert(all =~= runs.map_values(summary));
    assert forall|i: int, j: int| 0 <= i < j < r.runs_detail@.len() implies (
    #[trigger] r.runs_detail@[i]).started_at >= (#[trigger] r.runs_detail@[j]).started_at by {
        assert(later(shown[i], shown[j]));
    }
}

} // verus!
