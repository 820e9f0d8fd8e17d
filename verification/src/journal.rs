//! Run history: what each run did, and the files that hold it.
//!
//! Records are one file per run, so that a crash while writing can only
//! corrupt the run that was in flight.
use vstd::prelude::*;
use vstd::string::*;
use vstd::seq_lib::lemma_multiset_commutative;
use crate::VERSION;
use crate::discovery::{sort_texts, text_sorted};
use crate::disk::{in_text_order, lemma_text_order_exists};
use crate::format::{bytes, bytes_spec};
use crate::model::{CandidateId, Group, Moment, Tier, elapsed_seconds, seconds_between};
use crate::number::{lemma_ten_to_pos, ten_to};
use crate::path::{extension, extension_of, join, join_path, lemma_extension};
use crate::sort::{
    arranged, is_stable_order, lemma_sorted_pairs, sorting_keeps_every_item, stably_sorted,
};
use crate::text::{
    Dup, decimal, decimal_text, digit, dup_all, dup_option, has_part, has_prefix, has_suffix,
    lemma_part_of_itself, lemma_part_of_sum, lemma_piece_chars, lemma_zero_padded_digits,
    option_text, pieces, repeated, same, split_text, text_le, views, zero_padded,
    zero_padded_text,
};

verus! {

broadcast use crate::text::lemma_views_push;

/// How a run was started.
#[derive(Debug, Clone, Copy, PartialEq, Eq, PartialOrd, Ord, Structural)]
pub enum Trigger {
    /// Interactive terminal UI.
    Tui,
    /// Non-interactive command line.
    Cli,
    /// The local web UI.
    Web,
    /// A background timer.
    Scheduled,
}

impl Trigger {
    pub open spec fn name(self) -> Seq<char> {
        match self {
            Trigger::Tui => "tui"@,
            Trigger::Cli => "cli"@,
            Trigger::Web => "web"@,
            Trigger::Scheduled => "scheduled"@,
        }
    }

    pub open spec fn index(self) -> int {
        match self {
            Trigger::Tui => 0,
            Trigger::Cli => 1,
            Trigger::Web => 2,
            Trigger::Scheduled => 3,
        }
    }

    /// How the trigger is named in listings.
    pub fn label(self) -> (s: &'static str)
        ensures
            s@ == self.name(),
    {
        match self {
            Trigger::Tui => "tui",
            Trigger::Cli => "cli",
            Trigger::Web => "web",
            Trigger::Scheduled => "scheduled",
        }
    }
}

/// What became of one candidate.
#[derive(Debug, Clone, Copy, PartialEq, Eq, Structural)]
pub enum Disposition {
    /// Permanently removed.
    Purged,
    /// Moved to the trash; space is not freed until it is emptied.
    Trashed,
    /// Reclaimed by an external command.
    CommandRun,
    /// Reported only; nothing was touched.
    DryRun,
    /// Refused by the guard or failed on the filesystem.
    Failed,
    /// Already gone.
    Skipped,
}

impl Disposition {
    pub open spec fn frees(self) -> bool {
        self == Disposition::Purged || self == Disposition::CommandRun
    }

    /// Whether this outcome returned space to the filesystem now. The trash does not.
    pub fn frees_space_immediately(self) -> (r: bool)
        ensures
            r == self.frees(),
    {
        match self {
            Disposition::Purged => true,
            Disposition::CommandRun => true,
            _ => false,
        }
    }
}

/// What happened to one candidate in a run.
#[derive(Debug, Clone, PartialEq)]
pub struct ItemOutcome {
    pub id: CandidateId,
    pub provider: String,
    pub group: Group,
    pub label: String,
    pub tier: Tier,
    pub paths: Vec<String>,
    /// Bytes expected from the scan.
    pub expected_bytes: u64,
    /// Bytes actually freed.
    pub freed_bytes: u64,
    pub disposition: Disposition,
    pub error: Option<String>,
}

pub struct OutcomeModel {
    pub id: Seq<char>,
    pub provider: Seq<char>,
    pub group: Group,
    pub label: Seq<char>,
    pub tier: Tier,
    pub paths: Seq<Seq<char>>,
    pub expected_bytes: u64,
    pub freed_bytes: u64,
    pub disposition: Disposition,
    pub error: Option<Seq<char>>,
}

impl View for ItemOutcome {
    type V = OutcomeModel;

    open spec fn view(&self) -> OutcomeModel {
        OutcomeModel {
            id: self.id@,
            provider: self.provider@,
            group: self.group,
            label: self.label@,
            tier: self.tier,
            paths: views(self.paths@),
            expected_bytes: self.expected_bytes,
            freed_bytes: self.freed_bytes,
            disposition: self.disposition,
            error: option_text(self.error),
        }
    }
}

impl Dup for ItemOutcome {
    fn dup(&self) -> (copy: Self) {
        ItemOutcome {
            id: self.id.dup(),
            provider: self.provider.clone(),
            group: self.group,
            label: self.label.clone(),
            tier: self.tier,
            paths: dup_all(&self.paths),
            expected_bytes: self.expected_bytes,
            freed_bytes: self.freed_bytes,
            disposition: self.disposition,
            error: dup_option(&self.error),
        }
    }
}

/// One complete run.
#[derive(Debug, Clone, PartialEq)]
pub struct RunRecord {
    pub id: String,
    pub started_at: Moment,
    pub finished_at: Moment,
    pub trigger: Trigger,
    pub dry_run: bool,
    /// Every candidate the scan offered, whether or not it was chosen.
    pub candidates_found: usize,
    pub bytes_found: u64,
    pub items: Vec<ItemOutcome>,
    /// Version of the program that made the record.
    pub version: String,
}

pub struct RunModel {
    pub id: Seq<char>,
    pub started_at: Moment,
    pub finished_at: Moment,
    pub trigger: Trigger,
    pub dry_run: bool,
    pub candidates_found: usize,
    pub bytes_found: u64,
    pub items: Seq<OutcomeModel>,
    pub version: Seq<char>,
}

impl View for RunRecord {
    type V = RunModel;

    open spec fn view(&self) -> RunModel {
        RunModel {
            id: self.id@,
            started_at: self.started_at,
            finished_at: self.finished_at,
            trigger: self.trigger,
            dry_run: self.dry_run,
            candidates_found: self.candidates_found,
            bytes_found: self.bytes_found,
            items: views(self.items@),
            version: self.version@,
        }
    }
}

impl Dup for RunRecord {
    fn dup(&self) -> (copy: Self) {
        RunRecord {
            id: self.id.clone(),
            started_at: self.started_at,
            finished_at: self.finished_at,
            trigger: self.trigger,
            dry_run: self.dry_run,
            candidates_found: self.candidates_found,
            bytes_found: self.bytes_found,
            items: dup_all(&self.items),
            version: self.version.clone(),
        }
    }
}

pub open spec fn is_lower_hex(c: char) -> bool {
    '0' <= c <= '9' || 'a' <= c <= 'f'
}

/// The shape of a random identifier in its usual spelling: 32 hexadecimal digits in groups of
/// 8, 4, 4, 4 and 12, of version 4.
pub open spec fn is_random_id(s: Seq<char>) -> bool {
    &&& s.len() == 36
    &&& forall|i: int|
        0 <= i < 36 ==> (if i == 8 || i == 13 || i == 18 || i == 23 {
            #[trigger] s[i] == '-'
        } else {
            is_lower_hex(s[i])
        })
    &&& s[14] == '4'
    &&& s[19] == '8' || s[19] == '9' || s[19] == 'a' || s[19] == 'b'
}

/// `uuid::Uuid::new_v4` draws a random identifier. The contract states the shape of its text
/// and nothing of its digits, which are left to chance.
#[verifier::external_body]
fn random_id() -> (id: String)
    ensures
        is_random_id(id@),
{
    uuid::Uuid::new_v4().to_string()
}

/// The version stamped into records.
pub open spec fn program_version() -> Seq<char> {
    VERSION@
}

/// Bytes returned to the filesystem by these items.
pub open spec fn freed_by(items: Seq<OutcomeModel>) -> nat
    decreases items.len(),
{
    if items.len() == 0 {
        0
    } else {
        freed_by(items.drop_last()) + if items.last().disposition.frees() {
            items.last().freed_bytes as nat
        } else {
            0
        }
    }
}

/// Bytes moved to the trash by these items.
pub open spec fn trashed_by(items: Seq<OutcomeModel>) -> nat
    decreases items.len(),
{
    if items.len() == 0 {
        0
    } else {
        trashed_by(items.drop_last()) + if items.last().disposition == Disposition::Trashed {
            items.last().freed_bytes as nat
        } else {
            0
        }
    }
}

/// Bytes these items were expected to free.
pub open spec fn expected_of(items: Seq<OutcomeModel>) -> nat
    decreases items.len(),
{
    if items.len() == 0 {
        0
    } else {
        expected_of(items.drop_last()) + items.last().expected_bytes as nat
    }
}

/// Bytes credited to these items, whatever became of them.
pub open spec fn credited_to(items: Seq<OutcomeModel>) -> nat
    decreases items.len(),
{
    if items.len() == 0 {
        0
    } else {
        credited_to(items.drop_last()) + items.last().freed_bytes as nat
    }
}

/// The items that failed, in order.
pub open spec fn failed_items(items: Seq<OutcomeModel>) -> Seq<OutcomeModel>
    decreases items.len(),
{
    if items.len() == 0 {
        Seq::empty()
    } else if items.last().disposition == Disposition::Failed {
        failed_items(items.drop_last()).push(items.last())
    } else {
        failed_items(items.drop_last())
    }
}

impl RunModel {
    /// What was freed and what was trashed each fit in 64 bits.
    pub open spec fn bytes_fit(self) -> bool {
        freed_by(self.items) <= u64::MAX && trashed_by(self.items) <= u64::MAX
    }

    /// The sums that the one-line summary shows fit in 64 bits.
    pub open spec fn line_fits(self) -> bool {
        if self.dry_run {
            expected_of(self.items) <= u64::MAX
        } else {
            self.bytes_fit()
        }
    }

    /// All the sums that are formed of a run fit in 64 bits.
    pub open spec fn sums_fit(self) -> bool {
        self.bytes_fit() && self.line_fits()
    }

    /// The one-line summary of a run.
    pub open spec fn line(self) -> Seq<char> {
        let failures = failed_items(self.items).len();
        let trashed = trashed_by(self.items);
        if self.dry_run {
            "dry run: "@ + decimal(self.items.len()) + " items, "@ + bytes_spec(
                expected_of(self.items),
            ) + " would be freed"@
        } else {
            "freed "@ + bytes_spec(freed_by(self.items)) + (if trashed > 0 {
                ", "@ + bytes_spec(trashed) + " moved to Trash"@
            } else {
                Seq::empty()
            }) + (if failures > 0 {
                ", "@ + decimal(failures) + " failed"@
            } else {
                Seq::empty()
            })
        }
    }
}

/// Freed and trashed bytes are parts of what was credited.
pub proof fn lemma_sums(items: Seq<OutcomeModel>)
    ensures
        freed_by(items) + trashed_by(items) <= credited_to(items),
        failed_items(items).len() <= items.len(),
    decreases items.len(),
{
    if items.len() > 0 {
        lemma_sums(items.drop_last());
    }
}

/// The sums of the first items are no more than those of all.
pub proof fn lemma_sums_grow(items: Seq<OutcomeModel>, i: int)
    requires
        0 <= i <= items.len(),
    ensures
        freed_by(items.take(i)) <= freed_by(items),
        trashed_by(items.take(i)) <= trashed_by(items),
        expected_of(items.take(i)) <= expected_of(items),
        credited_to(items.take(i)) <= credited_to(items),
    decreases items.len() - i,
{
    if i == items.len() {
        assert(items.take(i) =~= items);
    } else {
        assert(items.drop_last().take(i) =~= items.take(i));
        lemma_sums_grow(items.drop_last(), i);
    }
}

impl RunRecord {
    /// A record of a run that starts now, with a fresh identifier.
    pub fn new(trigger: Trigger, dry_run: bool, now: Moment) -> (r: Self)
        ensures
            is_random_id(r@.id),
            r@ == (RunModel { id: r@.id, ..started(trigger, dry_run, now) }),
    {
        Self::with_id(random_id(), trigger, dry_run, now)
    }

    /// A record of a run that starts now.
    pub fn with_id(id: String, trigger: Trigger, dry_run: bool, now: Moment) -> (r: Self)
        ensures
            r@ == (RunModel { id: id@, ..started(trigger, dry_run, now) }),
    {
        let r = RunRecord {
            id,
            started_at: now,
            finished_at: now,
            trigger,
            dry_run,
            candidates_found: 0,
            bytes_found: 0,
            items: Vec::new(),
            version: VERSION.to_owned(),
        };
        assert(r@.items =~= Seq::empty());
        r
    }

    /// Whether what was freed and what was trashed each fit in 64 bits.
    pub fn bytes_fit(&self) -> (r: bool)
        ensures
            r == self@.bytes_fit(),
    {
        let ghost all = self@.items;
        let mut freed: u128 = 0;
        let mut trashed: u128 = 0;
        let mut i: usize = 0;
        let limit: u128 = u64::MAX as u128;
        assert(all.take(0) =~= Seq::empty());
        while i < self.items.len()
            invariant
                i <= self.items@.len(),
                all == views(self.items@),
                all == self@.items,
                limit == u64::MAX,
                freed == freed_by(all.take(i as int)),
                trashed == trashed_by(all.take(i as int)),
                freed <= limit,
                trashed <= limit,
            decreases self.items@.len() - i,
        {
            assert(all.take(i + 1).drop_last() =~= all.take(i as int));
            assert(all.take(i + 1).last() == self.items@[i as int]@);
            let item = &self.items[i];
            if item.disposition.frees_space_immediately() {
                freed = freed + item.freed_bytes as u128;
            }
            if item.disposition == Disposition::Trashed {
                trashed = trashed + item.freed_bytes as u128;
            }
            i += 1;
            if freed > limit || trashed > limit {
                proof {
                    lemma_sums_grow(all, i as int);
                }
                return false;
            }
        }
        assert(all.take(all.len() as int) =~= all);
        true
    }

    fn expected_fits(&self) -> (r: bool)
        ensures
            r == (expected_of(self@.items) <= u64::MAX),
    {
        let ghost all = self@.items;
        let mut expected: u128 = 0;
        let mut i: usize = 0;
        let limit: u128 = u64::MAX as u128;
        assert(all.take(0) =~= Seq::empty());
        while i < self.items.len()
            invariant
                i <= self.items@.len(),
                all == views(self.items@),
                all == self@.items,
                limit == u64::MAX,
                expected == expected_of(all.take(i as int)),
                expected <= limit,
            decreases self.items@.len() - i,
        {
            assert(all.take(i + 1).drop_last() =~= all.take(i as int));
            assert(all.take(i + 1).last() == self.items@[i as int]@);
            expected = expected + self.items[i].expected_bytes as u128;
            i += 1;
            if expected > limit {
                proof {
                    lemma_sums_grow(all, i as int);
                }
                return false;
            }
        }
        assert(all.take(all.len() as int) =~= all);
        true
    }

    /// Whether all the sums that are formed of a run fit in 64 bits.
    pub fn sums_fit(&self) -> (r: bool)
        ensures
            r == self@.sums_fit(),
    {
        self.bytes_fit() && (!self.dry_run || self.expected_fits())
    }

    /// Bytes genuinely returned to the filesystem by this run.
    pub fn bytes_freed(&self) -> (n: u64)
        requires
            freed_by(self@.items) <= u64::MAX,
        ensures
            n == freed_by(self@.items),
    {
        let ghost all = self@.items;
        let mut n: u64 = 0;
        let mut i: usize = 0;
        assert(all.take(0) =~= Seq::empty());
        while i < self.items.len()
            invariant
                i <= self.items@.len(),
                all == views(self.items@),
                n == freed_by(all.take(i as int)),
                freed_by(all) <= u64::MAX,
            decreases self.items@.len() - i,
        {
            proof {
                assert(all.take(i + 1).drop_last() =~= all.take(i as int));
                assert(all.take(i + 1).last() == self.items@[i as int]@);
                lemma_sums_grow(all, i + 1);
            }
            if self.items[i].disposition.frees_space_immediately() {
                n = n + self.items[i].freed_bytes;
            }
            i += 1;
        }
        assert(all.take(all.len() as int) =~= all);
        n
    }

    /// Bytes moved to the trash: recoverable, and not yet part of the free space.
    pub fn bytes_trashed(&self) -> (n: u64)
        requires
            trashed_by(self@.items) <= u64::MAX,
        ensures
            n == trashed_by(self@.items),
    {
        let ghost all = self@.items;
        let mut n: u64 = 0;
        let mut i: usize = 0;
        assert(all.take(0) =~= Seq::empty());
        while i < self.items.len()
            invariant
                i <= self.items@.len(),
                all == views(self.items@),
                n == trashed_by(all.take(i as int)),
                trashed_by(all) <= u64::MAX,
            decreases self.items@.len() - i,
        {
            proof {
                assert(all.take(i + 1).drop_last() =~= all.take(i as int));
                assert(all.take(i + 1).last() == self.items@[i as int]@);
                lemma_sums_grow(all, i + 1);
            }
            if self.items[i].disposition == Disposition::Trashed {
                n = n + self.items[i].freed_bytes;
            }
            i += 1;
        }
        assert(all.take(all.len() as int) =~= all);
        n
    }

    /// The items that failed.
    pub fn failures(&self) -> (out: Vec<&ItemOutcome>)
        ensures
            views(out@) == failed_items(self@.items),
    {
        let ghost all = self@.items;
        let mut out: Vec<&ItemOutcome> = Vec::new();
        let mut i: usize = 0;
        assert(views(out@) =~= failed_items(all.take(0)));
        while i < self.items.len()
            invariant
                i <= self.items@.len(),
                all == views(self.items@),
                views(out@) == failed_items(all.take(i as int)),
            decreases self.items@.len() - i,
        {
            assert(all.take(i + 1).drop_last() =~= all.take(i as int));
            assert(all.take(i + 1).last() == self.items@[i as int]@);
            if self.items[i].disposition == Disposition::Failed {
                out.push(&self.items[i]);
            }
            i += 1;
        }
        assert(all.take(all.len() as int) =~= all);
        out
    }

    pub fn succeeded(&self) -> (r: bool)
        ensures
            r == (failed_items(self@.items).len() == 0),
    {
        let failed = self.failures();
        assert(views(failed@).len() == failed@.len());
        failed.len() == 0
    }

    fn expected(&self) -> (n: u64)
        requires
            expected_of(self@.items) <= u64::MAX,
        ensures
            n == expected_of(self@.items),
    {
        let ghost all = self@.items;
        let mut n: u64 = 0;
        let mut i: usize = 0;
        assert(all.take(0) =~= Seq::empty());
        while i < self.items.len()
            invariant
                i <= self.items@.len(),
                all == views(self.items@),
                n == expected_of(all.take(i as int)),
                expected_of(all) <= u64::MAX,
            decreases self.items@.len() - i,
        {
            proof {
                assert(all.take(i + 1).drop_last() =~= all.take(i as int));
                assert(all.take(i + 1).last() == self.items@[i as int]@);
                lemma_sums_grow(all, i + 1);
            }
            n = n + self.items[i].expected_bytes;
            i += 1;
        }
        assert(all.take(all.len() as int) =~= all);
        n
    }

    /// One-line summary for notifications and the end of a run.
    pub fn summary(&self) -> (s: String)
        requires
            self@.line_fits(),
        ensures
            s@ == self@.line(),
    {
        if self.dry_run {
            return "dry run: ".to_owned().concat(
                decimal_text(self.items.len() as u128).as_str(),
            ).concat(" items, ").concat(bytes(self.expected()).as_str()).concat(" would be freed");
        }
        let mut line = "freed ".to_owned().concat(bytes(self.bytes_freed()).as_str());
        let trashed: u64 = self.bytes_trashed();
        let more = if trashed > 0 {
            ", ".to_owned().concat(bytes(trashed).as_str()).concat(" moved to Trash")
        } else {
            String::new()
        };
        line.append(more.as_str());
        let failed = self.failures();
        assert(views(failed@).len() == failed@.len());
        let failures: usize = failed.len();
        let rest = if failures > 0 {
            ", ".to_owned().concat(decimal_text(failures as u128).as_str()).concat(" failed")
        } else {
            String::new()
        };
        line.append(rest.as_str());
        line
    }
}

/// A record of a run that just starts, without its identifier.
pub open spec fn started(trigger: Trigger, dry_run: bool, now: Moment) -> RunModel {
    RunModel {
        id: Seq::empty(),
        started_at: now,
        finished_at: now,
        trigger,
        dry_run,
        candidates_found: 0,
        bytes_found: 0,
        items: Seq::empty(),
        version: program_version(),
    }
}

/// Store of run records, one file each.
#[derive(Debug, Clone, PartialEq, Eq)]
pub struct Journal {
    dir: String,
}

impl View for Journal {
    type V = Seq<char>;

    closed spec fn view(&self) -> Seq<char> {
        self.dir@
    }
}

/// Whole seconds from the epoch to a moment, none before it, at most `u64::MAX`.
pub open spec fn stamp_of(started_at: Moment) -> nat {
    if elapsed_seconds(0, started_at) <= u64::MAX {
        elapsed_seconds(0, started_at)
    } else {
        u64::MAX as nat
    }
}

/// The name of a record's file: the second it started in, in twelve digits at least, and the
/// first group of its identifier.
pub open spec fn record_name(r: RunModel) -> Seq<char> {
    zero_padded(stamp_of(r.started_at), 12) + "-"@ + pieces(r.id, '-')[0] + ".json"@
}

/// The names of record files.
pub open spec fn record_files(names: Seq<Seq<char>>) -> Seq<Seq<char>>
    decreases names.len(),
{
    if names.len() == 0 {
        Seq::empty()
    } else if extension(names.last()) == Some("json"@) {
        record_files(names.drop_last()).push(names.last())
    } else {
        record_files(names.drop_last())
    }
}

/// The first `limit` records that could be read.
pub open spec fn first_readable(found: Seq<Option<RunModel>>, limit: nat) -> Seq<RunModel>
    decreases found.len(),
{
    if found.len() == 0 {
        Seq::empty()
    } else {
        let before = first_readable(found.drop_last(), limit);
        match found.last() {
            Some(r) => if before.len() < limit {
                before.push(r)
            } else {
                before
            },
            None => before,
        }
    }
}

pub open spec fn option_run(r: Option<RunRecord>) -> Option<RunModel> {
    match r {
        Some(r) => Some(r@),
        None => None,
    }
}

pub open spec fn option_runs(found: Seq<Option<RunRecord>>) -> Seq<Option<RunModel>> {
    Seq::new(found.len(), |i: int| option_run(found[i]))
}

impl Journal {
    pub fn new(dir: &str) -> (j: Self)
        ensures
            j@ == dir@,
    {
        Journal { dir: dir.to_owned() }
    }

    pub fn dir(&self) -> (p: &str)
        ensures
            p@ == self@,
    {
        self.dir.as_str()
    }

    /// Where to write a record. Names sort chronologically, so that reading can rely on them.
    pub fn write(&self, record: &RunRecord) -> (path: String)
        ensures
            path@ == join(self@, record_name(record@)),
    {
        let stamp: u64 = seconds_between(0, record.started_at);
        let groups = split_text(record.id.as_str(), '-');
        proof {
            lemma_pieces_nonempty(record.id@, '-');
            assert(views(groups@)[0] == groups@[0]@);
        }
        let name = zero_padded_text(stamp, 12).concat("-").concat(groups[0].as_str()).concat(
            ".json",
        );
        join_path(self.dir.as_str(), name.as_str())
    }

    fn record_files(names: &Vec<String>) -> (out: Vec<String>)
        ensures
            views(out@) == record_files(views(names@)),
    {
        let ghost all = views(names@);
        let mut out: Vec<String> = Vec::new();
        let mut i: usize = 0;
        assert(views(out@) =~= record_files(all.take(0)));
        while i < names.len()
            invariant
                i <= names@.len(),
                all == views(names@),
                views(out@) == record_files(all.take(i as int)),
            decreases names@.len() - i,
        {
            assert(all.take(i + 1).drop_last() =~= all.take(i as int));
            assert(all.take(i + 1).last() == names@[i as int]@);
            let is_record = match extension_of(names[i].as_str()) {
                Some(ext) => same(ext.as_str(), "json"),
                None => false,
            };
            if is_record {
                out.push(names[i].clone());
            }
            i += 1;
        }
        assert(all.take(all.len() as int) =~= all);
        out
    }

    /// The record files among the names in the journal directory, newest first.
    pub fn newest_first(&self, names: &Vec<String>) -> (out: Vec<String>)
        ensures
            views(out@) == text_sorted(record_files(views(names@))).reverse(),
    {
        let sorted = sort_texts(&Self::record_files(names));
        let ghost all = views(sorted@);
        let mut out: Vec<String> = Vec::new();
        let mut i: usize = sorted.len();
        assert(views(out@) =~= all.skip(all.len() as int).reverse());
        while i > 0
            invariant
                i <= sorted@.len(),
                all == views(sorted@),
                views(out@) == all.skip(i as int).reverse(),
            decreases i,
        {
            i -= 1;
            out.push(sorted[i].clone());
            assert(all.skip(i as int).reverse() =~= all.skip(i + 1).reverse().push(all[i as int]));
        }
        assert(all.skip(0) =~= all);
        out
    }

    /// The most recent runs. What was found is given newest first; files that could not be
    /// read or hold no record are `None`, and are passed over.
    pub fn read_recent(&self, found: &Vec<Option<RunRecord>>, limit: usize) -> (out: Vec<RunRecord>)
        ensures
            views(out@) == first_readable(option_runs(found@), limit as nat),
    {
        let ghost all = option_runs(found@);
        let mut out: Vec<RunRecord> = Vec::new();
        let mut i: usize = 0;
        assert(views(out@) =~= first_readable(all.take(0), limit as nat));
        while i < found.len()
            invariant
                i <= found@.len(),
                all == option_runs(found@),
                views(out@) == first_readable(all.take(i as int), limit as nat),
            decreases found@.len() - i,
        {
            assert(all.take(i + 1).drop_last() =~= all.take(i as int));
            assert(all.take(i + 1).last() == option_run(found@[i as int]));
            assert(views(out@).len() == out@.len());
            match &found[i] {
                Some(r) => {
                    if out.len() < limit {
                        out.push(r.dup());
                    }
                },
                None => {},
            }
            i += 1;
        }
        assert(all.take(all.len() as int) =~= all);
        out
    }

    /// The most recent run.
    pub fn last(&self, found: &Vec<Option<RunRecord>>) -> (r: Option<RunRecord>)
        ensures
            match r {
                Some(record) => first_readable(option_runs(found@), 1).len() > 0 && record@
                    == first_readable(option_runs(found@), 1)[0],
                None => first_readable(option_runs(found@), 1).len() == 0,
            },
    {
        let recent = self.read_recent(found, 1);
        assert(views(recent@).len() == recent@.len());
        if recent.len() == 0 {
            None
        } else {
            assert(views(recent@)[0] == recent@[0]@);
            Some(recent[0].dup())
        }
    }

    /// The record files to delete so that the newest `keep` of them stay.
    pub fn prune(&self, names: &Vec<String>, keep: usize) -> (doomed: Vec<String>)
        ensures
            ({
                let files = text_sorted(record_files(views(names@)));
                views(doomed@) == if files.len() <= keep {
                    Seq::empty()
                } else {
                    files.take(files.len() - keep)
                }
            }),
    {
        let sorted = sort_texts(&Self::record_files(names));
        let ghost all = views(sorted@);
        let mut doomed: Vec<String> = Vec::new();
        if sorted.len() <= keep {
            assert(views(doomed@) =~= Seq::empty());
            return doomed;
        }
        let count: usize = sorted.len() - keep;
        let mut i: usize = 0;
        assert(views(doomed@) =~= all.take(0));
        while i < count
            invariant
                i <= count <= sorted@.len(),
                all == views(sorted@),
                views(doomed@) == all.take(i as int),
            decreases count - i,
        {
            doomed.push(sorted[i].clone());
            i += 1;
            assert(all.take(i as int) =~= all.take(i - 1).push(all[i - 1]));
        }
        doomed
    }
}

proof fn lemma_pieces_nonempty(s: Seq<char>, separator: char)
    ensures
        pieces(s, separator).len() > 0,
    decreases s.len(),
{
    if s.len() > 0 {
        lemma_pieces_nonempty(s.drop_last(), separator);
    }
}

/// Bytes in the trash are never reported as freed: the two sums count different items, and
/// neither counts a dry run, a failure or an item that was gone.
pub proof fn trashed_bytes_are_not_freed_bytes(items: Seq<OutcomeModel>)
    ensures
        freed_by(items) + trashed_by(items) <= credited_to(items),
        (forall|i: int|
            0 <= i < items.len() ==> !(#[trigger] items[i]).disposition.frees()) ==> freed_by(items)
            == 0,
    decreases items.len(),
{
    lemma_sums(items);
    if items.len() > 0 {
        trashed_bytes_are_not_freed_bytes(items.drop_last());
        if forall|i: int| 0 <= i < items.len() ==> !(#[trigger] items[i]).disposition.frees() {
            assert(!items[items.len() - 1].disposition.frees());
            assert forall|i: int| 0 <= i < items.drop_last().len() implies !(
            #[trigger] items.drop_last()[i]).disposition.frees() by {
                assert(items.drop_last()[i] == items[i]);
            }
        }
    }
}

/// What pruning leaves is the newest: every name it drops sorts before every name it keeps.
pub proof fn pruning_drops_the_oldest(names: Seq<Seq<char>>, keep: nat, i: int, j: int)
    requires
        keep < text_sorted(record_files(names)).len(),
        0 <= i < text_sorted(record_files(names)).len() - keep <= j < text_sorted(
            record_files(names),
        ).len(),
    ensures
        text_le(text_sorted(record_files(names))[i], text_sorted(record_files(names))[j]),
{
    let le = |a: Seq<char>, b: Seq<char>| text_le(a, b);
    let sorted = text_sorted(record_files(names));
    let witness = lemma_text_order_exists(record_files(names));
    assert(in_text_order(record_files(names), witness));
    lemma_sorted_pairs(record_files(names), sorted, le);
    assert(le(sorted[i], sorted[j]));
}

/// The digits of `n` in `width` places.
spec fn places(n: nat, width: nat) -> Seq<char>
    decreases width,
{
    if width == 0 {
        Seq::empty()
    } else {
        places(n / 10, (width - 1) as nat).push(digit((n % 10) as int))
    }
}

proof fn lemma_places(n: nat, width: nat)
    requires
        n < ten_to(width),
        width > 0,
    ensures
        zero_padded(n, width) == places(n, width),
        decimal(n).len() <= width,
        places(n, width).len() == width,
    decreases width,
{
    let w = (width - 1) as nat;
    if n < 10 {
        lemma_ten_to_pos(w);
        assert(n / 10 == 0 && n % 10 == n);
        lemma_places_zero(w);
        assert(decimal(n) =~= seq![digit(n as int)]);
        assert(places(n, width) =~= repeated('0', w) + seq![digit(n as int)]);
        if width == 1 {
            assert(repeated('0', w) + seq![digit(n as int)] =~= seq![digit(n as int)]);
        }
    } else {
        assert(w > 0) by {
            reveal_with_fuel(ten_to, 2);
        }
        assert(n / 10 < ten_to(w));
        lemma_places(n / 10, w);
        let head = decimal(n / 10);
        let last = digit((n % 10) as int);
        assert(decimal(n) == head.push(last));
        if head.len() < w {
            let zeros = (w - head.len()) as nat;
            assert(zero_padded(n / 10, w) == repeated('0', zeros) + head);
            assert(zero_padded(n, width) == repeated('0', zeros) + decimal(n));
            assert(repeated('0', zeros) + head.push(last) =~= (repeated('0', zeros) + head).push(
                last,
            ));
        }
    }
}

proof fn lemma_places_zero(width: nat)
    ensures
        places(0, width) =~= repeated('0', width),
    decreases width,
{
    if width > 0 {
        lemma_places_zero((width - 1) as nat);
    }
}

proof fn lemma_places_order(a: nat, b: nat, width: nat, x: Seq<char>, y: Seq<char>)
    requires
        a < b < ten_to(width),
    ensures
        text_le(places(a, width) + x, places(b, width) + y),
    decreases width,
{
    if width > 0 {
        let w = (width - 1) as nat;
        let (p, q) = (a / 10, b / 10);
        let dx = seq![digit((a % 10) as int)] + x;
        let dy = seq![digit((b % 10) as int)] + y;
        assert(places(a, width) + x =~= places(p, w) + dx);
        assert(places(b, width) + y =~= places(q, w) + dy);
        if p < q {
            lemma_places_order(p, q, w, dx, dy);
        } else {
            assert(p == q && a % 10 < b % 10);
            assert(text_le(dx, dy)) by {
                assert(dx[0] != dy[0] && dx[0] < dy[0]);
            }
            lemma_common_prefix(places(p, w), dx, dy);
        }
    }
}

proof fn lemma_common_prefix(prefix: Seq<char>, a: Seq<char>, b: Seq<char>)
    requires
        text_le(a, b),
    ensures
        text_le(prefix + a, prefix + b),
    decreases prefix.len(),
{
    if prefix.len() == 0 {
        assert(prefix + a =~= a);
        assert(prefix + b =~= b);
    } else {
        lemma_common_prefix(prefix.skip(1), a, b);
        assert((prefix + a).skip(1) =~= prefix.skip(1) + a);
        assert((prefix + b).skip(1) =~= prefix.skip(1) + b);
    }
}

/// Of two records the one that started in an earlier second has the name that sorts first,
/// up to the year 33658.
pub proof fn record_names_sort_chronologically(a: RunModel, b: RunModel)
    requires
        stamp_of(a.started_at) < stamp_of(b.started_at) < 1_000_000_000_000,
    ensures
        text_le(record_name(a), record_name(b)),
{
    let x = stamp_of(a.started_at);
    let y = stamp_of(b.started_at);
    assert(ten_to(12) == 1_000_000_000_000) by {
        reveal_with_fuel(ten_to, 13);
    }
    lemma_places(x, 12);
    lemma_places(y, 12);
    let rest_a = "-"@ + pieces(a.id, '-')[0] + ".json"@;
    let rest_b = "-"@ + pieces(b.id, '-')[0] + ".json"@;
    assert(record_name(a) =~= places(x, 12) + rest_a);
    assert(record_name(b) =~= places(y, 12) + rest_b);
    lemma_places_order(x, y, 12, rest_a, rest_b);
}

proof fn lemma_record_file(record: RunModel)
    requires
        !record.id.contains('/'),
    ensures
        extension(record_name(record)) == Some("json"@),
{
    reveal_strlit("json");
    reveal_strlit(".json");
    reveal_strlit("-");
    let stamp = zero_padded(stamp_of(record.started_at), 12);
    let group = pieces(record.id, '-')[0];
    let front = stamp + "-"@ + group;
    lemma_zero_padded_digits(stamp_of(record.started_at), 12);
    lemma_pieces_nonempty(record.id, '-');
    assert(!front.contains('/')) by {
        if front.contains('/') {
            let i = choose|i: int| 0 <= i < front.len() && front[i] == '/';
            if i > stamp.len() {
                lemma_piece_chars(record.id, '-', 0, i - stamp.len() - 1);
            }
        }
    }
    assert(record_name(record) =~= front + seq!['.'] + "json"@);
    lemma_extension(front, "json"@);
}

/// A record that is written into a journal without records is the last one there, and is what is
/// read as long as its file reads back as it. Before that there is none.
pub proof fn a_first_record_is_the_last_one_read(names: Seq<Seq<char>>, record: RunModel)
    requires
        record_files(names).len() == 0,
        !record.id.contains('/'),
    ensures
        text_sorted(record_files(names)).len() == 0,
        first_readable(Seq::empty(), 1).len() == 0,
        text_sorted(record_files(names.push(record_name(record)))).reverse() == seq![
            record_name(record),
        ],
        first_readable(seq![Some(record)], 1) == seq![record],
{
    let le = |a: Seq<char>, b: Seq<char>| text_le(a, b);
    let name = record_name(record);
    lemma_record_file(record);
    assert(names.push(name).drop_last() =~= names);
    assert(record_files(names.push(name)) =~= seq![name]);
    let none = lemma_text_order_exists(record_files(names));
    assert(in_text_order(record_files(names), none));
    let empty_order = choose|order: Seq<int>| #[trigger]
        is_stable_order(record_files(names), le, order) && text_sorted(record_files(names))
            == arranged(record_files(names), order);
    assert(stably_sorted(record_files(names), text_sorted(record_files(names)), le));
    let one = lemma_text_order_exists(seq![name]);
    assert(in_text_order(seq![name], one));
    let sorted = text_sorted(seq![name]);
    assert(stably_sorted(seq![name], sorted, le));
    let order = choose|order: Seq<int>| #[trigger]
        is_stable_order(seq![name], le, order) && sorted == arranged(seq![name], order);
    assert(order[0] == 0);
    assert(sorted =~= seq![name]);
    assert(sorted.reverse() =~= seq![name]);
    let found = seq![Some(record)];
    assert(found.drop_last() =~= Seq::empty());
    assert(first_readable(found.drop_last(), 1) =~= Seq::empty());
    assert(first_readable(found, 1) =~= seq![record]);
}

/// What a run freed is what its purged items and its commands freed, what it trashed is what its
/// trashed items held, and what it expected is what all of them were expected to free: item by
/// item, and the sum for two lists.
pub proof fn what_a_run_freed_adds_up(a: Seq<OutcomeModel>, b: Seq<OutcomeModel>, item: OutcomeModel)
    ensures
        freed_by(Seq::empty()) == 0 && trashed_by(Seq::empty()) == 0 && expected_of(Seq::empty())
            == 0,
        freed_by(seq![item]) == if item.disposition == Disposition::Purged || item.disposition
            == Disposition::CommandRun {
            item.freed_bytes as nat
        } else {
            0
        },
        trashed_by(seq![item]) == if item.disposition == Disposition::Trashed {
            item.freed_bytes as nat
        } else {
            0
        },
        expected_of(seq![item]) == item.expected_bytes,
        freed_by(a + b) == freed_by(a) + freed_by(b),
        trashed_by(a + b) == trashed_by(a) + trashed_by(b),
        expected_of(a + b) == expected_of(a) + expected_of(b),
    decreases b.len(),
{
    let one = seq![item];
    assert(one.drop_last() =~= Seq::empty());
    assert(one.last() == item && one.len() == 1);
    assert(freed_by(one.drop_last()) == 0 && trashed_by(one.drop_last()) == 0);
    assert(expected_of(one.drop_last()) == 0);
    if b.len() > 0 {
        what_a_run_freed_adds_up(a, b.drop_last(), item);
        assert((a + b).drop_last() =~= a + b.drop_last());
    } else {
        assert(a + b =~= a);
    }
}

/// The failures of a run are its failed items, in order.
pub proof fn every_failed_item_is_a_failure(items: Seq<OutcomeModel>)
    ensures
        failed_items(items) == items.filter(
            |item: OutcomeModel| item.disposition == Disposition::Failed,
        ),
    decreases items.len(),
{
    reveal(Seq::filter);
    if items.len() > 0 {
        every_failed_item_is_a_failure(items.drop_last());
    } else {
        assert(failed_items(items) =~= items);
    }
}

/// The summary of a run names what it freed, what it moved to the trash where that is anything, and
/// how many items failed where any did. That of a dry run names how many items it would take and
/// what they would free.
pub proof fn a_summary_names_what_came_of_it(run: RunModel)
    ensures
        run.dry_run ==> run.line() == "dry run: "@ + decimal(run.items.len()) + " items, "@
            + bytes_spec(expected_of(run.items)) + " would be freed"@,
        !run.dry_run ==> has_prefix(run.line(), "freed "@ + bytes_spec(freed_by(run.items))),
        !run.dry_run && trashed_by(run.items) > 0 ==> has_part(
            run.line(),
            bytes_spec(trashed_by(run.items)) + " moved to Trash"@,
        ),
        !run.dry_run && run.items.filter(
            |item: OutcomeModel| item.disposition == Disposition::Failed,
        ).len() > 0 ==> has_part(
            run.line(),
            decimal(
                run.items.filter(
                    |item: OutcomeModel| item.disposition == Disposition::Failed,
                ).len(),
            ) + " failed"@,
        ),
{
    every_failed_item_is_a_failure(run.items);
    if !run.dry_run {
        let freed = "freed "@ + bytes_spec(freed_by(run.items));
        let trash = bytes_spec(trashed_by(run.items)) + " moved to Trash"@;
        let failures = failed_items(run.items).len();
        let failed = decimal(failures) + " failed"@;
        let second = if trashed_by(run.items) > 0 {
            ", "@ + bytes_spec(trashed_by(run.items)) + " moved to Trash"@
        } else {
            Seq::empty()
        };
        let third = if failures > 0 {
            ", "@ + decimal(failures) + " failed"@
        } else {
            Seq::empty()
        };
        assert(run.line() == freed + second + third);
        assert(run.line().take(freed.len() as int) =~= freed);
        if trashed_by(run.items) > 0 {
            assert(second =~= ", "@ + trash);
            lemma_part_of_itself(trash);
            lemma_part_of_sum(", "@, trash, trash);
            lemma_part_of_sum(freed, second, trash);
            lemma_part_of_sum(freed + second, third, trash);
        }
        if failures > 0 {
            assert(third =~= ", "@ + failed);
            lemma_part_of_itself(failed);
            lemma_part_of_sum(", "@, failed, failed);
            lemma_part_of_sum(freed + second, third, failed);
        }
    }
}

/// The records of a journal are the files in it with the extension of one, the newest first: by
/// name, which sorts as the runs started.
pub proof fn every_record_is_listed_newest_first(names: Seq<Seq<char>>)
    ensures
        ({
            let listed = text_sorted(record_files(names)).reverse();
            &&& listed.to_multiset() == names.filter(
                |name: Seq<char>| extension(name) == Some("json"@),
            ).to_multiset()
            &&& forall|i: int, j: int|
                0 <= i < j < listed.len() ==> text_le(#[trigger] listed[j], #[trigger] listed[i])
        }),
{
    let files = record_files(names);
    lemma_record_files(names);
    let order = lemma_text_order_exists(files);
    assert(in_text_order(files, order));
    let sorted = text_sorted(files);
    assert(in_text_order(files, sorted));
    let le = |a: Seq<char>, b: Seq<char>| text_le(a, b);
    sorting_keeps_every_item(files, sorted, le);
    lemma_sorted_pairs(files, sorted, le);
    let listed = sorted.reverse();
    lemma_reverse_multiset(sorted);
    assert forall|i: int, j: int| 0 <= i < j < listed.len() implies text_le(
        #[trigger] listed[j],
        #[trigger] listed[i],
    ) by {
        assert(le(sorted[sorted.len() - 1 - j], sorted[sorted.len() - 1 - i]));
    }
}

proof fn lemma_reverse_multiset(s: Seq<Seq<char>>)
    ensures
        s.reverse().to_multiset() == s.to_multiset(),
    decreases s.len(),
{
    if s.len() > 0 {
        let fewer = s.drop_last();
        lemma_reverse_multiset(fewer);
        assert(s.reverse() =~= seq![s.last()] + fewer.reverse());
        assert(s =~= fewer + seq![s.last()]);
        lemma_multiset_commutative(seq![s.last()], fewer.reverse());
        lemma_multiset_commutative(fewer, seq![s.last()]);
    } else {
        assert(s.reverse() =~= s);
    }
}

proof fn lemma_record_files(names: Seq<Seq<char>>)
    ensures
        record_files(names) == names.filter(|name: Seq<char>| extension(name) == Some("json"@)),
    decreases names.len(),
{
    reveal(Seq::filter);
    if names.len() > 0 {
        lemma_record_files(names.drop_last());
    } else {
        assert(record_files(names) =~= names);
    }
}

/// Of the records that can be read the first ones are given, up to the limit: one that cannot be
/// read takes no place.
pub proof fn unreadable_records_take_no_place(found: Seq<Option<RunModel>>, limit: nat)
    ensures
        ({
            let readable = found.filter_map(|r: Option<RunModel>| r);
            first_readable(found, limit) == if readable.len() <= limit {
                readable
            } else {
                readable.take(limit as int)
            }
        }),
    decreases found.len(),
{
    let same = |r: Option<RunModel>| r;
    if found.len() > 0 {
        let fewer = found.drop_last();
        unreadable_records_take_no_place(fewer, limit);
        let before = fewer.filter_map(same);
        if let Some(r) = found.last() {
            assert(before + seq![r] =~= before.push(r));
            if before.len() < limit {
                assert(first_readable(found, limit) =~= before.push(r));
            } else {
                assert(before.push(r).take(limit as int) =~= before.take(limit as int));
                assert(before.take(before.len() as int) =~= before);
            }
        }
    } else {
        assert(first_readable(found, limit) =~= found.filter_map(same));
    }
}

/// A run starts out with what is known of it: no item yet, and over as soon as it began.
pub proof fn a_run_starts_empty(trigger: Trigger, dry_run: bool, now: Moment)
    ensures
        started(trigger, dry_run, now).trigger == trigger,
        started(trigger, dry_run, now).dry_run == dry_run,
        started(trigger, dry_run, now).started_at == now,
        started(trigger, dry_run, now).finished_at == now,
        started(trigger, dry_run, now).items.len() == 0,
        started(trigger, dry_run, now).candidates_found == 0,
        started(trigger, dry_run, now).bytes_found == 0,
        started(trigger, dry_run, now).version == VERSION@,
{
}

/// The name of a record tells the second in which it started, the first group of its identifier,
/// and that it is a record.
pub proof fn a_record_is_named_by_its_start(r: RunModel, secs: nat)
    requires
        secs <= u64::MAX,
        secs * 1_000_000_000 <= r.started_at < (secs + 1) * 1_000_000_000,
    ensures
        has_prefix(record_name(r), zero_padded(secs, 12) + "-"@ + pieces(r.id, '-')[0]),
        has_suffix(record_name(r), ".json"@),
{
    assert(r.started_at == 0 ==> secs == 0);
    assert(elapsed_seconds(0, r.started_at) == secs);
    let front = zero_padded(secs, 12) + "-"@ + pieces(r.id, '-')[0];
    let name = record_name(r);
    assert(name.take(front.len() as int) =~= front);
    assert(name.skip(name.len() - ".json"@.len()) =~= ".json"@);
}

} // verus!
