//! Deciding what to remove, and recording what came of it.
//!
//! 1. Every path is judged by [`PathGuard`] on facts taken right before removal.
//! 2. A dry run never orders anything destructive.
//! 3. Failures are recorded per item and never stop the rest.
//! 4. Freed bytes are credited only to what returned space to the filesystem;
//!    trashed bytes are reported apart.
use vstd::prelude::*;
use vstd::string::*;
use crate::config::DeleteMode;
use crate::error::{Error, ErrorModel};
use crate::journal::{
    Disposition, ItemOutcome, OutcomeModel, RunModel, RunRecord, Trigger, freed_by, is_random_id,
    started, trashed_by,
};
use crate::model::{Action, ActionModel, Candidate, CandidateId, CandidateModel, Moment, Tier};
use crate::safety::{
    FactsModel, GuardModel, PathFacts, PathGuard, batches_are_judged_path_by_path,
};
use crate::sort::{lemma_numbers_step, numbers_where};
use crate::staleness::{total_freed, total_reclaimable};
use crate::text::{
    Dup, chars_of, dup_all, has_part, join_text, joined, lemma_part_of_itself, lemma_part_of_sum,
    a_separator_cuts_a_text_in_two, pieces, pieces_join_to_the_text, slice_text, split_text, views,
};

verus! {

broadcast use crate::text::lemma_views_push;

/// Progress of a run, so that front-ends can show live status.
#[derive(Debug, Clone)]
pub enum CleanEvent {
    Started { total: usize, bytes: u64 },
    ItemStarted { id: CandidateId, label: String },
    ItemFinished(Box<ItemOutcome>),
    Finished(Box<RunRecord>),
}

pub enum CleanEventModel {
    Started { total: usize, bytes: u64 },
    ItemStarted { id: Seq<char>, label: Seq<char> },
    ItemFinished(OutcomeModel),
    Finished(RunModel),
}

impl View for CleanEvent {
    type V = CleanEventModel;

    open spec fn view(&self) -> CleanEventModel {
        match self {
            CleanEvent::Started { total, bytes } => CleanEventModel::Started {
                total: *total,
                bytes: *bytes,
            },
            CleanEvent::ItemStarted { id, label } => CleanEventModel::ItemStarted {
                id: id@,
                label: label@,
            },
            CleanEvent::ItemFinished(outcome) => CleanEventModel::ItemFinished(outcome@),
            CleanEvent::Finished(record) => CleanEventModel::Finished(record@),
        }
    }
}

/// What is told of the items of a run, one by one.
pub open spec fn items_told(items: Seq<OutcomeModel>) -> Seq<CleanEventModel>
    decreases items.len(),
{
    if items.len() == 0 {
        Seq::empty()
    } else {
        let last = items.last();
        items_told(items.drop_last()) + seq![
            CleanEventModel::ItemStarted { id: last.id, label: last.label },
            CleanEventModel::ItemFinished(last),
        ]
    }
}

/// What is told of a run.
pub open spec fn run_told(run: RunModel) -> Seq<CleanEventModel> {
    seq![CleanEventModel::Started { total: run.candidates_found, bytes: run.bytes_found }]
        + items_told(run.items) + seq![CleanEventModel::Finished(run)]
}

/// The progress of a run whose items are worked on one after the other.
pub fn events(record: &RunRecord) -> (out: Vec<CleanEvent>)
    ensures
        views(out@) == run_told(record@),
{
    let ghost items = views(record.items@);
    let ghost first = seq![
        CleanEventModel::Started { total: record.candidates_found, bytes: record.bytes_found },
    ];
    let mut out: Vec<CleanEvent> = Vec::new();
    out.push(CleanEvent::Started { total: record.candidates_found, bytes: record.bytes_found });
    assert(views(out@) =~= first + items_told(items.take(0)));
    let mut i: usize = 0;
    while i < record.items.len()
        invariant
            i <= record.items@.len(),
            items == views(record.items@),
            views(out@) == first + items_told(items.take(i as int)),
        decreases record.items@.len() - i,
    {
        let item = &record.items[i];
        proof {
            assert(items.take(i + 1).drop_last() =~= items.take(i as int));
            assert(items.take(i + 1).last() == item@);
        }
        out.push(CleanEvent::ItemStarted { id: item.id.dup(), label: item.label.clone() });
        out.push(CleanEvent::ItemFinished(Box::new(item.dup())));
        i += 1;
        assert(views(out@) =~= first + items_told(items.take(i as int)));
    }
    assert(items.take(items.len() as int) =~= items);
    out.push(CleanEvent::Finished(Box::new(record.dup())));
    assert(views(out@) =~= run_told(record@));
    out
}

/// A run is told from its start to its end, and each item starts right before it finishes.
pub proof fn every_item_is_told(run: RunModel, i: int)
    requires
        0 <= i < run.items.len(),
    ensures
        run_told(run).len() == 2 * run.items.len() + 2,
        run_told(run).first() == (CleanEventModel::Started {
            total: run.candidates_found,
            bytes: run.bytes_found,
        }),
        run_told(run).last() == CleanEventModel::Finished(run),
        run_told(run)[2 * i + 1] == (CleanEventModel::ItemStarted {
            id: run.items[i].id,
            label: run.items[i].label,
        }),
        run_told(run)[2 * i + 2] == CleanEventModel::ItemFinished(run.items[i]),
{
    lemma_item_told(run.items, i);
}

proof fn lemma_item_told(items: Seq<OutcomeModel>, i: int)
    requires
        0 <= i < items.len(),
    ensures
        items_told(items).len() == 2 * items.len(),
        items_told(items)[2 * i] == (CleanEventModel::ItemStarted {
            id: items[i].id,
            label: items[i].label,
        }),
        items_told(items)[2 * i + 1] == CleanEventModel::ItemFinished(items[i]),
    decreases items.len(),
{
    if items.len() == 1 {
        assert(items_told(items.drop_last()) =~= Seq::empty());
    } else if i < items.len() - 1 {
        lemma_item_told(items.drop_last(), i);
    } else {
        lemma_item_told(items.drop_last(), 0);
    }
}

/// How a clean run should behave.
#[derive(Debug, Clone, Copy, PartialEq, Eq, Structural)]
pub struct CleanOptions {
    pub dry_run: bool,
    pub mode: DeleteMode,
    pub trigger: Trigger,
    /// Parallel workers for removal.
    pub concurrency: usize,
}

impl Default for CleanOptions {
    /// Callers must opt in to deleting.
    fn default() -> (o: CleanOptions)
        ensures
            o == (CleanOptions {
                dry_run: true,
                mode: DeleteMode::Tiered,
                trigger: Trigger::Cli,
                concurrency: 4,
            }),
    {
        CleanOptions {
            dry_run: true,
            mode: DeleteMode::Tiered,
            trigger: Trigger::Cli,
            concurrency: 4,
        }
    }
}

/// What came of running a command.
#[derive(Debug, Clone, PartialEq, Eq)]
pub enum CommandReport {
    Succeeded,
    /// The command ran and failed, with what it wrote to its error stream.
    Failed { stderr: String },
    /// The command could not be started.
    NotStarted { error: String },
}

pub enum CommandModel {
    Succeeded,
    Failed { stderr: Seq<char> },
    NotStarted { error: Seq<char> },
}

impl View for CommandReport {
    type V = CommandModel;

    open spec fn view(&self) -> CommandModel {
        match self {
            CommandReport::Succeeded => CommandModel::Succeeded,
            CommandReport::Failed { stderr } => CommandModel::Failed { stderr: stderr@ },
            CommandReport::NotStarted { error } => CommandModel::NotStarted { error: error@ },
        }
    }
}

/// What is known of one candidate's work: the facts on its paths, the errors of removing
/// them, and what its command did.
#[derive(Debug, PartialEq)]
pub struct Work {
    pub facts: Vec<PathFacts>,
    pub errors: Vec<Error>,
    pub command: CommandReport,
}

pub struct WorkModel {
    pub facts: Seq<FactsModel>,
    pub errors: Seq<ErrorModel>,
    pub command: CommandModel,
}

impl View for Work {
    type V = WorkModel;

    open spec fn view(&self) -> WorkModel {
        WorkModel {
            facts: views(self.facts@),
            errors: views(self.errors@),
            command: self.command@,
        }
    }
}

/// The outcome before anything is known.
pub open spec fn untouched(c: CandidateModel) -> OutcomeModel {
    OutcomeModel {
        id: c.id,
        provider: c.provider,
        group: c.group,
        label: c.label,
        tier: c.tier,
        paths: c.paths,
        expected_bytes: c.freed() as u64,
        freed_bytes: 0,
        disposition: Disposition::Skipped,
        error: None,
    }
}

fn base_outcome(candidate: &Candidate) -> (o: ItemOutcome)
    ensures
        o@ == untouched(candidate@),
{
    ItemOutcome {
        id: candidate.id.dup(),
        provider: candidate.provider.clone(),
        group: candidate.group,
        label: candidate.label.clone(),
        tier: candidate.tier,
        paths: dup_all(&candidate.paths),
        expected_bytes: candidate.reclaimable(),
        freed_bytes: 0,
        disposition: Disposition::Skipped,
        error: None,
    }
}

/// The texts of errors.
pub open spec fn error_texts(errors: Seq<ErrorModel>) -> Seq<Seq<char>> {
    Seq::new(errors.len(), |i: int| errors[i].text())
}

fn join_errors(errors: &Vec<Error>) -> (s: String)
    ensures
        s@ == joined(error_texts(views(errors@)), "; "@),
{
    let mut texts: Vec<String> = Vec::new();
    let mut i: usize = 0;
    while i < errors.len()
        invariant
            i <= errors@.len(),
            texts@.len() == i,
            forall|k: int| 0 <= k < i ==> (#[trigger] texts@[k])@ == errors@[k]@.text(),
        decreases errors@.len() - i,
    {
        texts.push(errors[i].message());
        i += 1;
    }
    assert(views(texts@) =~= error_texts(views(errors@)));
    join_text(&texts, "; ")
}

/// What becomes of a candidate that is reclaimed by removing its paths.
///
/// The scan measured the paths as a set: its size is credited only when every path was
/// removed.
pub open spec fn removal_outcome(
    c: CandidateModel,
    guard: GuardModel,
    opts: CleanOptions,
    facts: Seq<FactsModel>,
    errors: Seq<ErrorModel>,
) -> OutcomeModel {
    let (valid, refusals) = guard.verdicts(c.paths, facts);
    if refusals.len() > 0 {
        OutcomeModel {
            disposition: Disposition::Failed,
            error: Some(joined(error_texts(refusals), "; "@)),
            ..untouched(c)
        }
    } else if valid.len() == 0 {
        untouched(c)
    } else if opts.dry_run {
        OutcomeModel { disposition: Disposition::DryRun, ..untouched(c) }
    } else if errors.len() == 0 {
        OutcomeModel {
            freed_bytes: c.freed() as u64,
            disposition: if opts.mode.trashes(c.tier) {
                Disposition::Trashed
            } else {
                Disposition::Purged
            },
            ..untouched(c)
        }
    } else {
        OutcomeModel {
            disposition: Disposition::Failed,
            error: Some(joined(error_texts(errors), "; "@)),
            ..untouched(c)
        }
    }
}

/// The first three lines of a text, as a command's error stream is quoted.
pub open spec fn first_lines(text: Seq<char>) -> Seq<char> {
    let lines = lines_of(text);
    joined(
        if lines.len() > 3 {
            lines.take(3)
        } else {
            lines
        },
        " "@,
    )
}

/// A line without the carriage return before its end.
pub open spec fn without_return(line: Seq<char>) -> Seq<char> {
    if line.len() > 0 && line.last() == '\r' {
        line.drop_last()
    } else {
        line
    }
}

/// The lines of a text. The end of the last line may be missing, and then nothing is stripped
/// of it.
pub open spec fn lines_of(text: Seq<char>) -> Seq<Seq<char>> {
    let parts = pieces(text, '\n');
    let ended = Seq::new((parts.len() - 1) as nat, |i: int| without_return(parts[i]));
    if parts.last().len() == 0 {
        ended
    } else {
        ended.push(parts.last())
    }
}

fn strip_return(line: &str) -> (out: String)
    ensures
        out@ == without_return(line@),
{
    let chars = chars_of(line);
    let n: usize = chars.len();
    if n > 0 && chars[n - 1] == '\r' {
        assert(chars@.subrange(0, n - 1) =~= line@.drop_last());
        slice_text(&chars, 0, n - 1)
    } else {
        line.to_owned()
    }
}

fn quote_lines(text: &str) -> (out: String)
    ensures
        out@ == first_lines(text@),
{
    let parts = split_text(text, '\n');
    let ghost all = lines_of(text@);
    let ghost cut = pieces(text@, '\n');
    proof {
        lemma_pieces_len(text@, '\n');
    }
    let mut lines: Vec<String> = Vec::new();
    let n: usize = parts.len();
    let mut i: usize = 0;
    assert(views(lines@) =~= all.take(0));
    while i < n && lines.len() < 3
        invariant
            i <= n == parts@.len(),
            n > 0,
            cut == views(parts@),
            cut == pieces(text@, '\n'),
            all == lines_of(text@),
            lines@.len() == i || (lines@.len() == n - 1 && i == n && cut.last().len() == 0),
            lines@.len() <= all.len(),
            views(lines@) == all.take(lines@.len() as int),
            lines@.len() <= 3,
        decreases n - i,
    {
        assert(cut[i as int] == parts@[i as int]@);
        if i < n - 1 {
            lines.push(strip_return(parts[i].as_str()));
            assert(all[i as int] == without_return(cut[i as int]));
            assert(all.take(i + 1) =~= all.take(i as int).push(all[i as int]));
        } else if !parts[i].as_str().is_empty() {
            lines.push(parts[i].clone());
            assert(all.take(i + 1) =~= all.take(i as int).push(all[i as int]));
        }
        i += 1;
    }
    proof {
        if lines@.len() < 3 {
            assert(lines@.len() == all.len());
            assert(all.take(all.len() as int) =~= all);
        } else if all.len() == 3 {
            assert(all.take(3) =~= all);
        }
    }
    join_text(&lines, " ")
}

proof fn lemma_pieces_len(s: Seq<char>, separator: char)
    ensures
        pieces(s, separator).len() > 0,
    decreases s.len(),
{
    if s.len() > 0 {
        lemma_pieces_len(s.drop_last(), separator);
    }
}

/// What becomes of a candidate that is reclaimed by a command. The command reports its own
/// totals, which nothing here can verify, so the scan's estimate is credited.
pub open spec fn command_outcome(
    c: CandidateModel,
    opts: CleanOptions,
    report: CommandModel,
) -> OutcomeModel {
    match c.action {
        ActionModel::RemovePaths => OutcomeModel {
            disposition: Disposition::Failed,
            error: Some("not a shell action"@),
            ..untouched(c)
        },
        ActionModel::Shell { program, args } => if opts.dry_run {
            OutcomeModel { disposition: Disposition::DryRun, ..untouched(c) }
        } else {
            match report {
                CommandModel::Succeeded => OutcomeModel {
                    disposition: Disposition::CommandRun,
                    freed_bytes: c.freed() as u64,
                    ..untouched(c)
                },
                CommandModel::Failed { stderr } => OutcomeModel {
                    disposition: Disposition::Failed,
                    error: Some(first_lines(stderr)),
                    ..untouched(c)
                },
                CommandModel::NotStarted { error } => OutcomeModel {
                    disposition: Disposition::Failed,
                    error: Some("could not run `"@ + program + "`: "@ + error),
                    ..untouched(c)
                },
            }
        },
    }
}

/// What is to be done for a candidate.
#[derive(Debug, Clone, PartialEq)]
pub enum Order {
    /// Nothing.
    Nothing,
    /// Remove these resolved paths.
    Remove { paths: Vec<String>, to_trash: bool },
    /// Run this command.
    Run { program: String, args: Vec<String> },
}

pub enum OrderModel {
    Nothing,
    Remove { paths: Seq<Seq<char>>, to_trash: bool },
    Run { program: Seq<char>, args: Seq<Seq<char>> },
}

impl View for Order {
    type V = OrderModel;

    open spec fn view(&self) -> OrderModel {
        match self {
            Order::Nothing => OrderModel::Nothing,
            Order::Remove { paths, to_trash } => OrderModel::Remove {
                paths: views(paths@),
                to_trash: *to_trash,
            },
            Order::Run { program, args } => OrderModel::Run {
                program: program@,
                args: views(args@),
            },
        }
    }
}

/// What is to be done for a candidate, on facts taken now. Nothing in a dry run; nothing at
/// all where one of its paths is refused.
pub open spec fn order_for(
    c: CandidateModel,
    guard: GuardModel,
    opts: CleanOptions,
    facts: Seq<FactsModel>,
) -> OrderModel {
    if opts.dry_run {
        OrderModel::Nothing
    } else {
        match c.action {
            ActionModel::Shell { program, args } => OrderModel::Run { program, args },
            ActionModel::RemovePaths => {
                let (valid, refusals) = guard.verdicts(c.paths, facts);
                if refusals.len() > 0 || valid.len() == 0 {
                    OrderModel::Nothing
                } else {
                    OrderModel::Remove { paths: valid, to_trash: opts.mode.trashes(c.tier) }
                }
            },
        }
    }
}

/// Decide what is to be done for a candidate.
pub fn order(
    candidate: &Candidate,
    guard: &PathGuard,
    opts: &CleanOptions,
    facts: &Vec<PathFacts>,
) -> (o: Order)
    requires
        facts@.len() == candidate.paths@.len(),
    ensures
        o@ == order_for(candidate@, guard@, *opts, views(facts@)),
{
    if opts.dry_run {
        return Order::Nothing;
    }
    match &candidate.action {
        Action::Shell { program, args } => Order::Run {
            program: program.clone(),
            args: dup_all(args),
        },
        Action::RemovePaths => {
            let (valid, refusals) = guard.check_all(&candidate.paths, facts);
            assert(views(valid@).len() == valid@.len());
            assert(views(refusals@).len() == refusals@.len());
            if refusals.len() > 0 || valid.len() == 0 {
                Order::Nothing
            } else {
                Order::Remove { paths: valid, to_trash: opts.mode.uses_trash(candidate.tier) }
            }
        },
    }
}

/// The outcome of a candidate whose paths were to be removed, given the errors of removing
/// them.
pub fn remove_paths(
    candidate: &Candidate,
    guard: &PathGuard,
    opts: &CleanOptions,
    facts: &Vec<PathFacts>,
    errors: &Vec<Error>,
) -> (o: ItemOutcome)
    requires
        facts@.len() == candidate.paths@.len(),
    ensures
        o@ == removal_outcome(candidate@, guard@, *opts, views(facts@), views(errors@)),
{
    let mut outcome = base_outcome(candidate);
    let (valid, refusals) = guard.check_all(&candidate.paths, facts);
    assert(views(valid@).len() == valid@.len());
    assert(views(refusals@).len() == refusals@.len());
    assert(views(errors@).len() == errors@.len());
    if refusals.len() > 0 {
        outcome.disposition = Disposition::Failed;
        outcome.error = Some(join_errors(&refusals));
        return outcome;
    }
    if valid.len() == 0 {
        return outcome;
    }
    if opts.dry_run {
        outcome.disposition = Disposition::DryRun;
        return outcome;
    }
    if errors.len() == 0 {
        outcome.freed_bytes = candidate.reclaimable();
        outcome.disposition = if opts.mode.uses_trash(candidate.tier) {
            Disposition::Trashed
        } else {
            Disposition::Purged
        };
    } else {
        outcome.error = Some(join_errors(errors));
        outcome.disposition = Disposition::Failed;
    }
    outcome
}

/// The outcome of a candidate that is reclaimed by a command, given what the command did.
pub fn run_command(candidate: &Candidate, opts: &CleanOptions, report: &CommandReport) -> (o:
    ItemOutcome)
    ensures
        o@ == command_outcome(candidate@, *opts, report@),
{
    let mut outcome = base_outcome(candidate);
    let program = match &candidate.action {
        Action::Shell { program, .. } => program,
        Action::RemovePaths => {
            outcome.disposition = Disposition::Failed;
            outcome.error = Some("not a shell action".to_owned());
            return outcome;
        },
    };
    if opts.dry_run {
        outcome.disposition = Disposition::DryRun;
        return outcome;
    }
    match report {
        CommandReport::Succeeded => {
            outcome.disposition = Disposition::CommandRun;
            outcome.freed_bytes = candidate.reclaimable();
        },
        CommandReport::Failed { stderr } => {
            outcome.disposition = Disposition::Failed;
            outcome.error = Some(quote_lines(stderr.as_str()));
        },
        CommandReport::NotStarted { error } => {
            outcome.disposition = Disposition::Failed;
            outcome.error = Some(
                "could not run `".to_owned().concat(program.as_str()).concat("`: ").concat(
                    error.as_str(),
                ),
            );
        },
    }
    outcome
}

/// The outcomes of the candidates whose paths are removed, in order.
pub open spec fn removal_outcomes(
    cs: Seq<CandidateModel>,
    guard: GuardModel,
    opts: CleanOptions,
    work: Seq<WorkModel>,
) -> Seq<OutcomeModel>
    decreases cs.len(),
{
    if cs.len() == 0 {
        Seq::empty()
    } else {
        let before = removal_outcomes(cs.drop_last(), guard, opts, work.drop_last());
        if cs.last().action is Shell {
            before
        } else {
            before.push(
                removal_outcome(cs.last(), guard, opts, work.last().facts, work.last().errors),
            )
        }
    }
}

/// The outcomes of the candidates that run a command, in order.
pub open spec fn command_outcomes(
    cs: Seq<CandidateModel>,
    opts: CleanOptions,
    work: Seq<WorkModel>,
) -> Seq<OutcomeModel>
    decreases cs.len(),
{
    if cs.len() == 0 {
        Seq::empty()
    } else {
        let before = command_outcomes(cs.drop_last(), opts, work.drop_last());
        if cs.last().action is Shell {
            before.push(command_outcome(cs.last(), opts, work.last().command))
        } else {
            before
        }
    }
}

/// The record of a run: first what was removed, then the commands, which run one by one.
pub open spec fn run_of(
    record: RunModel,
    cs: Seq<CandidateModel>,
    guard: GuardModel,
    opts: CleanOptions,
    work: Seq<WorkModel>,
    finished_at: Moment,
) -> RunModel {
    RunModel {
        candidates_found: cs.len() as usize,
        bytes_found: total_freed(cs) as u64,
        items: removal_outcomes(cs, guard, opts, work) + command_outcomes(cs, opts, work),
        finished_at,
        ..record
    }
}

/// Each candidate comes with the facts on its paths.
pub open spec fn work_fits(cs: Seq<CandidateModel>, work: Seq<WorkModel>) -> bool {
    &&& cs.len() == work.len()
    &&& forall|i: int|
        0 <= i < cs.len() ==> (#[trigger] work[i]).facts.len() == cs[i].paths.len()
}

/// Complete the record of a run over the chosen candidates, from what their work came to.
pub fn finish(
    record: RunRecord,
    candidates: &Vec<Candidate>,
    guard: &PathGuard,
    opts: &CleanOptions,
    work: &Vec<Work>,
    finished_at: Moment,
) -> (r: RunRecord)
    requires
        work_fits(views(candidates@), views(work@)),
        total_freed(views(candidates@)) <= u64::MAX,
    ensures
        r@ == run_of(
            record@,
            views(candidates@),
            guard@,
            *opts,
            views(work@),
            finished_at,
        ),
{
    let ghost cs = views(candidates@);
    let ghost ws = views(work@);
    let mut items: Vec<ItemOutcome> = Vec::new();
    let mut i: usize = 0;
    assert(views(items@) =~= removal_outcomes(cs.take(0), guard@, *opts, ws.take(0)));
    while i < candidates.len()
        invariant
            i <= candidates@.len(),
            cs == views(candidates@),
            ws == views(work@),
            work_fits(cs, ws),
            views(items@) == removal_outcomes(cs.take(i as int), guard@, *opts, ws.take(i as int)),
        decreases candidates@.len() - i,
    {
        proof {
            assert(cs.take(i + 1).drop_last() =~= cs.take(i as int));
            assert(ws.take(i + 1).drop_last() =~= ws.take(i as int));
            assert(cs.take(i + 1).last() == candidates@[i as int]@);
            assert(ws.take(i + 1).last() == work@[i as int]@);
            assert(ws[i as int].facts.len() == cs[i as int].paths.len());
        }
        if !candidates[i].action.is_shell() {
            items.push(
                remove_paths(&candidates[i], guard, opts, &work[i].facts, &work[i].errors),
            );
        }
        i += 1;
    }
    let ghost removed = removal_outcomes(cs, guard@, *opts, ws);
    proof {
        assert(cs.take(cs.len() as int) =~= cs);
        assert(ws.take(ws.len() as int) =~= ws);
        assert(views(items@) =~= removed + command_outcomes(cs.take(0), *opts, ws.take(0)));
    }
    let mut k: usize = 0;
    while k < candidates.len()
        invariant
            k <= candidates@.len(),
            cs == views(candidates@),
            ws == views(work@),
            work_fits(cs, ws),
            views(items@) == removed + command_outcomes(
                cs.take(k as int),
                *opts,
                ws.take(k as int),
            ),
        decreases candidates@.len() - k,
    {
        let ghost before = command_outcomes(cs.take(k as int), *opts, ws.take(k as int));
        proof {
            assert(cs.take(k + 1).drop_last() =~= cs.take(k as int));
            assert(ws.take(k + 1).drop_last() =~= ws.take(k as int));
            assert(cs.take(k + 1).last() == candidates@[k as int]@);
            assert(ws.take(k + 1).last() == work@[k as int]@);
        }
        if candidates[k].action.is_shell() {
            let outcome = run_command(&candidates[k], opts, &work[k].command);
            assert((removed + before).push(outcome@) =~= removed + before.push(outcome@));
            items.push(outcome);
        }
        k += 1;
    }
    let mut r = record;
    r.candidates_found = candidates.len();
    r.bytes_found = total_reclaimable(candidates);
    r.items = items;
    r.finished_at = finished_at;
    r
}

/// The record of a clean over the chosen candidates, from what their work came to.
pub fn clean(
    candidates: &Vec<Candidate>,
    guard: &PathGuard,
    opts: &CleanOptions,
    work: &Vec<Work>,
    started_at: Moment,
    finished_at: Moment,
) -> (r: RunRecord)
    requires
        work_fits(views(candidates@), views(work@)),
        total_freed(views(candidates@)) <= u64::MAX,
    ensures
        is_random_id(r@.id),
        r@ == (RunModel {
            id: r@.id,
            ..run_of(
                started(opts.trigger, opts.dry_run, started_at),
                views(candidates@),
                guard@,
                *opts,
                views(work@),
                finished_at,
            )
        }),
{
    let record = RunRecord::new(opts.trigger, opts.dry_run, started_at);
    finish(record, candidates, guard, opts, work, finished_at)
}

/// The candidates of the caution tier.
pub open spec fn caution_items(cs: Seq<CandidateModel>) -> Seq<CandidateModel>
    decreases cs.len(),
{
    if cs.len() == 0 {
        Seq::empty()
    } else if cs.last().tier == Tier::Caution {
        caution_items(cs.drop_last()).push(cs.last())
    } else {
        caution_items(cs.drop_last())
    }
}

/// Candidates requiring explicit confirmation even where everything else is confirmed.
pub fn needs_explicit_confirmation(candidates: &Vec<Candidate>, confirm_caution: bool) -> (out: Vec<
    &Candidate,
>)
    ensures
        views(out@) == if confirm_caution {
            caution_items(views(candidates@))
        } else {
            Seq::empty()
        },
{
    let ghost all = views(candidates@);
    let mut out: Vec<&Candidate> = Vec::new();
    if !confirm_caution {
        assert(views(out@) =~= Seq::empty());
        return out;
    }
    let mut i: usize = 0;
    assert(views(out@) =~= caution_items(all.take(0)));
    while i < candidates.len()
        invariant
            i <= candidates@.len(),
            all == views(candidates@),
            views(out@) == caution_items(all.take(i as int)),
        decreases candidates@.len() - i,
    {
        assert(all.take(i + 1).drop_last() =~= all.take(i as int));
        assert(all.take(i + 1).last() == candidates@[i as int]@);
        if candidates[i].tier == Tier::Caution {
            out.push(&candidates[i]);
        }
        i += 1;
    }
    assert(all.take(all.len() as int) =~= all);
    out
}

/// A dry run orders nothing, whatever the candidate and whatever is on disk.
pub proof fn a_dry_run_orders_nothing(
    c: CandidateModel,
    guard: GuardModel,
    opts: CleanOptions,
    facts: Seq<FactsModel>,
)
    requires
        opts.dry_run,
    ensures
        order_for(c, guard, opts, facts) == OrderModel::Nothing,
{
}

/// A dry run frees nothing.
pub proof fn a_dry_run_frees_nothing(
    cs: Seq<CandidateModel>,
    guard: GuardModel,
    opts: CleanOptions,
    work: Seq<WorkModel>,
)
    requires
        opts.dry_run,
        work.len() == cs.len(),
    ensures
        freed_by(removal_outcomes(cs, guard, opts, work)) == 0,
        freed_by(command_outcomes(cs, opts, work)) == 0,
        trashed_by(removal_outcomes(cs, guard, opts, work)) == 0,
        trashed_by(command_outcomes(cs, opts, work)) == 0,
    decreases cs.len(),
{
    if cs.len() > 0 {
        a_dry_run_frees_nothing(cs.drop_last(), guard, opts, work.drop_last());
        let removals = removal_outcomes(cs.drop_last(), guard, opts, work.drop_last());
        let commands = command_outcomes(cs.drop_last(), opts, work.drop_last());
        let r = removal_outcome(cs.last(), guard, opts, work.last().facts, work.last().errors);
        let c = command_outcome(cs.last(), opts, work.last().command);
        assert(removals.push(r).drop_last() =~= removals);
        assert(commands.push(c).drop_last() =~= commands);
    }
}

/// Only resolved paths that the guard accepts are ever removed, and none of a candidate's
/// paths is where one of them is refused.
pub proof fn only_accepted_paths_are_removed(
    c: CandidateModel,
    guard: GuardModel,
    opts: CleanOptions,
    facts: Seq<FactsModel>,
)
    requires
        facts.len() == c.paths.len(),
    ensures
        order_for(c, guard, opts, facts) matches OrderModel::Remove { paths, to_trash } ==> {
            &&& forall|i: int| 0 <= i < paths.len() ==> guard.accepts(#[trigger] paths[i])
            &&& guard.verdicts(c.paths, facts).1.len() == 0
            &&& to_trash == opts.mode.trashes(c.tier)
        },
{
    lemma_verdicts_accepted(guard, c.paths, facts);
}

proof fn lemma_verdicts_accepted(
    guard: GuardModel,
    paths: Seq<Seq<char>>,
    facts: Seq<FactsModel>,
)
    requires
        facts.len() == paths.len(),
    ensures
        forall|i: int|
            0 <= i < guard.verdicts(paths, facts).0.len() ==> guard.accepts(
                #[trigger] guard.verdicts(paths, facts).0[i],
            ),
    decreases paths.len(),
{
    if paths.len() > 0 {
        lemma_verdicts_accepted(guard, paths.drop_last(), facts.drop_last());
        let before = guard.verdicts(paths.drop_last(), facts.drop_last()).0;
        let now = guard.verdicts(paths, facts).0;
        assert forall|i: int| 0 <= i < now.len() implies guard.accepts(#[trigger] now[i]) by {
            if i < before.len() {
                assert(now[i] == before[i]);
            }
        }
    }
}

/// Every candidate has its outcome: one failure hides no other item.
pub proof fn every_candidate_has_an_outcome(
    cs: Seq<CandidateModel>,
    guard: GuardModel,
    opts: CleanOptions,
    work: Seq<WorkModel>,
)
    requires
        work.len() == cs.len(),
    ensures
        (removal_outcomes(cs, guard, opts, work) + command_outcomes(cs, opts, work)).len()
            == cs.len(),
    decreases cs.len(),
{
    if cs.len() > 0 {
        every_candidate_has_an_outcome(cs.drop_last(), guard, opts, work.drop_last());
    }
}

/// Bytes are credited to success alone: an item is credited what the scan expected of it
/// where it was purged, trashed or cleaned by its command, and nothing otherwise.
pub proof fn bytes_are_credited_to_success_alone(
    c: CandidateModel,
    guard: GuardModel,
    opts: CleanOptions,
    facts: Seq<FactsModel>,
    errors: Seq<ErrorModel>,
    report: CommandModel,
)
    requires
        c.freed() <= u64::MAX,
    ensures
        ({
            let o = removal_outcome(c, guard, opts, facts, errors);
            if o.disposition == Disposition::Purged || o.disposition == Disposition::Trashed {
                o.freed_bytes == c.freed() && o.error is None
            } else {
                o.freed_bytes == 0
            }
        }),
        ({
            let o = command_outcome(c, opts, report);
            if o.disposition == Disposition::CommandRun {
                o.freed_bytes == c.freed() && o.error is None
            } else {
                o.freed_bytes == 0
            }
        }),
{
}

/// Outside a dry run, a candidate that is reclaimed by a command has that command run as it
/// declares it: the program, and every argument in its place.
pub proof fn commands_run_with_their_arguments(
    c: CandidateModel,
    guard: GuardModel,
    opts: CleanOptions,
    facts: Seq<FactsModel>,
)
    requires
        !opts.dry_run,
        c.action is Shell,
    ensures
        order_for(c, guard, opts, facts) is Run,
        order_for(c, guard, opts, facts)->program == c.action->program,
        order_for(c, guard, opts, facts)->args.len() == c.action->args.len(),
        forall|i: int|
            0 <= i < c.action->args.len() ==> #[trigger] order_for(c, guard, opts, facts)->args[i]
                == c.action->args[i],
{
}

/// What the guard resolved of the paths that are there, in order.
proof fn lemma_verdicts_in_order(
    guard: GuardModel,
    paths: Seq<Seq<char>>,
    facts: Seq<FactsModel>,
    n: nat,
)
    requires
        n <= paths.len() == facts.len(),
        forall|i: int|
            0 <= i < paths.len() && (#[trigger] facts[i]).exists ==> guard.verdict(
                paths[i],
                facts[i],
            ) is Ok,
    ensures
        guard.verdicts(paths.take(n as int), facts.take(n as int)).0 == numbers_where(
            n,
            |i: int| facts[i].exists,
        ).map_values(|i: int| facts[i].canonical->Ok_0),
        guard.verdicts(paths.take(n as int), facts.take(n as int)).1.len() == 0,
    decreases n,
{
    let keep = |i: int| facts[i].exists;
    let canonical = |i: int| facts[i].canonical->Ok_0;
    if n > 0 {
        let m = (n - 1) as nat;
        lemma_verdicts_in_order(guard, paths, facts, m);
        lemma_numbers_step(m, keep);
        assert(paths.take(n as int).drop_last() =~= paths.take(m as int));
        assert(facts.take(n as int).drop_last() =~= facts.take(m as int));
        let before = numbers_where(m, keep);
        if facts[m as int].exists {
            assert(guard.verdict(paths[m as int], facts[m as int]) is Ok);
            assert(before.push(m as int).map_values(canonical) =~= before.map_values(
                canonical,
            ).push(canonical(m as int)));
        }
    } else {
        lemma_numbers_step(0, keep);
        assert(numbers_where(0, keep).map_values(canonical) =~= Seq::empty());
    }
}

/// Outside a dry run, the paths of a candidate that are there are all removed, resolved and in
/// their order, where the guard accepts each of them: into the trash in trash mode and, in tiered
/// mode, for any tier but the safe one.
pub proof fn accepted_paths_are_all_removed(
    c: CandidateModel,
    guard: GuardModel,
    opts: CleanOptions,
    facts: Seq<FactsModel>,
)
    requires
        facts.len() == c.paths.len(),
        !opts.dry_run,
        c.action is RemovePaths,
        exists|i: int| 0 <= i < facts.len() && (#[trigger] facts[i]).exists,
        forall|i: int|
            0 <= i < facts.len() && (#[trigger] facts[i]).exists ==> guard.verdict(
                c.paths[i],
                facts[i],
            ) is Ok,
    ensures
        order_for(c, guard, opts, facts) is Remove,
        order_for(c, guard, opts, facts)->paths == numbers_where(
            facts.len(),
            |i: int| facts[i].exists,
        ).map_values(|i: int| facts[i].canonical->Ok_0),
        opts.mode == DeleteMode::Trash ==> order_for(c, guard, opts, facts)->to_trash,
        opts.mode == DeleteMode::Purge ==> !order_for(c, guard, opts, facts)->to_trash,
        opts.mode == DeleteMode::Tiered ==> order_for(c, guard, opts, facts)->to_trash == (c.tier
            != Tier::Safe),
{
    lemma_verdicts_in_order(guard, c.paths, facts, facts.len());
    assert(c.paths.take(facts.len() as int) =~= c.paths);
    assert(facts.take(facts.len() as int) =~= facts);
    let i = choose|i: int| 0 <= i < facts.len() && (#[trigger] facts[i]).exists;
    batches_are_judged_path_by_path(guard, c.paths, facts);
    let canonical = facts[i].canonical->Ok_0;
    assert(guard.verdict(c.paths[i], facts[i]) == Ok::<Seq<char>, ErrorModel>(canonical));
    assert(guard.verdicts(c.paths, facts).0.contains(canonical));
}

/// One refused path keeps all the paths of its candidate, and so does a candidate of which nothing
/// is there any more.
pub proof fn a_refused_path_keeps_its_candidate(
    c: CandidateModel,
    guard: GuardModel,
    opts: CleanOptions,
    facts: Seq<FactsModel>,
)
    requires
        facts.len() == c.paths.len(),
        c.action is RemovePaths,
        (exists|i: int|
            0 <= i < facts.len() && (#[trigger] facts[i]).exists && guard.verdict(
                c.paths[i],
                facts[i],
            ) is Err) || (forall|i: int| 0 <= i < facts.len() ==> !(#[trigger] facts[i]).exists),
    ensures
        order_for(c, guard, opts, facts) == OrderModel::Nothing,
{
    lemma_refusals(c, guard, facts);
}

proof fn lemma_refusals(c: CandidateModel, guard: GuardModel, facts: Seq<FactsModel>)
    requires
        facts.len() == c.paths.len(),
    ensures
        (guard.verdicts(c.paths, facts).1.len() > 0) == (exists|i: int|
            0 <= i < facts.len() && (#[trigger] facts[i]).exists && guard.verdict(
                c.paths[i],
                facts[i],
            ) is Err),
        (forall|i: int| 0 <= i < facts.len() ==> !(#[trigger] facts[i]).exists)
            ==> guard.verdicts(c.paths, facts).0.len() == 0,
        (exists|i: int| 0 <= i < facts.len() && (#[trigger] facts[i]).exists) ==> guard.verdicts(
            c.paths,
            facts,
        ).0.len() + guard.verdicts(c.paths, facts).1.len() > 0,
{
    batches_are_judged_path_by_path(guard, c.paths, facts);
    let (valid, refusals) = guard.verdicts(c.paths, facts);
    if refusals.len() > 0 {
        assert(refusals.contains(refusals[0]));
        let i = choose|i: int|
            0 <= i < c.paths.len() && facts[i].exists && #[trigger] guard.verdict(
                c.paths[i],
                facts[i],
            ) == Err::<Seq<char>, ErrorModel>(refusals[0]);
        assert(facts[i].exists);
    }
    if exists|i: int|
        0 <= i < facts.len() && (#[trigger] facts[i]).exists && guard.verdict(
            c.paths[i],
            facts[i],
        ) is Err {
        let i = choose|i: int|
            0 <= i < facts.len() && (#[trigger] facts[i]).exists && guard.verdict(
                c.paths[i],
                facts[i],
            ) is Err;
        let e = guard.verdict(c.paths[i], facts[i])->Err_0;
        assert(guard.verdict(c.paths[i], facts[i]) == Err::<Seq<char>, ErrorModel>(e));
        assert(refusals.contains(e));
    }
    if valid.len() > 0 {
        assert(valid.contains(valid[0]));
        let i = choose|i: int|
            0 <= i < c.paths.len() && facts[i].exists && #[trigger] guard.verdict(
                c.paths[i],
                facts[i],
            ) == Ok::<Seq<char>, ErrorModel>(valid[0]);
        assert(facts[i].exists);
    }
    if exists|i: int| 0 <= i < facts.len() && (#[trigger] facts[i]).exists {
        let i = choose|i: int| 0 <= i < facts.len() && (#[trigger] facts[i]).exists;
        match guard.verdict(c.paths[i], facts[i]) {
            Ok(p) => {
                assert(guard.verdict(c.paths[i], facts[i]) == Ok::<Seq<char>, ErrorModel>(p));
                assert(valid.contains(p));
            },
            Err(e) => {
                assert(guard.verdict(c.paths[i], facts[i]) == Err::<Seq<char>, ErrorModel>(e));
                assert(refusals.contains(e));
            },
        }
    }
}

/// The outcome of a removal names its candidate, and tells what became of it: failed with a reason
/// where a path was refused or could not be removed, skipped where nothing was there, a dry run,
/// trashed or purged otherwise.
pub proof fn a_removal_is_told_as_it_went(
    c: CandidateModel,
    guard: GuardModel,
    opts: CleanOptions,
    facts: Seq<FactsModel>,
    errors: Seq<ErrorModel>,
)
    requires
        facts.len() == c.paths.len(),
        c.freed() <= u64::MAX,
    ensures
        ({
            let o = removal_outcome(c, guard, opts, facts, errors);
            let refused = exists|i: int|
                0 <= i < facts.len() && (#[trigger] facts[i]).exists && guard.verdict(
                    c.paths[i],
                    facts[i],
                ) is Err;
            let there = exists|i: int| 0 <= i < facts.len() && (#[trigger] facts[i]).exists;
            let trashes = opts.mode == DeleteMode::Trash || (opts.mode == DeleteMode::Tiered
                && c.tier != Tier::Safe);
            &&& o.id == c.id && o.provider == c.provider && o.group == c.group
            &&& o.label == c.label && o.tier == c.tier && o.paths == c.paths
            &&& o.expected_bytes == c.freed()
            &&& refused ==> o.disposition == Disposition::Failed
            &&& !there ==> o.disposition == Disposition::Skipped
            &&& there && !refused && opts.dry_run ==> o.disposition == Disposition::DryRun
            &&& there && !refused && !opts.dry_run && errors.len() > 0 ==> o.disposition
                == Disposition::Failed
            &&& there && !refused && !opts.dry_run && errors.len() == 0 ==> o.disposition == (
            if trashes {
                Disposition::Trashed
            } else {
                Disposition::Purged
            })
            &&& (o.error is Some) == (o.disposition == Disposition::Failed)
        }),
{
    lemma_refusals(c, guard, facts);
}

/// The outcome of a command names its candidate, and tells what became of it: a dry run, run where
/// the command succeeded, and failed with a reason otherwise.
pub proof fn a_command_is_told_as_it_went(c: CandidateModel, opts: CleanOptions, report: CommandModel)
    requires
        c.action is Shell,
        c.freed() <= u64::MAX,
    ensures
        ({
            let o = command_outcome(c, opts, report);
            &&& o.id == c.id && o.provider == c.provider && o.group == c.group
            &&& o.label == c.label && o.tier == c.tier && o.paths == c.paths
            &&& o.expected_bytes == c.freed()
            &&& opts.dry_run ==> o.disposition == Disposition::DryRun
            &&& !opts.dry_run && report is Succeeded ==> o.disposition == Disposition::CommandRun
            &&& !opts.dry_run && !(report is Succeeded) ==> o.disposition == Disposition::Failed
            &&& (o.error is Some) == (o.disposition == Disposition::Failed)
            &&& o.error is Some && report is NotStarted ==> has_part(
                o.error->0,
                c.action->program,
            ) && has_part(o.error->0, report->error)
        }),
{
    if report is NotStarted {
        let program = c.action->program;
        let error = report->error;
        lemma_part_of_itself(program);
        lemma_part_of_itself(error);
        lemma_part_of_sum("could not run `"@, program, program);
        lemma_part_of_sum("could not run `"@ + program, "`: "@, program);
        lemma_part_of_sum("could not run `"@ + program + "`: "@, error, program);
        lemma_part_of_sum("could not run `"@ + program + "`: "@, error, error);
    }
}

proof fn lemma_outcomes_in_order(
    cs: Seq<CandidateModel>,
    guard: GuardModel,
    opts: CleanOptions,
    work: Seq<WorkModel>,
    n: nat,
)
    requires
        n <= cs.len() == work.len(),
    ensures
        removal_outcomes(cs.take(n as int), guard, opts, work.take(n as int)) == numbers_where(
            n,
            |i: int| !(cs[i].action is Shell),
        ).map_values(
            |i: int| removal_outcome(cs[i], guard, opts, work[i].facts, work[i].errors),
        ),
        command_outcomes(cs.take(n as int), opts, work.take(n as int)) == numbers_where(
            n,
            |i: int| cs[i].action is Shell,
        ).map_values(|i: int| command_outcome(cs[i], opts, work[i].command)),
    decreases n,
{
    let removes = |i: int| !(cs[i].action is Shell);
    let runs = |i: int| cs[i].action is Shell;
    let removal = |i: int| removal_outcome(cs[i], guard, opts, work[i].facts, work[i].errors);
    let command = |i: int| command_outcome(cs[i], opts, work[i].command);
    if n > 0 {
        let m = (n - 1) as nat;
        lemma_outcomes_in_order(cs, guard, opts, work, m);
        lemma_numbers_step(m, removes);
        lemma_numbers_step(m, runs);
        assert(cs.take(n as int).drop_last() =~= cs.take(m as int));
        assert(work.take(n as int).drop_last() =~= work.take(m as int));
        let a = numbers_where(m, removes);
        let b = numbers_where(m, runs);
        assert(a.push(m as int).map_values(removal) =~= a.map_values(removal).push(
            removal(m as int),
        ));
        assert(b.push(m as int).map_values(command) =~= b.map_values(command).push(
            command(m as int),
        ));
    } else {
        lemma_numbers_step(0, removes);
        lemma_numbers_step(0, runs);
        assert(numbers_where(0, removes).map_values(removal) =~= Seq::empty());
        assert(numbers_where(0, runs).map_values(command) =~= Seq::empty());
    }
}

/// A record holds the outcome of every candidate on its own work: first of those whose paths are
/// removed, then of those that run a command, each in the order they were chosen in. It tells how
/// many there were, and keeps what was known of the run.
pub proof fn a_record_tells_of_every_candidate(
    record: RunModel,
    cs: Seq<CandidateModel>,
    guard: GuardModel,
    opts: CleanOptions,
    work: Seq<WorkModel>,
    finished_at: Moment,
)
    requires
        work.len() == cs.len() <= usize::MAX,
        total_freed(cs) <= u64::MAX,
    ensures
        ({
            let r = run_of(record, cs, guard, opts, work, finished_at);
            &&& r.items == numbers_where(cs.len(), |i: int| !(cs[i].action is Shell)).map_values(
                |i: int| removal_outcome(cs[i], guard, opts, work[i].facts, work[i].errors),
            ) + numbers_where(cs.len(), |i: int| cs[i].action is Shell).map_values(
                |i: int| command_outcome(cs[i], opts, work[i].command),
            )
            &&& r.candidates_found == cs.len()
            &&& r.bytes_found == total_freed(cs)
            &&& r.finished_at == finished_at
            &&& r.id == record.id && r.started_at == record.started_at
            &&& r.trigger == record.trigger && r.dry_run == record.dry_run
            &&& r.version == record.version
        }),
{
    lemma_outcomes_in_order(cs, guard, opts, work, cs.len());
    assert(cs.take(cs.len() as int) =~= cs);
    assert(work.take(work.len() as int) =~= work);
}

/// What needs an answer of its own is every candidate of the caution tier, and nothing else.
pub proof fn every_caution_item_is_asked_about(cs: Seq<CandidateModel>)
    ensures
        caution_items(cs) == cs.filter(|c: CandidateModel| c.tier == Tier::Caution),
    decreases cs.len(),
{
    reveal(Seq::filter);
    if cs.len() > 0 {
        every_caution_item_is_asked_about(cs.drop_last());
    } else {
        assert(caution_items(cs) =~= cs);
    }
}

/// Of what a command says on its error stream, the first three lines are quoted in one; a line
/// ends without its carriage return.
pub proof fn three_lines_are_quoted(a: Seq<char>, b: Seq<char>, c: Seq<char>, rest: Seq<char>)
    requires
        !a.contains('\n'),
        !b.contains('\n'),
        !c.contains('\n'),
        a.len() > 0 && a.last() != '\r',
        b.len() > 0 && b.last() != '\r',
        c.len() > 0 && c.last() != '\r',
    ensures
        first_lines(Seq::empty()) == Seq::<char>::empty(),
        first_lines(a) == a,
        first_lines(a + seq!['\n']) == a,
        first_lines(a + seq!['\n'] + b) == a + " "@ + b,
        first_lines(a.push('\r') + seq!['\n'] + b) == a + " "@ + b,
        first_lines(a + seq!['\n'] + (b + seq!['\n'] + (c + seq!['\n'] + rest))) == a + " "@ + b
            + " "@ + c,
{
    let n = '\n';
    let end = seq![n];
    let none = Seq::<char>::empty();
    reveal_with_fuel(joined, 4);
    a_separator_cuts_a_text_in_two(a, n, none);
    a_separator_cuts_a_text_in_two(none, n, none);
    a_separator_cuts_a_text_in_two(b, n, none);
    a_separator_cuts_a_text_in_two(c, n, rest);
    a_separator_cuts_a_text_in_two(a, n, b);
    a_separator_cuts_a_text_in_two(b, n, c + end + rest);
    a_separator_cuts_a_text_in_two(a, n, b + end + (c + end + rest));
    pieces_join_to_the_text(rest, n);
    let returned = a.push('\r');
    assert(!returned.contains(n)) by {
        if returned.contains(n) {
            let i = choose|i: int| 0 <= i < returned.len() && returned[i] == n;
            assert(a[i] == n);
        }
    }
    a_separator_cuts_a_text_in_two(returned, n, b);
    assert(returned.drop_last() =~= a);
    assert(pieces(none, n) =~= seq![none]);
    assert(lines_of(none) =~= Seq::empty());
    assert(lines_of(a) =~= seq![a]);
    assert(a + end + none =~= a + end);
    assert(lines_of(a + end) =~= seq![a]);
    assert(lines_of(a + end + b) =~= seq![a, b]);
    assert(lines_of(returned + end + b) =~= seq![a, b]);
    let long = a + end + (b + end + (c + end + rest));
    let lines = lines_of(long);
    let parts = pieces(long, n);
    assert(parts =~= seq![a, b, c] + pieces(rest, n));
    assert(lines.len() >= 3);
    assert(lines[0] == a && lines[1] == b && lines[2] == c);
    let first = if lines.len() > 3 {
        lines.take(3)
    } else {
        lines
    };
    assert(first =~= seq![a, b, c]);
    lemma_joined_few(a, b, c);
}

proof fn lemma_joined_few(a: Seq<char>, b: Seq<char>, c: Seq<char>)
    ensures
        joined(Seq::empty(), " "@) == Seq::<char>::empty(),
        joined(seq![a], " "@) == a,
        joined(seq![a, b], " "@) == a + " "@ + b,
        joined(seq![a, b, c], " "@) == a + " "@ + b + " "@ + c,
{
    reveal_with_fuel(joined, 4);
    assert(seq![a].drop_last() =~= Seq::empty());
    assert(seq![a, b].drop_last() =~= seq![a]);
    assert(seq![a, b, c].drop_last() =~= seq![a, b]);
}

} // verus!
