//! What the non-interactive commands decide and say.
//!
//! A cleanup asks its questions in turn: whether to proceed at all, and then about each item that
//! may be irreplaceable. What is asked, and what the answers leave to remove, is decided here.
use vstd::prelude::*;
use vstd::string::*;
use vstd::seq_lib::seq_to_set_is_finite;
use crate::cli::app::{App, Purpose, ceiling_of};
use crate::cli::args::{CleanArgs, FilterArgs, HistoryReportArgs, ScanArgs};
use crate::cli::render::{
    Style, clean_preview, painted, preview_text, run_report, run_text, severity_code,
    styling_keeps_the_text,
};
use crate::config::{DeleteMode, ProviderConfig};
use crate::exec::{
    CleanOptions, caution_items, every_caution_item_is_asked_about, needs_explicit_confirmation,
};
use crate::format::{bytes, bytes_spec};
use crate::journal::{RunRecord, Trigger, failed_items, trashed_by};
use crate::model::{Candidate, CandidateModel, Tier, WarningModel};
use crate::path::{join, join_path};
use crate::pipeline::{Provider, has_id};
use crate::platform::{Paths, contracted};
use crate::providers::AnyProvider;
use crate::report::HistoryReport;
use crate::sort::{
    lemma_filter_all, lemma_filtered_from, lemma_numbers_all, lemma_numbers_step, numbers_where,
};
use crate::staleness::{total_freed, total_reclaimable};
use crate::text::{
    Dup, chars_of, decimal, decimal_text, dup_all, group_parts_of_texts, has_part, join_text, joined,
    lemma_part_of_sum, lowered, pad_right,
    padded_right, same, slice_text, to_ascii_lower, trim_chars, trimmed, views,
};

verus! {

broadcast use crate::text::lemma_views_push;

/// What a scan is for.
pub fn scan_purpose(args: &ScanArgs) -> (purpose: Purpose)
    ensures
        purpose == if args.all {
            Purpose::ShowEverything
        } else {
            Purpose::Report
        },
{
    if args.all {
        Purpose::ShowEverything
    } else {
        Purpose::Report
    }
}

/// The filters of a cleanup, with its tier ceiling named.
pub fn clean_filter(app: &App, args: &CleanArgs) -> (filter: FilterArgs)
    ensures
        filter.tier == Some(ceiling_of(args.filter.tier)),
        filter.older_than == args.filter.older_than,
        filter.min_size == args.filter.min_size,
        filter.group@ == args.filter.group@,
        views(filter.provider@) == views(args.filter.provider@),
        filter.include_active == args.filter.include_active,
{
    args.filter.with_tier(app.effective_tier(args.filter.tier))
}

/// A run is a dry run unless the user explicitly consented or can be asked, so that a mistyped
/// filter can report but never delete.
pub open spec fn runs_dry(args: CleanArgs, interactive: bool) -> bool {
    args.dry_run || (!args.yes && !interactive)
}

/// What a cleanup does next.
#[derive(Debug, Clone, Copy, PartialEq, Eq, Structural)]
pub enum Step {
    /// Nothing matches: stop.
    NothingMatches,
    /// Show what is about to go, and ask whether to proceed.
    AskToProceed,
    /// Go on to the items that need a confirmation of their own.
    Settle,
}

/// The first step of a cleanup.
pub open spec fn first_step(args: CleanArgs, interactive: bool, matching: nat) -> Step {
    if matching == 0 {
        Step::NothingMatches
    } else if !runs_dry(args, interactive) && !args.yes {
        Step::AskToProceed
    } else {
        Step::Settle
    }
}

/// Whether a cleanup only reports.
pub fn is_dry_run(args: &CleanArgs, interactive: bool) -> (r: bool)
    ensures
        r == runs_dry(*args, interactive),
{
    args.dry_run || (!args.yes && !interactive)
}

/// The first step of a cleanup of these candidates.
pub fn begin(args: &CleanArgs, interactive: bool, chosen: &Vec<Candidate>) -> (step: Step)
    ensures
        step == first_step(*args, interactive, chosen@.len()),
{
    if chosen.len() == 0 {
        Step::NothingMatches
    } else if !is_dry_run(args, interactive) && !args.yes {
        Step::AskToProceed
    } else {
        Step::Settle
    }
}

/// What is said before the question whether to proceed.
pub fn announcement(chosen: &Vec<Candidate>, paths: &Paths, style: &Style) -> (out: String)
    requires
        total_freed(views(chosen@)) <= u64::MAX,
    ensures
        out@ == "About to reclaim "@ + bytes_spec(total_freed(views(chosen@))) + ":\n"@
            + preview_text(style@, paths@.home, views(chosen@)),
{
    "About to reclaim ".to_owned().concat(bytes(total_reclaimable(chosen)).as_str()).concat(
        ":\n",
    ).concat(clean_preview(chosen, paths, style).as_str())
}

/// An answer that consents.
pub open spec fn consents(answer: Seq<char>) -> bool {
    let word = lowered(trimmed(answer));
    word == "y"@ || word == "yes"@
}

/// Whether an answer consents. Anything but a plain yes does not.
pub fn is_yes(answer: &str) -> (r: bool)
    ensures
        r == consents(answer@),
{
    let chars = trim_chars(&chars_of(answer));
    let total: usize = chars.len();
    let text = slice_text(&chars, 0, total);
    assert(text@ =~= trimmed(answer@));
    let word = to_ascii_lower(text.as_str());
    same(word.as_str(), "y") || same(word.as_str(), "yes")
}

/// The items that need a confirmation of their own: consent to clean up caches is not consent to
/// delete something irreplaceable.
pub open spec fn to_confirm(
    cs: Seq<CandidateModel>,
    dry_run: bool,
    confirm_caution: bool,
) -> Seq<CandidateModel> {
    if dry_run || !confirm_caution {
        Seq::empty()
    } else {
        caution_items(cs)
    }
}

/// The candidates that no unanswered item shares its id with.
pub open spec fn without_ids(cs: Seq<CandidateModel>, dropped: Seq<CandidateModel>) -> Seq<
    CandidateModel,
>
    decreases cs.len(),
{
    if cs.len() == 0 {
        Seq::empty()
    } else if has_id(dropped, cs.last().id) {
        without_ids(cs.drop_last(), dropped)
    } else {
        without_ids(cs.drop_last(), dropped).push(cs.last())
    }
}

/// The candidates of the lower tiers, and those of the caution tier that were consented to.
pub open spec fn answered(cs: Seq<CandidateModel>, answers: Seq<bool>) -> Seq<CandidateModel>
    decreases cs.len(),
{
    if cs.len() == 0 {
        Seq::empty()
    } else {
        let before = answered(cs.drop_last(), answers);
        if cs.last().tier != Tier::Caution || answers[cs.len() - 1] {
            before.push(cs.last())
        } else {
            before
        }
    }
}

/// What is left to remove after the confirmations.
pub open spec fn survivors(
    cs: Seq<CandidateModel>,
    dry_run: bool,
    confirm_caution: bool,
    interactive: bool,
    answers: Seq<bool>,
) -> Seq<CandidateModel> {
    let asked = to_confirm(cs, dry_run, confirm_caution);
    if asked.len() == 0 {
        cs
    } else if interactive {
        answered(cs, answers)
    } else {
        without_ids(cs, asked)
    }
}

fn shares_id(items: &Vec<&Candidate>, id: &str) -> (r: bool)
    ensures
        r == has_id(views(items@), id@),
{
    let mut i: usize = 0;
    while i < items.len()
        invariant
            i <= items@.len(),
            forall|k: int| 0 <= k < i ==> (#[trigger] views(items@)[k]).id != id@,
        decreases items@.len() - i,
    {
        assert(views(items@)[i as int] == items@[i as int]@);
        if same(items[i].id.0.as_str(), id) {
            return true;
        }
        i += 1;
    }
    false
}

fn drop_unanswered(chosen: &Vec<Candidate>, asked: &Vec<&Candidate>) -> (out: Vec<Candidate>)
    ensures
        views(out@) == without_ids(views(chosen@), views(asked@)),
{
    let ghost all = views(chosen@);
    let mut out: Vec<Candidate> = Vec::new();
    let mut i: usize = 0;
    assert(views(out@) =~= without_ids(all.take(0), views(asked@)));
    while i < chosen.len()
        invariant
            i <= chosen@.len(),
            all == views(chosen@),
            views(out@) == without_ids(all.take(i as int), views(asked@)),
        decreases chosen@.len() - i,
    {
        assert(all.take(i + 1).drop_last() =~= all.take(i as int));
        assert(all.take(i + 1).last() == chosen@[i as int]@);
        if !shares_id(asked, chosen[i].id.0.as_str()) {
            out.push(chosen[i].dup());
        }
        i += 1;
    }
    assert(all.take(all.len() as int) =~= all);
    out
}

fn keep_answered(chosen: &Vec<Candidate>, answers: &Vec<bool>) -> (out: Vec<Candidate>)
    requires
        answers@.len() == chosen@.len(),
    ensures
        views(out@) == answered(views(chosen@), answers@),
{
    let ghost all = views(chosen@);
    let mut out: Vec<Candidate> = Vec::new();
    let mut i: usize = 0;
    assert(views(out@) =~= answered(all.take(0), answers@));
    while i < chosen.len()
        invariant
            i <= chosen@.len(),
            answers@.len() == chosen@.len(),
            all == views(chosen@),
            views(out@) == answered(all.take(i as int), answers@),
        decreases chosen@.len() - i,
    {
        assert(all.take(i + 1).drop_last() =~= all.take(i as int));
        assert(all.take(i + 1).last() == chosen@[i as int]@);
        if chosen[i].tier != Tier::Caution || answers[i] {
            out.push(chosen[i].dup());
        }
        i += 1;
    }
    assert(all.take(all.len() as int) =~= all);
    out
}

/// Whether each candidate has to be asked about.
pub open spec fn questions_for(
    cs: Seq<CandidateModel>,
    dry_run: bool,
    confirm_caution: bool,
    interactive: bool,
) -> Seq<bool> {
    let asked = interactive && to_confirm(cs, dry_run, confirm_caution).len() > 0;
    Seq::new(cs.len(), |i: int| asked && cs[i].tier == Tier::Caution)
}

/// Whether each candidate has to be asked about.
pub fn questions(
    chosen: &Vec<Candidate>,
    dry_run: bool,
    confirm_caution: bool,
    interactive: bool,
) -> (asked: Vec<bool>)
    ensures
        asked@ == questions_for(views(chosen@), dry_run, confirm_caution, interactive),
{
    let needs = needs_explicit_confirmation(chosen, confirm_caution);
    assert(views(needs@).len() == needs@.len());
    let asking = interactive && !dry_run && needs.len() > 0;
    let mut asked: Vec<bool> = Vec::new();
    let mut i: usize = 0;
    while i < chosen.len()
        invariant
            i <= chosen@.len(),
            asked@.len() == i,
            asking == (interactive && to_confirm(
                views(chosen@),
                dry_run,
                confirm_caution,
            ).len() > 0),
            forall|k: int|
                0 <= k < i ==> #[trigger] asked@[k] == (asking && chosen@[k]@.tier
                    == Tier::Caution),
        decreases chosen@.len() - i,
    {
        asked.push(asking && chosen[i].tier == Tier::Caution);
        i += 1;
    }
    assert(asked@ =~= questions_for(views(chosen@), dry_run, confirm_caution, interactive));
    asked
}

/// What is left to remove after the confirmations. `answers` holds an answer for each candidate,
/// which matters where it was asked for. Where nobody can answer, the items that need one are left
/// out rather than silently removed.
pub fn confirm_caution_items(
    chosen: &Vec<Candidate>,
    dry_run: bool,
    confirm_caution: bool,
    interactive: bool,
    answers: &Vec<bool>,
) -> (out: Vec<Candidate>)
    requires
        answers@.len() == chosen@.len(),
    ensures
        views(out@) == survivors(
            views(chosen@),
            dry_run,
            confirm_caution,
            interactive,
            answers@,
        ),
{
    let needs = needs_explicit_confirmation(chosen, confirm_caution);
    assert(views(needs@).len() == needs@.len());
    if dry_run || needs.len() == 0 {
        dup_all(chosen)
    } else if interactive {
        keep_answered(chosen, answers)
    } else {
        drop_unanswered(chosen, &needs)
    }
}

/// The ids of candidates.
pub open spec fn ids_of(cs: Seq<CandidateModel>) -> Set<Seq<char>> {
    cs.map_values(|c: CandidateModel| c.id).to_set()
}

/// How many ids candidates have, each counted once.
fn count_ids(cs: &Vec<&Candidate>) -> (n: usize)
    ensures
        n == ids_of(views(cs@)).len(),
{
    let ghost all = views(cs@);
    let ghost ids = all.map_values(|c: CandidateModel| c.id);
    let mut n: usize = 0;
    let mut i: usize = 0;
    assert(ids.take(0).to_set() =~= Set::empty());
    while i < cs.len()
        invariant
            i <= cs@.len(),
            n <= i,
            all == views(cs@),
            ids == all.map_values(|c: CandidateModel| c.id),
            n == ids.take(i as int).to_set().len(),
        decreases cs@.len() - i,
    {
        let id = cs[i].id.0.as_str();
        assert(id@ == ids[i as int]);
        let mut known = false;
        let mut k: usize = 0;
        while k < i && !known
            invariant
                k <= i < cs@.len(),
                all == views(cs@),
                ids == all.map_values(|c: CandidateModel| c.id),
                id@ == ids[i as int],
                known == ids.take(k as int).contains(ids[i as int]),
            decreases i - k,
        {
            known = same(cs[k].id.0.as_str(), id);
            proof {
                let before = ids.take(k as int);
                let after = ids.take(k + 1);
                assert(after =~= before.push(ids[k as int]));
                assert(after[k as int] == ids[k as int]);
                if after.contains(ids[i as int]) {
                    let j = choose|j: int| 0 <= j < after.len() && after[j] == ids[i as int];
                    assert(j < k ==> before[j] == ids[i as int]);
                }
            }
            k += 1;
        }
        proof {
            let before = ids.take(i as int);
            let after = ids.take(i + 1);
            assert(after =~= before.push(ids[i as int]));
            assert(after.to_set() =~= before.to_set().insert(ids[i as int])) by {
                assert forall|id: Seq<char>| #[trigger] after.contains(id) == (before.contains(id)
                    || id == ids[i as int]) by {
                    if before.contains(id) {
                        let j = choose|j: int| 0 <= j < before.len() && before[j] == id;
                        assert(after[j] == id);
                    }
                    assert(after[i as int] == ids[i as int]);
                }
            }
            if known {
                let j = choose|j: int| 0 <= j < k && ids.take(k as int)[j] == ids[i as int];
                assert(before[j] == ids[i as int]);
            }
            seq_to_set_is_finite(before);
        }
        if !known {
            n += 1;
        }
        i += 1;
    }
    assert(ids.take(ids.len() as int) =~= ids);
    n
}

/// What is said of items that are left out because nobody can answer.
pub fn skipped_note(
    chosen: &Vec<Candidate>,
    dry_run: bool,
    confirm_caution: bool,
    interactive: bool,
    style: &Style,
) -> (out: Option<String>)
    ensures
        match out {
            Some(note) => {
                let needed = to_confirm(views(chosen@), dry_run, confirm_caution);
                &&& !interactive && needed.len() > 0
                &&& note@ == painted(
                    style@,
                    "33"@,
                    "Skipping "@ + decimal(ids_of(needed).len())
                        + " caution-tier item(s): they require an interactive confirmation."@,
                )
            },
            None => interactive || to_confirm(views(chosen@), dry_run, confirm_caution).len() == 0,
        },
{
    let needs = needs_explicit_confirmation(chosen, confirm_caution);
    assert(views(needs@).len() == needs@.len());
    if interactive || dry_run || needs.len() == 0 {
        return None;
    }
    Some(
        style.yellow(
            "Skipping ".to_owned().concat(decimal_text(count_ids(&needs) as u128).as_str()).concat(
                " caution-tier item(s): they require an interactive confirmation.",
            ).as_str(),
        ),
    )
}

/// The paths of an item, line by line.
pub open spec fn path_lines(enabled: bool, home: Seq<char>, paths: Seq<Seq<char>>) -> Seq<char>
    decreases paths.len(),
{
    if paths.len() == 0 {
        Seq::empty()
    } else {
        path_lines(enabled, home, paths.drop_last()) + ("    "@ + painted(
            enabled,
            "2"@,
            contracted(home, paths.last()),
        ) + "\n"@)
    }
}

/// The warnings of an item, line by line.
pub open spec fn caution_lines(enabled: bool, warnings: Seq<WarningModel>) -> Seq<char>
    decreases warnings.len(),
{
    if warnings.len() == 0 {
        Seq::empty()
    } else {
        caution_lines(enabled, warnings.drop_last()) + ("    "@ + painted(
            enabled,
            severity_code(warnings.last().severity),
            warnings.last().message,
        ) + "\n"@)
    }
}

/// What is said of an item before it is asked about: all evidence there is.
pub open spec fn caution_text(enabled: bool, home: Seq<char>, c: CandidateModel) -> Seq<char> {
    "\n  "@ + painted(enabled, "31"@, "CAUTION"@) + " "@ + painted(enabled, "1"@, c.label) + " ("@
        + bytes_spec(c.freed() as nat) + ")\n"@ + path_lines(enabled, home, c.paths)
        + caution_lines(enabled, c.warnings) + "    "@ + painted(enabled, "2"@, "comes back:"@)
        + " "@ + painted(enabled, "2"@, c.regen.phrase()) + "\n"@
}

/// What is said of an item before it is asked about.
pub fn caution_notice(candidate: &Candidate, paths: &Paths, style: &Style) -> (out: String)
    ensures
        out@ == caution_text(style@, paths@.home, candidate@),
{
    let ghost places = views(candidate.paths@);
    let ghost evidence = views(candidate.warnings@);
    let mut lines = String::new();
    let mut i: usize = 0;
    assert(lines@ =~= path_lines(style@, paths@.home, places.take(0)));
    while i < candidate.paths.len()
        invariant
            i <= candidate.paths@.len(),
            places == views(candidate.paths@),
            lines@ == path_lines(style@, paths@.home, places.take(i as int)),
        decreases candidate.paths@.len() - i,
    {
        assert(places.take(i + 1).drop_last() =~= places.take(i as int));
        assert(places.take(i + 1).last() == candidate.paths@[i as int]@);
        let place = paths.contract(candidate.paths[i].as_str());
        let line = "    ".to_owned().concat(style.dim(place.as_str()).as_str()).concat("\n");
        lines.append(line.as_str());
        i += 1;
    }
    assert(places.take(places.len() as int) =~= places);
    let mut warnings = String::new();
    let mut k: usize = 0;
    assert(warnings@ =~= caution_lines(style@, evidence.take(0)));
    while k < candidate.warnings.len()
        invariant
            k <= candidate.warnings@.len(),
            evidence == views(candidate.warnings@),
            warnings@ == caution_lines(style@, evidence.take(k as int)),
        decreases candidate.warnings@.len() - k,
    {
        assert(evidence.take(k + 1).drop_last() =~= evidence.take(k as int));
        assert(evidence.take(k + 1).last() == candidate.warnings@[k as int]@);
        let w = &candidate.warnings[k];
        let line = "    ".to_owned().concat(
            style.severity(w.severity, w.message.as_str()).as_str(),
        ).concat("\n");
        warnings.append(line.as_str());
        k += 1;
    }
    assert(evidence.take(evidence.len() as int) =~= evidence);
    "\n  ".to_owned().concat(style.red("CAUTION").as_str()).concat(" ").concat(
        style.bold(candidate.label.as_str()).as_str(),
    ).concat(" (").concat(bytes(candidate.reclaimable()).as_str()).concat(")\n").concat(
        lines.as_str(),
    ).concat(warnings.as_str()).concat("    ").concat(style.dim("comes back:").as_str()).concat(
        " ",
    ).concat(style.dim(candidate.regen.summary().as_str()).as_str()).concat("\n")
}

/// The delete mode of a cleanup: a flag overrides the config.
pub fn delete_mode(configured: DeleteMode, args: &CleanArgs) -> (mode: DeleteMode)
    ensures
        mode == if args.trash {
            DeleteMode::Trash
        } else if args.purge {
            DeleteMode::Purge
        } else {
            configured
        },
{
    if args.trash {
        DeleteMode::Trash
    } else if args.purge {
        DeleteMode::Purge
    } else {
        configured
    }
}

/// How a cleanup runs.
pub fn clean_options(app: &App, args: &CleanArgs, interactive: bool) -> (o: CleanOptions)
    ensures
        o.dry_run == runs_dry(*args, interactive),
        o.mode == if args.trash {
            DeleteMode::Trash
        } else if args.purge {
            DeleteMode::Purge
        } else {
            app.config.delete.mode
        },
        o.trigger == if args.scheduled {
            Trigger::Scheduled
        } else {
            Trigger::Cli
        },
        app.config.scan.concurrency > 0 ==> o.concurrency == app.config.scan.concurrency,
        app.config.scan.concurrency == 0 ==> 2 <= o.concurrency <= 16,
{
    CleanOptions {
        dry_run: is_dry_run(args, interactive),
        mode: delete_mode(app.config.delete.mode, args),
        trigger: if args.scheduled {
            Trigger::Scheduled
        } else {
            Trigger::Cli
        },
        concurrency: app.config.scan.threads(),
    }
}

/// What is said at the end of a cleanup.
pub fn closing(record: &RunRecord, dry_run: bool, style: &Style) -> (out: String)
    requires
        record@.line_fits(),
        trashed_by(record@.items) <= u64::MAX,
    ensures
        out@ == run_text(style@, record@) + (if dry_run {
            "\n"@ + painted(
                style@,
                "2"@,
                "This was a dry run. Re-run with --yes to apply."@,
            ) + "\n"@
        } else {
            ""@
        }),
{
    let note = if dry_run {
        "\n".to_owned().concat(
            style.dim("This was a dry run. Re-run with --yes to apply.").as_str(),
        ).concat("\n")
    } else {
        "".to_owned()
    };
    run_report(record, style).concat(note.as_str())
}

/// The exit code of a cleanup: a failed item makes it fail.
pub fn exit_code(record: &RunRecord) -> (code: i32)
    ensures
        code == if failed_items(record@.items).len() == 0 {
            0int
        } else {
            1
        },
{
    if record.succeeded() {
        0
    } else {
        1
    }
}

/// How many runs a history report covers: none named means every run.
pub fn report_limit(last: usize) -> (limit: usize)
    ensures
        limit == if last == 0 {
            usize::MAX
        } else {
            last
        },
{
    if last == 0 {
        usize::MAX
    } else {
        last
    }
}

/// Where a history report is written.
pub fn report_path(args: &HistoryReportArgs, journal_dir: &str) -> (path: String)
    ensures
        path@ == match args.out {
            Some(out) => out@,
            None => join(journal_dir@, "report.html"@),
        },
{
    match &args.out {
        Some(out) => out.clone(),
        None => join_path(journal_dir, "report.html"),
    }
}

/// What is said of a written history report.
pub fn report_written(path: &str, report: &HistoryReport) -> (out: String)
    ensures
        out@ == "Wrote "@ + path@ + " ("@ + decimal(report.runs as nat) + " run(s), "@ + bytes_spec(
            report.lifetime_freed as nat,
        ) + " lifetime freed)."@,
{
    "Wrote ".to_owned().concat(path).concat(" (").concat(
        decimal_text(report.runs as u128).as_str(),
    ).concat(" run(s), ").concat(bytes(report.lifetime_freed).as_str()).concat(
        " lifetime freed).",
    )
}

/// An existing config file is overwritten only on request.
pub fn may_init(path: &str, present: bool, force: bool) -> (r: Result<(), String>)
    ensures
        match r {
            Ok(_) => !present || force,
            Err(e) => present && !force && e@ == path@
                + " already exists. Use --force to overwrite it."@,
        },
{
    if present && !force {
        Err(path.to_owned().concat(" already exists. Use --force to overwrite it."))
    } else {
        Ok(())
    }
}

/// One provider in the table of providers.
pub open spec fn provider_line(enabled: bool, p: AnyProvider, on: bool) -> Seq<char> {
    padded_right(p.name(), 28) + " "@ + padded_right(
        if on {
            painted(enabled, "32"@, "enabled"@)
        } else {
            painted(enabled, "2"@, "disabled"@)
        },
        10,
    ) + " "@ + painted(enabled, "2"@, joined(p.marks(), ", "@)) + "\n"@
}

/// The providers in the table, one after the other.
pub open spec fn provider_lines(
    enabled: bool,
    providers: Seq<AnyProvider>,
    config: ProviderConfig,
) -> Seq<char>
    decreases providers.len(),
{
    if providers.len() == 0 {
        Seq::empty()
    } else {
        provider_lines(enabled, providers.drop_last(), config) + provider_line(
            enabled,
            providers.last(),
            config.enables(providers.last().name()),
        )
    }
}

fn list_markers(markers: &Vec<&'static str>) -> (out: String)
    ensures
        out@ == joined(views(markers@), ", "@),
{
    let mut names: Vec<String> = Vec::new();
    let mut i: usize = 0;
    while i < markers.len()
        invariant
            i <= markers@.len(),
            names@.len() == i,
            forall|k: int| 0 <= k < i ==> (#[trigger] names@[k])@ == markers@[k]@,
        decreases markers@.len() - i,
    {
        names.push(markers[i].to_owned());
        i += 1;
    }
    assert(views(names@) =~= views(markers@));
    join_text(&names, ", ")
}

/// Every provider, whether it is enabled, and the files that mark its projects.
pub fn providers(app: &App, style: &Style) -> (out: String)
    ensures
        out@ == painted(
            style@,
            "1"@,
            padded_right("PROVIDER"@, 28) + " "@ + padded_right("STATUS"@, 10) + " "@ + "MARKERS"@,
        ) + "\n"@ + provider_lines(style@, app.providers@, app.config.providers),
{
    let heading = pad_right("PROVIDER", 28).concat(" ").concat(
        pad_right("STATUS", 10).as_str(),
    ).concat(" ").concat("MARKERS");
    let ghost all = app.providers@;
    let mut lines = String::new();
    let mut i: usize = 0;
    assert(lines@ =~= provider_lines(style@, all.take(0), app.config.providers));
    while i < app.providers.len()
        invariant
            i <= app.providers@.len(),
            all == app.providers@,
            lines@ == provider_lines(style@, all.take(i as int), app.config.providers),
        decreases app.providers@.len() - i,
    {
        assert(all.take(i + 1).drop_last() =~= all.take(i as int));
        let provider = &app.providers[i];
        let id = provider.id();
        let status = if app.config.providers.is_enabled(id) {
            style.green("enabled")
        } else {
            style.dim("disabled")
        };
        let markers = list_markers(&provider.markers());
        let line = pad_right(id, 28).concat(" ").concat(
            pad_right(status.as_str(), 10).as_str(),
        ).concat(" ").concat(style.dim(markers.as_str()).as_str()).concat("\n");
        lines.append(line.as_str());
        i += 1;
    }
    assert(all.take(all.len() as int) =~= all);
    style.bold(heading.as_str()).concat("\n").concat(lines.as_str())
}

/// Without consent, and with nobody to ask, nothing is removed: the run is dry.
pub proof fn without_consent_a_run_is_dry(args: CleanArgs)
    requires
        !args.yes,
    ensures
        runs_dry(args, false),
{
}

/// Consent to the whole is asked for wherever it was not given and the run is not dry.
pub proof fn removal_takes_consent(args: CleanArgs, interactive: bool, matching: nat)
    requires
        matching > 0,
        !runs_dry(args, interactive),
    ensures
        args.yes || first_step(args, interactive, matching) == Step::AskToProceed,
{
}

proof fn lemma_answered(cs: Seq<CandidateModel>, answers: Seq<bool>, c: CandidateModel)
    requires
        answers.len() >= cs.len(),
        answered(cs, answers).contains(c),
        c.tier == Tier::Caution,
    ensures
        exists|i: int| 0 <= i < cs.len() && cs[i] == c && #[trigger] answers[i],
    decreases cs.len(),
{
    if cs.len() > 0 {
        let fewer = cs.drop_last();
        let before = answered(fewer, answers);
        let after = answered(cs, answers);
        let k = choose|k: int| 0 <= k < after.len() && after[k] == c;
        if k < before.len() {
            assert(before[k] == c);
            lemma_answered(fewer, answers, c);
            let i = choose|i: int| 0 <= i < fewer.len() && fewer[i] == c && #[trigger] answers[i];
            assert(cs[i] == c && answers[i]);
        } else {
            let last = cs.len() - 1;
            assert(cs[last] == c && answers[last]);
        }
    }
}

proof fn lemma_unanswered(cs: Seq<CandidateModel>, dropped: Seq<CandidateModel>, c: CandidateModel)
    requires
        without_ids(cs, dropped).contains(c),
    ensures
        cs.contains(c),
        !has_id(dropped, c.id),
    decreases cs.len(),
{
    if cs.len() > 0 {
        let fewer = cs.drop_last();
        let before = without_ids(fewer, dropped);
        let after = without_ids(cs, dropped);
        let k = choose|k: int| 0 <= k < after.len() && after[k] == c;
        if has_id(dropped, cs.last().id) {
            lemma_unanswered(fewer, dropped, c);
            let i = choose|i: int| 0 <= i < fewer.len() && fewer[i] == c;
            assert(cs[i] == c);
        } else if k < before.len() {
            assert(before[k] == c);
            lemma_unanswered(fewer, dropped, c);
            let i = choose|i: int| 0 <= i < fewer.len() && fewer[i] == c;
            assert(cs[i] == c);
        } else {
            assert(cs[cs.len() - 1] == c);
        }
    }
}

proof fn lemma_caution_items(cs: Seq<CandidateModel>, c: CandidateModel)
    requires
        cs.contains(c),
        c.tier == Tier::Caution,
    ensures
        caution_items(cs).contains(c),
    decreases cs.len(),
{
    let k = choose|k: int| 0 <= k < cs.len() && cs[k] == c;
    let fewer = cs.drop_last();
    let before = caution_items(fewer);
    if k < fewer.len() {
        assert(fewer[k] == c);
        lemma_caution_items(fewer, c);
        let i = choose|i: int| 0 <= i < before.len() && before[i] == c;
        assert(caution_items(cs)[i] == c);
    } else {
        assert(caution_items(cs)[before.len() as int] == c);
    }
}

/// Where caution items are to be confirmed, none of them is removed without a person who said yes
/// to that very item.
pub proof fn caution_items_take_an_answer(
    cs: Seq<CandidateModel>,
    interactive: bool,
    answers: Seq<bool>,
    c: CandidateModel,
)
    requires
        answers.len() == cs.len(),
        survivors(cs, false, true, interactive, answers).contains(c),
        c.tier == Tier::Caution,
    ensures
        interactive,
        exists|i: int| 0 <= i < cs.len() && cs[i] == c && #[trigger] answers[i],
{
    let asked = to_confirm(cs, false, true);
    if asked.len() == 0 {
        lemma_caution_items(cs, c);
    } else if interactive {
        lemma_answered(cs, answers, c);
    } else {
        lemma_unanswered(cs, asked, c);
        lemma_caution_items(cs, c);
        let i = choose|i: int| 0 <= i < asked.len() && asked[i] == c;
        assert(asked[i].id == c.id);
    }
}

proof fn lemma_without_ids(cs: Seq<CandidateModel>, dropped: Seq<CandidateModel>)
    ensures
        without_ids(cs, dropped) == cs.filter(
            |c: CandidateModel|
                forall|i: int| 0 <= i < dropped.len() ==> (#[trigger] dropped[i]).id != c.id,
        ),
    decreases cs.len(),
{
    reveal(Seq::filter);
    if cs.len() > 0 {
        lemma_without_ids(cs.drop_last(), dropped);
    } else {
        assert(without_ids(cs, dropped) =~= cs);
    }
}

proof fn lemma_answered_in_order(cs: Seq<CandidateModel>, answers: Seq<bool>, n: nat)
    requires
        n <= cs.len() == answers.len(),
    ensures
        answered(cs.take(n as int), answers) == numbers_where(
            n,
            |i: int| cs[i].tier != Tier::Caution || answers[i],
        ).map_values(|i: int| cs[i]),
    decreases n,
{
    let keep = |i: int| cs[i].tier != Tier::Caution || answers[i];
    let item = |i: int| cs[i];
    if n > 0 {
        let m = (n - 1) as nat;
        lemma_answered_in_order(cs, answers, m);
        lemma_numbers_step(m, keep);
        assert(cs.take(n as int).drop_last() =~= cs.take(m as int));
        assert(cs.take(n as int).last() == cs[m as int]);
        let before = numbers_where(m, keep);
        assert(before.push(m as int).map_values(item) =~= before.map_values(item).push(
            cs[m as int],
        ));
    } else {
        lemma_numbers_step(0, keep);
        assert(numbers_where(0, keep).map_values(item) =~= Seq::empty());
    }
}

/// Where caution items are to be confirmed, an answer is asked for each of them and for nothing
/// else, and what is left is everything but the caution items that were not agreed to. Where nobody
/// can answer, whatever shares its id with a caution item is left out. A dry run, and a
/// configuration without the question, leaves everything.
pub proof fn only_unconfirmed_items_are_left_out(
    cs: Seq<CandidateModel>,
    dry_run: bool,
    confirm_caution: bool,
    interactive: bool,
    answers: Seq<bool>,
)
    requires
        answers.len() == cs.len(),
    ensures
        dry_run || !confirm_caution ==> survivors(cs, dry_run, confirm_caution, interactive, answers)
            == cs,
        !dry_run && confirm_caution && interactive ==> survivors(
            cs,
            dry_run,
            confirm_caution,
            interactive,
            answers,
        ) == numbers_where(
            cs.len(),
            |i: int| cs[i].tier != Tier::Caution || answers[i],
        ).map_values(|i: int| cs[i]),
        !dry_run && confirm_caution && !interactive ==> survivors(
            cs,
            dry_run,
            confirm_caution,
            interactive,
            answers,
        ) == cs.filter(
            |c: CandidateModel|
                forall|i: int|
                    0 <= i < cs.len() && (#[trigger] cs[i]).id == c.id ==> cs[i].tier
                        != Tier::Caution,
        ),
        forall|i: int|
            0 <= i < cs.len() ==> #[trigger] questions_for(
                cs,
                dry_run,
                confirm_caution,
                interactive,
            )[i] == (interactive && !dry_run && confirm_caution && cs[i].tier == Tier::Caution),
        questions_for(cs, dry_run, confirm_caution, interactive).len() == cs.len(),
{
    let asked = caution_items(cs);
    every_caution_item_is_asked_about(cs);
    let risky = |c: CandidateModel| c.tier == Tier::Caution;
    assert forall|i: int| 0 <= i < cs.len() && (#[trigger] cs[i]).tier == Tier::Caution implies
        asked.contains(cs[i]) by {
        cs.lemma_filter_contains(risky, i);
    }
    assert forall|k: int| 0 <= k < asked.len() implies (#[trigger] asked[k]).tier == Tier::Caution
        && cs.contains(asked[k]) by {
        cs.lemma_filter_pred(risky, k);
        lemma_filtered_from(cs, risky, k);
    }
    lemma_answered_in_order(cs, answers, cs.len());
    assert(cs.take(cs.len() as int) =~= cs);
    lemma_without_ids(cs, asked);
    if asked.len() == 0 {
        let agreed = |i: int| cs[i].tier != Tier::Caution || answers[i];
        assert forall|i: int| 0 <= i < cs.len() implies #[trigger] agreed(i) by {
            if cs[i].tier == Tier::Caution {
                assert(asked.contains(cs[i]));
            }
        }
        lemma_numbers_all(cs.len(), agreed);
        assert(numbers_where(cs.len(), agreed).map_values(|i: int| cs[i]) =~= cs);
        let spared = |c: CandidateModel|
            forall|i: int|
                0 <= i < cs.len() && (#[trigger] cs[i]).id == c.id ==> cs[i].tier != Tier::Caution;
        assert forall|i: int| 0 <= i < cs.len() implies spared(#[trigger] cs[i]) by {
            assert forall|k: int| 0 <= k < cs.len() && (#[trigger] cs[k]).id == cs[i].id implies
                cs[k].tier != Tier::Caution by {
                if cs[k].tier == Tier::Caution {
                    assert(asked.contains(cs[k]));
                }
            }
        }
        lemma_filter_all(cs, spared);
    } else {
        let a = |c: CandidateModel|
            forall|i: int| 0 <= i < asked.len() ==> (#[trigger] asked[i]).id != c.id;
        let b = |c: CandidateModel|
            forall|i: int|
                0 <= i < cs.len() && (#[trigger] cs[i]).id == c.id ==> cs[i].tier != Tier::Caution;
        assert forall|c: CandidateModel| #[trigger] a(c) == b(c) by {
            if a(c) {
                assert forall|i: int| 0 <= i < cs.len() && (#[trigger] cs[i]).id == c.id implies
                    cs[i].tier != Tier::Caution by {
                    if cs[i].tier == Tier::Caution {
                        assert(asked.contains(cs[i]));
                        let k = choose|k: int| 0 <= k < asked.len() && asked[k] == cs[i];
                        assert(asked[k].id == c.id);
                    }
                }
            }
            if b(c) {
                assert forall|k: int| 0 <= k < asked.len() implies (#[trigger] asked[k]).id
                    != c.id by {
                    assert(cs.contains(asked[k]));
                    let i = choose|i: int| 0 <= i < cs.len() && cs[i] == asked[k];
                    assert(cs[i].tier == Tier::Caution);
                }
            }
        }
        assert(a =~= b);
    }
}

/// Something is removed only where that was agreed to: a run that matches something asks first
/// exactly where somebody can answer, nobody agreed in advance and it is no dry run; it is dry where
/// that is asked for and where nobody agreed and nobody can.
pub proof fn a_run_asks_where_it_can(args: CleanArgs, interactive: bool, matching: nat)
    ensures
        args.dry_run ==> runs_dry(args, interactive),
        args.yes && !args.dry_run ==> !runs_dry(args, interactive),
        interactive && !args.dry_run ==> !runs_dry(args, interactive),
        !interactive && !args.yes ==> runs_dry(args, interactive),
        matching == 0 ==> first_step(args, interactive, matching) == Step::NothingMatches,
        matching > 0 ==> (first_step(args, interactive, matching) == Step::AskToProceed) == (
        interactive && !args.yes && !args.dry_run),
        matching > 0 ==> first_step(args, interactive, matching) != Step::NothingMatches,
{
}

/// Only `y` and `yes` agree, in any case and with white space around them.
pub proof fn only_a_yes_agrees(answer: Seq<char>)
    ensures
        consents(answer) == ({
            let word = trimmed(answer);
            ||| word.len() == 1 && (word[0] == 'y' || word[0] == 'Y')
            ||| word.len() == 3 && (word[0] == 'y' || word[0] == 'Y') && (word[1] == 'e' || word[1]
                == 'E') && (word[2] == 's' || word[2] == 'S')
        }),
{
    reveal_strlit("y");
    reveal_strlit("yes");
    let word = trimmed(answer);
    let low = lowered(word);
    if word.len() == 1 && (word[0] == 'y' || word[0] == 'Y') {
        assert(low =~= "y"@);
    }
    if word.len() == 3 && (word[0] == 'y' || word[0] == 'Y') && (word[1] == 'e' || word[1] == 'E')
        && (word[2] == 's' || word[2] == 'S') {
        assert(low =~= "yes"@);
    }
    if low == "y"@ {
        assert(low.len() == 1 && low[0] == 'y');
    }
    if low == "yes"@ {
        assert(low.len() == 3 && low[0] == 'y' && low[1] == 'e' && low[2] == 's');
    }
}

/// What a caution item is asked about tells all of it: its label, what it frees, every path, every
/// warning and whether it comes back.
pub proof fn a_question_tells_the_whole_item(
    enabled: bool,
    home: Seq<char>,
    c: CandidateModel,
    i: int,
)
    ensures
        ({
            let text = caution_text(enabled, home, c);
            &&& has_part(text, c.label)
            &&& has_part(text, bytes_spec(c.freed() as nat))
            &&& has_part(text, c.regen.phrase())
            &&& 0 <= i < c.paths.len() ==> has_part(text, contracted(home, c.paths[i]))
            &&& 0 <= i < c.warnings.len() ==> has_part(text, c.warnings[i].message)
        }),
{
    broadcast use group_parts_of_texts;
    styling_keeps_the_text(enabled, "1"@, c.label);
    styling_keeps_the_text(enabled, "2"@, c.regen.phrase());
    if 0 <= i < c.paths.len() {
        lemma_path_told(enabled, home, c.paths, i);
    }
    if 0 <= i < c.warnings.len() {
        lemma_warning_told(enabled, c.warnings, i);
    }
}

proof fn lemma_path_told(enabled: bool, home: Seq<char>, paths: Seq<Seq<char>>, i: int)
    requires
        0 <= i < paths.len(),
    ensures
        has_part(path_lines(enabled, home, paths), contracted(home, paths[i])),
    decreases paths.len(),
{
    let before = path_lines(enabled, home, paths.drop_last());
    let last = contracted(home, paths.last());
    if i < paths.len() - 1 {
        lemma_path_told(enabled, home, paths.drop_last(), i);
        assert(paths.drop_last()[i] == paths[i]);
        lemma_part_of_sum(
            before,
            "    "@ + painted(enabled, "2"@, last) + "\n"@,
            contracted(home, paths[i]),
        );
    } else {
        lemma_line_told(enabled, before, last);
    }
}

proof fn lemma_line_told(enabled: bool, before: Seq<char>, last: Seq<char>)
    ensures
        has_part(before + ("    "@ + painted(enabled, "2"@, last) + "\n"@), last),
{
    broadcast use group_parts_of_texts;
    styling_keeps_the_text(enabled, "2"@, last);
}

proof fn lemma_warning_told(enabled: bool, warnings: Seq<WarningModel>, i: int)
    requires
        0 <= i < warnings.len(),
    ensures
        has_part(caution_lines(enabled, warnings), warnings[i].message),
    decreases warnings.len(),
{
    broadcast use group_parts_of_texts;
    if i < warnings.len() - 1 {
        lemma_warning_told(enabled, warnings.drop_last(), i);
        assert(warnings.drop_last()[i] == warnings[i]);
    } else {
        styling_keeps_the_text(
            enabled,
            severity_code(warnings[i].severity),
            warnings[i].message,
        );
    }
}

/// The list has a line for each provider, which says its id, whether it is enabled and what it
/// looks for.
pub proof fn every_provider_is_listed(
    enabled: bool,
    providers: Seq<AnyProvider>,
    p: AnyProvider,
    config: ProviderConfig,
)
    ensures
        provider_lines(enabled, Seq::empty(), config).len() == 0,
        provider_lines(enabled, providers.push(p), config) == provider_lines(
            enabled,
            providers,
            config,
        ) + provider_line(enabled, p, config.enables(p.name())),
        has_part(provider_line(enabled, p, true), p.name()),
        has_part(provider_line(enabled, p, true), "enabled"@),
        has_part(provider_line(enabled, p, false), p.name()),
        has_part(provider_line(enabled, p, false), "disabled"@),
        has_part(provider_line(enabled, p, true), joined(p.marks(), ", "@)),
{
    broadcast use group_parts_of_texts;
    assert(providers.push(p).drop_last() =~= providers);
    let on = painted(enabled, "32"@, "enabled"@);
    let off = painted(enabled, "2"@, "disabled"@);
    styling_keeps_the_text(enabled, "32"@, "enabled"@);
    styling_keeps_the_text(enabled, "2"@, "disabled"@);
    styling_keeps_the_text(enabled, "2"@, joined(p.marks(), ", "@));
    assert(has_part(padded_right(on, 10), "enabled"@));
    assert(has_part(padded_right(off, 10), "disabled"@));
    assert(has_part(padded_right(p.name(), 28), p.name()));
}

} // verus!
