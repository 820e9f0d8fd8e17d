//! Plain-text rendering for the non-interactive commands.
//!
//! A scan report on its own answers what can safely be deleted: each row carries size, staleness,
//! tier and how it comes back, and the warnings are printed underneath rather than cut away.
use vstd::prelude::*;
use vstd::string::*;
use crate::format::{
    bytes, bytes_padded, bytes_spec, ellipsize, ellipsize_spec, relative_time, seconds,
    seconds_spec,
};
use crate::journal::{
    Disposition, ItemOutcome, OutcomeModel, RunModel, RunRecord, freed_by, trashed_by,
};
use crate::model::{
    Candidate, CandidateModel, Group, Moment, Severity, Size, Tier, Warning, WarningModel,
    age_phrase, days_between, humanize_age,
};
use crate::pipeline::{ScanResult, hidden_among};
use crate::platform::{Paths, contracted};
use crate::sort::{
    arranged, is_stable_order, lemma_sorted_pairs, sorting_keeps_every_item, stably_sorted,
};
use crate::staleness::{
    freed_fits, group_fits, group_size, group_sizes, groups_fit, larger_first, total_freed,
};
use crate::text::{
    decimal, decimal_text, group_parts_of_texts, has_part, join_text, joined, lemma_part_of_itself, lemma_part_of_sum,
    pad_right, padded_left, padded_right, views,
};

verus! {

broadcast use crate::text::lemma_views_push;

/// ANSI styling, disabled when not writing to a terminal or when colour is switched off.
#[derive(Debug, Clone, Copy, PartialEq, Eq, Structural)]
pub struct Style {
    enabled: bool,
}

impl View for Style {
    type V = bool;

    closed spec fn view(&self) -> bool {
        self.enabled
    }
}

/// A text in a style, where styling is enabled.
pub open spec fn painted(enabled: bool, code: Seq<char>, text: Seq<char>) -> Seq<char> {
    if enabled {
        "\x1b["@ + code + "m"@ + text + "\x1b[0m"@
    } else {
        text
    }
}

/// The colour of a tier: green is regenerable, yellow costs something, red may be irreplaceable.
pub open spec fn tier_code(tier: Tier) -> Seq<char> {
    match tier {
        Tier::Safe => "32"@,
        Tier::Review => "33"@,
        Tier::Caution => "31"@,
    }
}

/// The colour of a severity.
pub open spec fn severity_code(severity: Severity) -> Seq<char> {
    match severity {
        Severity::Info => "2"@,
        Severity::Caution => "33"@,
        Severity::Danger => "31"@,
    }
}

impl Style {
    /// Styling for a terminal, unless it is forced off or switched off by the environment.
    pub fn new(force_off: bool, no_color: bool, terminal: bool) -> (style: Self)
        ensures
            style@ == (!force_off && !no_color && terminal),
    {
        Style { enabled: !force_off && !no_color && terminal }
    }

    /// Styling disabled unconditionally.
    pub fn plain() -> (style: Self)
        ensures
            !style@,
    {
        Style { enabled: false }
    }

    fn wrap(&self, code: &str, text: &str) -> (s: String)
        ensures
            s@ == painted(self@, code@, text@),
    {
        if self.enabled {
            "\x1b[".to_owned().concat(code).concat("m").concat(text).concat("\x1b[0m")
        } else {
            text.to_owned()
        }
    }

    pub fn bold(&self, text: &str) -> (s: String)
        ensures
            s@ == painted(self@, "1"@, text@),
    {
        self.wrap("1", text)
    }

    pub fn dim(&self, text: &str) -> (s: String)
        ensures
            s@ == painted(self@, "2"@, text@),
    {
        self.wrap("2", text)
    }

    pub fn green(&self, text: &str) -> (s: String)
        ensures
            s@ == painted(self@, "32"@, text@),
    {
        self.wrap("32", text)
    }

    pub fn yellow(&self, text: &str) -> (s: String)
        ensures
            s@ == painted(self@, "33"@, text@),
    {
        self.wrap("33", text)
    }

    pub fn red(&self, text: &str) -> (s: String)
        ensures
            s@ == painted(self@, "31"@, text@),
    {
        self.wrap("31", text)
    }

    pub fn cyan(&self, text: &str) -> (s: String)
        ensures
            s@ == painted(self@, "36"@, text@),
    {
        self.wrap("36", text)
    }

    /// The name of a tier in its colour.
    pub fn tier(&self, tier: Tier) -> (s: String)
        ensures
            s@ == painted(self@, tier_code(tier), tier.name()),
    {
        match tier {
            Tier::Safe => self.green("safe"),
            Tier::Review => self.yellow("review"),
            Tier::Caution => self.red("caution"),
        }
    }

    /// A text in the colour of a severity.
    pub fn severity(&self, severity: Severity, text: &str) -> (s: String)
        ensures
            s@ == painted(self@, severity_code(severity), text@),
    {
        match severity {
            Severity::Info => self.dim(text),
            Severity::Caution => self.yellow(text),
            Severity::Danger => self.red(text),
        }
    }
}

/// A warning below a row.
pub open spec fn warning_line(enabled: bool, w: WarningModel) -> Seq<char> {
    let code = severity_code(w.severity);
    "      "@ + painted(enabled, code, "!"@) + " "@ + painted(enabled, code, w.message) + "\n"@
}

/// The warnings below a row.
pub open spec fn warning_lines(enabled: bool, warnings: Seq<WarningModel>) -> Seq<char>
    decreases warnings.len(),
{
    if warnings.len() == 0 {
        Seq::empty()
    } else {
        warning_lines(enabled, warnings.drop_last()) + warning_line(enabled, warnings.last())
    }
}

fn write_warnings(warnings: &Vec<Warning>, style: &Style) -> (out: String)
    ensures
        out@ == warning_lines(style@, views(warnings@)),
{
    let ghost all = views(warnings@);
    let mut out = String::new();
    let mut i: usize = 0;
    assert(out@ =~= warning_lines(style@, all.take(0)));
    while i < warnings.len()
        invariant
            i <= warnings@.len(),
            all == views(warnings@),
            out@ == warning_lines(style@, all.take(i as int)),
        decreases warnings@.len() - i,
    {
        assert(all.take(i + 1).drop_last() =~= all.take(i as int));
        assert(all.take(i + 1).last() == warnings@[i as int]@);
        let w = &warnings[i];
        let line = "      ".to_owned().concat(style.severity(w.severity, "!").as_str()).concat(
            " ",
        ).concat(style.severity(w.severity, w.message.as_str()).as_str()).concat("\n");
        out.append(line.as_str());
        i += 1;
    }
    assert(all.take(all.len() as int) =~= all);
    out
}

/// How long a candidate was not used.
pub open spec fn age_text(c: CandidateModel) -> Seq<char> {
    match c.age() {
        Some(days) => age_phrase(days as nat),
        None => "unknown"@,
    }
}

/// Where a candidate is.
pub open spec fn place_text(c: CandidateModel, home: Seq<char>) -> Seq<char> {
    match c.primary() {
        Some(path) => contracted(home, path),
        None => c.provider,
    }
}

/// How many paths a candidate has besides the first.
pub open spec fn extra_text(c: CandidateModel) -> Seq<char> {
    if c.paths.len() > 1 {
        " (+"@ + decimal((c.paths.len() - 1) as nat) + " more)"@
    } else {
        ""@
    }
}

/// What a candidate shares with others.
pub open spec fn shared_text(enabled: bool, c: CandidateModel) -> Seq<char> {
    match c.size {
        Some(size) => if size.shared > 0 {
            "  "@ + painted(enabled, "2"@, "["@ + bytes_spec(size.shared as nat) + " shared]"@)
        } else {
            ""@
        },
        None => ""@,
    }
}

/// One candidate as a single aligned line, with where it is and how it comes back below.
pub open spec fn row_text(enabled: bool, home: Seq<char>, c: CandidateModel) -> Seq<char> {
    "  "@ + painted(enabled, "1"@, padded_left(bytes_spec(c.freed() as nat), 9)) + "  "@
        + padded_right(painted(enabled, tier_code(c.tier), c.tier.name()), 9) + "  "@
        + padded_right(age_text(c), 14) + "  "@ + c.label + shared_text(enabled, c) + "\n      "@
        + painted(enabled, "2"@, ellipsize_spec(place_text(c, home) + extra_text(c), 60)) + "  "@
        + painted(enabled, "2"@, "→ "@) + painted(enabled, "2"@, c.regen.phrase())
}

fn candidate_row(candidate: &Candidate, paths: &Paths, style: &Style) -> (out: String)
    ensures
        out@ == row_text(style@, paths@.home, candidate@),
{
    let size = bytes_padded(candidate.reclaimable(), 9);
    let age = match candidate.last_used_days() {
        Some(days) => humanize_age(days),
        None => "unknown".to_owned(),
    };
    let place = match candidate.primary_path() {
        Some(path) => paths.contract(path),
        None => candidate.provider.clone(),
    };
    let total: usize = candidate.paths.len();
    assert(total == candidate@.paths.len());
    let extra = if total > 1 {
        " (+".to_owned().concat(decimal_text((total - 1) as u128).as_str()).concat(" more)")
    } else {
        "".to_owned()
    };
    let shared = match candidate.size {
        Some(size) => if size.shared > 0 {
            let note = "[".to_owned().concat(bytes(size.shared).as_str()).concat(" shared]");
            "  ".to_owned().concat(style.dim(note.as_str()).as_str())
        } else {
            "".to_owned()
        },
        None => "".to_owned(),
    };
    let shown = ellipsize(place.concat(extra.as_str()).as_str(), 60);
    "  ".to_owned().concat(style.bold(size.as_str()).as_str()).concat("  ").concat(
        pad_right(style.tier(candidate.tier).as_str(), 9).as_str(),
    ).concat("  ").concat(pad_right(age.as_str(), 14).as_str()).concat("  ").concat(
        candidate.label.as_str(),
    ).concat(shared.as_str()).concat("\n      ").concat(style.dim(shown.as_str()).as_str()).concat(
        "  ",
    ).concat(style.dim("→ ").as_str()).concat(
        style.dim(candidate.regen.summary().as_str()).as_str(),
    )
}

/// The rows of one group.
pub open spec fn group_rows(
    enabled: bool,
    home: Seq<char>,
    cs: Seq<CandidateModel>,
    group: Group,
) -> Seq<char>
    decreases cs.len(),
{
    if cs.len() == 0 {
        Seq::empty()
    } else {
        let before = group_rows(enabled, home, cs.drop_last(), group);
        if cs.last().group == group {
            before + (row_text(enabled, home, cs.last()) + "\n"@) + warning_lines(
                enabled,
                cs.last().warnings,
            )
        } else {
            before
        }
    }
}

fn write_group_rows(candidates: &Vec<Candidate>, group: Group, paths: &Paths, style: &Style) -> (out:
    String)
    ensures
        out@ == group_rows(style@, paths@.home, views(candidates@), group),
{
    let ghost all = views(candidates@);
    let mut out = String::new();
    let mut i: usize = 0;
    assert(out@ =~= group_rows(style@, paths@.home, all.take(0), group));
    while i < candidates.len()
        invariant
            i <= candidates@.len(),
            all == views(candidates@),
            out@ == group_rows(style@, paths@.home, all.take(i as int), group),
        decreases candidates@.len() - i,
    {
        assert(all.take(i + 1).drop_last() =~= all.take(i as int));
        assert(all.take(i + 1).last() == candidates@[i as int]@);
        if candidates[i].group == group {
            let row = candidate_row(&candidates[i], paths, style).concat("\n");
            out.append(row.as_str());
            out.append(write_warnings(&candidates[i].warnings, style).as_str());
        }
        i += 1;
    }
    assert(all.take(all.len() as int) =~= all);
    out
}

/// A heading with the rows of its group.
pub open spec fn group_part(
    enabled: bool,
    home: Seq<char>,
    cs: Seq<CandidateModel>,
    total: (Group, Size),
) -> Seq<char> {
    "\n"@ + painted(enabled, "1"@, total.0.heading()) + "  "@ + painted(
        enabled,
        "2"@,
        "("@ + bytes_spec(total.1.on_disk as nat) + ")"@,
    ) + "\n"@ + group_rows(enabled, home, cs, total.0)
}

/// All groups in order, so that each heading is printed exactly once.
pub open spec fn group_parts(
    enabled: bool,
    home: Seq<char>,
    cs: Seq<CandidateModel>,
    totals: Seq<(Group, Size)>,
) -> Seq<char>
    decreases totals.len(),
{
    if totals.len() == 0 {
        Seq::empty()
    } else {
        group_parts(enabled, home, cs, totals.drop_last()) + group_part(
            enabled,
            home,
            cs,
            totals.last(),
        )
    }
}

/// The note on what the filters hide.
pub open spec fn hidden_note(enabled: bool, hidden: Seq<CandidateModel>) -> Seq<char> {
    if hidden.len() > 0 {
        painted(
            enabled,
            "2"@,
            decimal(hidden.len()) + " more item(s) totalling "@ + bytes_spec(total_freed(hidden))
                + " hidden by the current filters. Use --all to include them."@,
        ) + "\n"@
    } else {
        ""@
    }
}

/// A candidate was measured incompletely.
pub open spec fn is_partial(c: CandidateModel) -> bool {
    match c.size {
        Some(size) => size.partial,
        None => false,
    }
}

/// One of the candidates was measured incompletely.
pub open spec fn any_partial(cs: Seq<CandidateModel>) -> bool {
    exists|i: int| 0 <= i < cs.len() && is_partial(#[trigger] cs[i])
}

/// The notes at the end of a scan. A partial walk never passes for an exact total.
pub open spec fn scan_notes(result: ScanResult) -> Seq<Seq<char>> {
    let first = seq![
        "scanned "@ + decimal(result.projects_scanned as nat) + " project(s) in "@ + seconds_spec(
            result.elapsed_ms as nat,
        ) + "s"@,
    ];
    let second = if result.unreadable@.len() > 0 {
        seq![
            decimal(result.unreadable@.len())
                + " director(ies) could not be read, so totals are a lower bound"@,
        ]
    } else {
        Seq::empty()
    };
    let third = if any_partial(views(result.candidates@)) {
        seq!["some sizes are incomplete"@]
    } else {
        Seq::empty()
    };
    first + second + third
}

/// The sums that a report shows fit.
pub open spec fn reportable(result: ScanResult) -> bool {
    &&& total_freed(hidden_among(views(result.all@), views(result.candidates@))) <= u64::MAX
    &&& total_freed(views(result.candidates@)) <= u64::MAX
    &&& forall|g: Group| group_fits(views(result.candidates@), g)
}

/// Whether the sums that a report shows fit.
pub fn is_reportable(result: &ScanResult) -> (r: bool)
    ensures
        r == reportable(*result),
{
    result.try_hidden().is_some() && freed_fits(&result.candidates) && groups_fit(
        &result.candidates,
    )
}

/// A scan report, with the groups in a given order.
pub open spec fn report_text(
    enabled: bool,
    home: Seq<char>,
    result: ScanResult,
    totals: Seq<(Group, Size)>,
) -> Seq<char> {
    let cs = views(result.candidates@);
    let note = hidden_note(enabled, hidden_among(views(result.all@), cs));
    if cs.len() == 0 {
        "Nothing to reclaim above the current size threshold.\n"@ + note
    } else {
        group_parts(enabled, home, cs, totals) + "\n"@ + painted(
            enabled,
            "1"@,
            "Total reclaimable: "@ + bytes_spec(total_freed(cs)),
        ) + "\n"@ + note + painted(enabled, "2"@, joined(scan_notes(result), " · "@)) + "\n"@
    }
}

/// The order in which a report lists groups: the largest first.
pub open spec fn is_report_order(result: ScanResult, totals: Seq<(Group, Size)>) -> bool {
    stably_sorted(
        group_sizes(views(result.candidates@), Group::every()),
        totals,
        |a: (Group, Size), b: (Group, Size)| larger_first(a, b),
    )
}

fn append_hidden_note(out: &mut String, result: &ScanResult, style: &Style)
    requires
        reportable(*result),
    ensures
        final(out)@ == old(out)@ + hidden_note(
            style@,
            hidden_among(views(result.all@), views(result.candidates@)),
        ),
{
    let (count, hidden_bytes) = result.hidden();
    if count > 0 {
        let note = decimal_text(count as u128).concat(" more item(s) totalling ").concat(
            bytes(hidden_bytes).as_str(),
        ).concat(" hidden by the current filters. Use --all to include them.");
        out.append(style.dim(note.as_str()).concat("\n").as_str());
    } else {
        out.append("");
    }
}

fn has_partial(candidates: &Vec<Candidate>) -> (r: bool)
    ensures
        r == any_partial(views(candidates@)),
{
    let mut i: usize = 0;
    while i < candidates.len()
        invariant
            i <= candidates@.len(),
            forall|k: int| 0 <= k < i ==> !is_partial(#[trigger] views(candidates@)[k]),
        decreases candidates@.len() - i,
    {
        assert(views(candidates@)[i as int] == candidates@[i as int]@);
        if let Some(size) = candidates[i].size {
            if size.partial {
                return true;
            }
        }
        i += 1;
    }
    false
}

fn footer_notes(result: &ScanResult) -> (notes: Vec<String>)
    ensures
        views(notes@) == scan_notes(*result),
{
    let mut notes: Vec<String> = Vec::new();
    assert(views(notes@) =~= Seq::<Seq<char>>::empty());
    notes.push(
        "scanned ".to_owned().concat(
            decimal_text(result.projects_scanned as u128).as_str(),
        ).concat(" project(s) in ").concat(seconds(result.elapsed_ms).as_str()).concat("s"),
    );
    if result.unreadable.len() > 0 {
        notes.push(
            decimal_text(result.unreadable.len() as u128).concat(
                " director(ies) could not be read, so totals are a lower bound",
            ),
        );
    }
    if has_partial(&result.candidates) {
        notes.push("some sizes are incomplete".to_owned());
    }
    assert(views(notes@) =~= scan_notes(*result));
    notes
}

/// The full scan report. The candidates arrive ranked by score, which interleaves ecosystems; they
/// are regrouped, the biggest ecosystem first and the best candidate first within it.
pub fn scan_report(result: &ScanResult, paths: &Paths, style: &Style) -> (out: String)
    requires
        reportable(*result),
    ensures
        exists|totals: Seq<(Group, Size)>| #[trigger]
            is_report_order(*result, totals) && out@ == report_text(
                style@,
                paths@.home,
                *result,
                totals,
            ),
{
    let totals = result.by_group();
    let ghost cs = views(result.candidates@);
    let ghost home = paths@.home;
    proof {
        assert(is_report_order(*result, totals@));
    }
    if result.candidates.len() == 0 {
        let mut out = "Nothing to reclaim above the current size threshold.\n".to_owned();
        append_hidden_note(&mut out, result, style);
        assert(cs.len() == 0);
        assert(out@ == report_text(style@, home, *result, totals@));
        return out;
    }
    let mut out = String::new();
    let mut i: usize = 0;
    assert(out@ =~= group_parts(style@, home, cs, totals@.take(0)));
    while i < totals.len()
        invariant
            i <= totals@.len(),
            cs == views(result.candidates@),
            home == paths@.home,
            out@ == group_parts(style@, home, cs, totals@.take(i as int)),
        decreases totals@.len() - i,
    {
        assert(totals@.take(i + 1).drop_last() =~= totals@.take(i as int));
        let (group, size) = totals[i];
        let shown = "(".to_owned().concat(bytes(size.on_disk).as_str()).concat(")");
        let part = "\n".to_owned().concat(style.bold(group.title()).as_str()).concat("  ").concat(
            style.dim(shown.as_str()).as_str(),
        ).concat("\n").concat(
            write_group_rows(&result.candidates, group, paths, style).as_str(),
        );
        out.append(part.as_str());
        i += 1;
    }
    assert(totals@.take(totals@.len() as int) =~= totals@);
    let total = "Total reclaimable: ".to_owned().concat(
        bytes(result.total_reclaimable()).as_str(),
    );
    out.append("\n");
    out.append(style.bold(total.as_str()).as_str());
    out.append("\n");
    append_hidden_note(&mut out, result, style);
    let notes = footer_notes(result);
    out.append(style.dim(join_text(&notes, " · ").as_str()).as_str());
    out.append("\n");
    assert(cs.len() > 0);
    out
}

/// The path of a candidate, where it has one.
pub open spec fn short_place(c: CandidateModel, home: Seq<char>) -> Seq<char> {
    match c.primary() {
        Some(path) => contracted(home, path),
        None => ""@,
    }
}

/// One line of a preview.
pub open spec fn preview_line(enabled: bool, home: Seq<char>, c: CandidateModel) -> Seq<char> {
    "  "@ + padded_left(bytes_spec(c.freed() as nat), 9) + "  "@ + padded_right(
        painted(enabled, tier_code(c.tier), c.tier.name()),
        9,
    ) + "  "@ + c.label + "  "@ + painted(
        enabled,
        "2"@,
        ellipsize_spec(short_place(c, home), 44),
    ) + "\n"@
}

/// A preview, line by line.
pub open spec fn preview_text(enabled: bool, home: Seq<char>, cs: Seq<CandidateModel>) -> Seq<char>
    decreases cs.len(),
{
    if cs.len() == 0 {
        Seq::empty()
    } else {
        preview_text(enabled, home, cs.drop_last()) + preview_line(enabled, home, cs.last())
    }
}

/// Compact one-line-per-item summary, shown before a confirmation.
pub fn clean_preview(candidates: &Vec<Candidate>, paths: &Paths, style: &Style) -> (out: String)
    ensures
        out@ == preview_text(style@, paths@.home, views(candidates@)),
{
    let ghost all = views(candidates@);
    let mut out = String::new();
    let mut i: usize = 0;
    assert(out@ =~= preview_text(style@, paths@.home, all.take(0)));
    while i < candidates.len()
        invariant
            i <= candidates@.len(),
            all == views(candidates@),
            out@ == preview_text(style@, paths@.home, all.take(i as int)),
        decreases candidates@.len() - i,
    {
        assert(all.take(i + 1).drop_last() =~= all.take(i as int));
        assert(all.take(i + 1).last() == candidates@[i as int]@);
        let c = &candidates[i];
        let place = match c.primary_path() {
            Some(path) => paths.contract(path),
            None => "".to_owned(),
        };
        let line = "  ".to_owned().concat(bytes_padded(c.reclaimable(), 9).as_str()).concat(
            "  ",
        ).concat(pad_right(style.tier(c.tier).as_str(), 9).as_str()).concat("  ").concat(
            c.label.as_str(),
        ).concat("  ").concat(
            style.dim(ellipsize(place.as_str(), 44).as_str()).as_str(),
        ).concat("\n");
        out.append(line.as_str());
        i += 1;
    }
    assert(all.take(all.len() as int) =~= all);
    out
}

/// The word for what became of an item, and its colour.
pub open spec fn outcome_mark(disposition: Disposition) -> (Seq<char>, Seq<char>) {
    match disposition {
        Disposition::Purged => ("removed"@, "32"@),
        Disposition::Trashed => ("trashed"@, "32"@),
        Disposition::CommandRun => ("cleaned"@, "32"@),
        Disposition::DryRun => ("would remove"@, "36"@),
        Disposition::Skipped => ("already gone"@, "2"@),
        Disposition::Failed => ("FAILED"@, "31"@),
    }
}

/// One item of a run, with its error below.
pub open spec fn outcome_line(enabled: bool, item: OutcomeModel) -> Seq<char> {
    let mark = outcome_mark(item.disposition);
    let amount = if item.disposition == Disposition::DryRun {
        item.expected_bytes
    } else {
        item.freed_bytes
    };
    let line = "  "@ + padded_right(painted(enabled, mark.1, mark.0), 14) + " "@ + padded_left(
        bytes_spec(amount as nat),
        9,
    ) + "  "@ + item.label + "\n"@;
    match item.error {
        Some(error) => line + "                 "@ + painted(enabled, "31"@, error) + "\n"@,
        None => line,
    }
}

/// The items of a run.
pub open spec fn outcome_lines(enabled: bool, items: Seq<OutcomeModel>) -> Seq<char>
    decreases items.len(),
{
    if items.len() == 0 {
        Seq::empty()
    } else {
        outcome_lines(enabled, items.drop_last()) + outcome_line(enabled, items.last())
    }
}

/// The report of a run. Trashed bytes have not been returned to the filesystem yet, and the report
/// says so.
pub open spec fn run_text(enabled: bool, run: RunModel) -> Seq<char> {
    let text = outcome_lines(enabled, run.items) + "\n"@ + painted(enabled, "1"@, run.line())
        + "\n"@;
    let trashed = trashed_by(run.items);
    if trashed > 0 {
        text + painted(
            enabled,
            "33"@,
            bytes_spec(trashed)
                + " is in the Trash and still occupies disk until you empty it."@,
        ) + "\n"@
    } else {
        text
    }
}

fn write_outcome(item: &ItemOutcome, style: &Style) -> (out: String)
    ensures
        out@ == outcome_line(style@, item@),
{
    let mark = match item.disposition {
        Disposition::Purged => style.green("removed"),
        Disposition::Trashed => style.green("trashed"),
        Disposition::CommandRun => style.green("cleaned"),
        Disposition::DryRun => style.cyan("would remove"),
        Disposition::Skipped => style.dim("already gone"),
        Disposition::Failed => style.red("FAILED"),
    };
    let amount: u64 = if item.disposition == Disposition::DryRun {
        item.expected_bytes
    } else {
        item.freed_bytes
    };
    let line = "  ".to_owned().concat(pad_right(mark.as_str(), 14).as_str()).concat(" ").concat(
        bytes_padded(amount, 9).as_str(),
    ).concat("  ").concat(item.label.as_str()).concat("\n");
    match &item.error {
        Some(error) => line.concat("                 ").concat(
            style.red(error.as_str()).as_str(),
        ).concat("\n"),
        None => line,
    }
}

/// Result of a completed run.
pub fn run_report(record: &RunRecord, style: &Style) -> (out: String)
    requires
        record@.line_fits(),
        trashed_by(record@.items) <= u64::MAX,
    ensures
        out@ == run_text(style@, record@),
{
    let ghost all = views(record.items@);
    let mut out = String::new();
    let mut i: usize = 0;
    assert(out@ =~= outcome_lines(style@, all.take(0)));
    while i < record.items.len()
        invariant
            i <= record.items@.len(),
            all == views(record.items@),
            out@ == outcome_lines(style@, all.take(i as int)),
        decreases record.items@.len() - i,
    {
        assert(all.take(i + 1).drop_last() =~= all.take(i as int));
        assert(all.take(i + 1).last() == record.items@[i as int]@);
        out.append(write_outcome(&record.items[i], style).as_str());
        i += 1;
    }
    assert(all.take(all.len() as int) =~= all);
    out.append("\n");
    out.append(style.bold(record.summary().as_str()).as_str());
    out.append("\n");
    let trashed: u64 = record.bytes_trashed();
    if trashed > 0 {
        let note = bytes(trashed).concat(
            " is in the Trash and still occupies disk until you empty it.",
        );
        out.append(style.yellow(note.as_str()).as_str());
        out.append("\n");
    }
    out
}

/// One run in the history table.
pub open spec fn history_line(run: RunModel, now: Moment) -> Seq<char> {
    padded_right(age_phrase(days_between(run.started_at, now)), 22) + " "@ + padded_right(
        run.trigger.name(),
        10,
    ) + " "@ + padded_right(bytes_spec(freed_by(run.items)), 10) + " "@ + run.line() + "\n"@
}

/// The runs of the history table.
pub open spec fn history_lines(runs: Seq<RunModel>, now: Moment) -> Seq<char>
    decreases runs.len(),
{
    if runs.len() == 0 {
        Seq::empty()
    } else {
        history_lines(runs.drop_last(), now) + history_line(runs.last(), now)
    }
}

/// The history table.
pub open spec fn history_text(enabled: bool, runs: Seq<RunModel>, now: Moment) -> Seq<char> {
    if runs.len() == 0 {
        "No runs recorded yet.\n"@
    } else {
        painted(
            enabled,
            "1"@,
            padded_right("WHEN"@, 22) + " "@ + padded_right("TRIGGER"@, 10) + " "@ + padded_right(
                "FREED"@,
                10,
            ) + " "@ + "DETAIL"@,
        ) + "\n"@ + history_lines(runs, now)
    }
}

/// The history table.
pub fn history_report(records: &Vec<RunRecord>, now: Moment, style: &Style) -> (out: String)
    requires
        forall|i: int|
            0 <= i < records@.len() ==> (#[trigger] records@[i])@.line_fits() && freed_by(
                records@[i]@.items,
            ) <= u64::MAX,
    ensures
        out@ == history_text(style@, views(records@), now),
{
    let ghost all = views(records@);
    if records.len() == 0 {
        assert(all.len() == 0);
        return "No runs recorded yet.\n".to_owned();
    }
    let heading = pad_right("WHEN", 22).concat(" ").concat(
        pad_right("TRIGGER", 10).as_str(),
    ).concat(" ").concat(pad_right("FREED", 10).as_str()).concat(" ").concat("DETAIL");
    let mut lines = String::new();
    let mut i: usize = 0;
    assert(lines@ =~= history_lines(all.take(0), now));
    while i < records.len()
        invariant
            i <= records@.len(),
            all == views(records@),
            forall|k: int|
                0 <= k < records@.len() ==> (#[trigger] records@[k])@.line_fits() && freed_by(
                    records@[k]@.items,
                ) <= u64::MAX,
            lines@ == history_lines(all.take(i as int), now),
        decreases records@.len() - i,
    {
        assert(all.take(i + 1).drop_last() =~= all.take(i as int));
        assert(all.take(i + 1).last() == records@[i as int]@);
        let record = &records[i];
        let line = pad_right(relative_time(record.started_at, now).as_str(), 22).concat(
            " ",
        ).concat(pad_right(record.trigger.label(), 10).as_str()).concat(" ").concat(
            pad_right(bytes(record.bytes_freed()).as_str(), 10).as_str(),
        ).concat(" ").concat(record.summary().as_str()).concat("\n");
        lines.append(line.as_str());
        i += 1;
    }
    assert(all.take(all.len() as int) =~= all);
    style.bold(heading.as_str()).concat("\n").concat(lines.as_str())
}

/// The measured groups are listed without repetition, and every group of a measured candidate
/// is among them.
proof fn lemma_group_sizes(cs: Seq<CandidateModel>, groups: Seq<Group>)
    requires
        groups.no_duplicates(),
    ensures
        forall|k: int|
            0 <= k < group_sizes(cs, groups).len() ==> groups.contains(
                (#[trigger] group_sizes(cs, groups)[k]).0,
            ),
        forall|k: int, l: int|
            0 <= k < l < group_sizes(cs, groups).len() ==> group_sizes(cs, groups)[k].0
                != group_sizes(cs, groups)[l].0,
        forall|g: Group| #[trigger]
            groups.contains(g) && group_size(cs, g) is Some ==> exists|k: int|
                0 <= k < group_sizes(cs, groups).len() && (#[trigger] group_sizes(cs, groups)[k]).0
                    == g,
    decreases groups.len(),
{
    if groups.len() > 0 {
        let before = groups.drop_last();
        let last = groups.last();
        let sizes = group_sizes(cs, groups);
        lemma_group_sizes(cs, before);
        assert(groups =~= before.push(last));
        assert(!before.contains(last)) by {
            if before.contains(last) {
                let k = before.index_of(last);
                assert(groups[k] == groups[groups.len() - 1]);
            }
        }
        assert forall|k: int| 0 <= k < sizes.len() implies groups.contains(
            (#[trigger] sizes[k]).0,
        ) by {
            if k < group_sizes(cs, before).len() {
                assert(sizes[k] == group_sizes(cs, before)[k]);
                let at = before.index_of(sizes[k].0);
                assert(groups[at] == sizes[k].0);
            } else {
                assert(groups[groups.len() - 1] == sizes[k].0);
            }
        }
        assert forall|k: int, l: int| 0 <= k < l < sizes.len() implies sizes[k].0
            != sizes[l].0 by {
            assert(sizes[k] == group_sizes(cs, before)[k]);
            if l < group_sizes(cs, before).len() {
                assert(sizes[l] == group_sizes(cs, before)[l]);
            }
        }
        assert forall|g: Group| #[trigger]
            groups.contains(g) && group_size(cs, g) is Some implies exists|k: int|
            0 <= k < sizes.len() && (#[trigger] sizes[k]).0 == g by {
            if g == last {
                assert(sizes[sizes.len() - 1].0 == g);
            } else {
                let at = groups.index_of(g);
                assert(before[at] == g);
                assert(before.contains(g));
                let k = choose|k: int|
                    0 <= k < group_sizes(cs, before).len() && (#[trigger] group_sizes(
                        cs,
                        before,
                    )[k]).0 == g;
                assert(sizes[k].0 == g);
            }
        }
    }
}

proof fn lemma_group_measured(cs: Seq<CandidateModel>, i: int)
    requires
        0 <= i < cs.len(),
        cs[i].size is Some,
    ensures
        group_size(cs, cs[i].group) is Some,
    decreases cs.len(),
{
    if i < cs.len() - 1 {
        lemma_group_measured(cs.drop_last(), i);
    }
}

/// Each ecosystem with a measured candidate has exactly one heading, and the headings go from the
/// largest ecosystem to the smallest.
pub proof fn each_heading_is_printed_once(
    result: ScanResult,
    totals: Seq<(Group, Size)>,
    i: int,
)
    requires
        is_report_order(result, totals),
        0 <= i < result.candidates@.len(),
        result.candidates@[i]@.size is Some,
    ensures
        exists|k: int|
            0 <= k < totals.len() && (#[trigger] totals[k]).0 == result.candidates@[i]@.group,
        forall|k: int, l: int| 0 <= k < l < totals.len() ==> totals[k].0 != totals[l].0,
        forall|k: int, l: int|
            0 <= k < l < totals.len() ==> totals[k].1.on_disk >= totals[l].1.on_disk,
{
    let cs = views(result.candidates@);
    let groups = Group::every();
    let before = group_sizes(cs, groups);
    let le = |a: (Group, Size), b: (Group, Size)| larger_first(a, b);
    let g = cs[i].group;
    assert(groups.no_duplicates());
    assert(groups[g.index()] == g);
    assert(groups.contains(g));
    lemma_group_sizes(cs, groups);
    lemma_group_measured(cs, i);
    let k = choose|k: int| 0 <= k < before.len() && (#[trigger] before[k]).0 == g;
    sorting_keeps_every_item(before, totals, le);
    before.to_multiset_ensures();
    totals.to_multiset_ensures();
    assert(before.contains(before[k]));
    assert(before.to_multiset().count(before[k]) > 0);
    assert(totals.to_multiset().count(before[k]) > 0);
    assert(totals.contains(before[k]));
    let at = totals.index_of(before[k]);
    assert(totals[at].0 == g);
    lemma_sorted_pairs(before, totals, le);
    let order = choose|order: Seq<int>|
        #[trigger] is_stable_order(before, le, order) && totals == arranged(before, order);
    assert forall|a: int, b: int| 0 <= a < b < totals.len() implies totals[a].0
        != totals[b].0 by {
        assert(order[a] != order[b]);
        if order[a] < order[b] {
            assert(before[order[a]].0 != before[order[b]].0);
        } else {
            assert(before[order[b]].0 != before[order[a]].0);
        }
    }
}

proof fn lemma_warning_printed(enabled: bool, warnings: Seq<WarningModel>, j: int)
    requires
        0 <= j < warnings.len(),
    ensures
        has_part(warning_lines(enabled, warnings), warnings[j].message),
    decreases warnings.len(),
{
    let message = warnings[j].message;
    let before = warning_lines(enabled, warnings.drop_last());
    let line = warning_line(enabled, warnings.last());
    if j < warnings.len() - 1 {
        lemma_warning_printed(enabled, warnings.drop_last(), j);
    } else {
        let code = severity_code(warnings.last().severity);
        let mark = "      "@ + painted(enabled, code, "!"@) + " "@;
        lemma_part_of_itself(message);
        if enabled {
            lemma_part_of_sum("\x1b["@ + code + "m"@, message, message);
            lemma_part_of_sum("\x1b["@ + code + "m"@ + message, "\x1b[0m"@, message);
        }
        lemma_part_of_sum(mark, painted(enabled, code, message), message);
        lemma_part_of_sum(mark + painted(enabled, code, message), "\n"@, message);
    }
    lemma_part_of_sum(before, line, message);
}

proof fn lemma_row_warns(
    enabled: bool,
    home: Seq<char>,
    cs: Seq<CandidateModel>,
    i: int,
    j: int,
)
    requires
        0 <= i < cs.len(),
        0 <= j < cs[i].warnings.len(),
    ensures
        has_part(group_rows(enabled, home, cs, cs[i].group), cs[i].warnings[j].message),
    decreases cs.len(),
{
    let message = cs[i].warnings[j].message;
    let group = cs[i].group;
    let before = group_rows(enabled, home, cs.drop_last(), group);
    let row = row_text(enabled, home, cs.last()) + "\n"@;
    let lines = warning_lines(enabled, cs.last().warnings);
    if i < cs.len() - 1 {
        lemma_row_warns(enabled, home, cs.drop_last(), i, j);
        lemma_part_of_sum(before, row, message);
    } else {
        lemma_warning_printed(enabled, cs.last().warnings, j);
    }
    lemma_part_of_sum(before + row, lines, message);
}

proof fn lemma_part_warns(
    enabled: bool,
    home: Seq<char>,
    cs: Seq<CandidateModel>,
    totals: Seq<(Group, Size)>,
    k: int,
    message: Seq<char>,
)
    requires
        0 <= k < totals.len(),
        has_part(group_rows(enabled, home, cs, totals[k].0), message),
    ensures
        has_part(group_parts(enabled, home, cs, totals), message),
    decreases totals.len(),
{
    let before = group_parts(enabled, home, cs, totals.drop_last());
    let total = totals.last();
    if k < totals.len() - 1 {
        lemma_part_warns(enabled, home, cs, totals.drop_last(), k, message);
    } else {
        let heading = "\n"@ + painted(enabled, "1"@, total.0.heading()) + "  "@ + painted(
            enabled,
            "2"@,
            "("@ + bytes_spec(total.1.on_disk as nat) + ")"@,
        ) + "\n"@;
        lemma_part_of_sum(heading, group_rows(enabled, home, cs, total.0), message);
    }
    lemma_part_of_sum(before, group_part(enabled, home, cs, total), message);
}

/// Every warning of a measured candidate that is shown is printed whole.
pub proof fn warnings_are_never_elided(
    enabled: bool,
    home: Seq<char>,
    result: ScanResult,
    totals: Seq<(Group, Size)>,
    i: int,
    j: int,
)
    requires
        is_report_order(result, totals),
        0 <= i < result.candidates@.len(),
        result.candidates@[i]@.size is Some,
        0 <= j < result.candidates@[i]@.warnings.len(),
    ensures
        has_part(
            report_text(enabled, home, result, totals),
            result.candidates@[i]@.warnings[j].message,
        ),
{
    let cs = views(result.candidates@);
    let message = cs[i].warnings[j].message;
    each_heading_is_printed_once(result, totals, i);
    let k = choose|k: int| 0 <= k < totals.len() && (#[trigger] totals[k]).0 == cs[i].group;
    lemma_row_warns(enabled, home, cs, i, j);
    lemma_part_warns(enabled, home, cs, totals, k, message);
    let parts = group_parts(enabled, home, cs, totals);
    let total = painted(enabled, "1"@, "Total reclaimable: "@ + bytes_spec(total_freed(cs)));
    let note = hidden_note(enabled, hidden_among(views(result.all@), cs));
    let end = painted(enabled, "2"@, joined(scan_notes(result), " · "@));
    lemma_part_of_sum(parts, "\n"@, message);
    lemma_part_of_sum(parts + "\n"@, total, message);
    lemma_part_of_sum(parts + "\n"@ + total, "\n"@, message);
    lemma_part_of_sum(parts + "\n"@ + total + "\n"@, note, message);
    lemma_part_of_sum(parts + "\n"@ + total + "\n"@ + note, end, message);
    lemma_part_of_sum(parts + "\n"@ + total + "\n"@ + note + end, "\n"@, message);
}

/// Without styling a text stands as it is; with it, it stands between its code and the reset.
pub proof fn styling_keeps_the_text(enabled: bool, code: Seq<char>, text: Seq<char>)
    ensures
        !enabled ==> painted(enabled, code, text) == text,
        enabled ==> painted(enabled, code, text) == "\x1b["@ + code + "m"@ + text + "\x1b[0m"@,
        has_part(painted(enabled, code, text), text),
        tier_code(Tier::Safe) == "32"@ && tier_code(Tier::Review) == "33"@,
        tier_code(Tier::Caution) == "31"@,
        severity_code(Severity::Info) == "2"@ && severity_code(Severity::Caution) == "33"@,
        severity_code(Severity::Danger) == "31"@,
{
    broadcast use group_parts_of_texts;
}

/// The row of a candidate shows what it frees, how risky it is, how old it is, what it is called,
/// what it shares and how it comes back.
pub proof fn a_row_shows_its_candidate(enabled: bool, home: Seq<char>, c: CandidateModel)
    ensures
        ({
            let row = row_text(enabled, home, c);
            &&& has_part(row, bytes_spec(c.freed() as nat))
            &&& has_part(row, c.tier.name())
            &&& c.signals is Some ==> has_part(
                row,
                age_phrase(c.signals->0.last_used_days as nat),
            )
            &&& c.signals is None ==> has_part(row, "unknown"@)
            &&& has_part(row, c.label)
            &&& c.size is Some && c.size->0.shared > 0 ==> has_part(
                row,
                "["@ + bytes_spec(c.size->0.shared as nat) + " shared]"@,
            )
            &&& has_part(row, c.regen.phrase())
            &&& c.paths.len() == 1 && contracted(home, c.paths[0]).len() <= 60 ==> has_part(
                row,
                contracted(home, c.paths[0]),
            )
        }),
{
    broadcast use group_parts_of_texts;
    let size = bytes_spec(c.freed() as nat);
    let tier = painted(enabled, tier_code(c.tier), c.tier.name());
    lemma_part_padded(size, 9, size);
    lemma_part_padded(tier, 9, c.tier.name());
    lemma_part_padded(age_text(c), 14, age_text(c));
    styling_keeps_the_text(enabled, "1"@, padded_left(size, 9));
    styling_keeps_the_text(enabled, tier_code(c.tier), c.tier.name());
    lemma_part_in_paint(enabled, "1"@, padded_left(size, 9), size);
    if c.paths.len() == 1 && contracted(home, c.paths[0]).len() <= 60 {
        let place = contracted(home, c.paths[0]);
        reveal_strlit("");
        assert(place_text(c, home) + extra_text(c) =~= place);
        assert(ellipsize_spec(place, 60) == place);
    }
}

proof fn lemma_part_padded(s: Seq<char>, width: nat, part: Seq<char>)
    requires
        has_part(s, part),
    ensures
        has_part(padded_left(s, width), part),
        has_part(padded_right(s, width), part),
{
    broadcast use group_parts_of_texts;
}

proof fn lemma_part_in_paint(enabled: bool, code: Seq<char>, text: Seq<char>, part: Seq<char>)
    requires
        has_part(text, part),
    ensures
        has_part(painted(enabled, code, text), part),
{
    broadcast use group_parts_of_texts;
}

/// Each candidate of a group has its row there, with its warnings behind it, in order; candidates
/// of other groups have none. Every group has its part.
pub proof fn every_candidate_has_its_row(
    enabled: bool,
    home: Seq<char>,
    cs: Seq<CandidateModel>,
    c: CandidateModel,
    group: Group,
    totals: Seq<(Group, Size)>,
    total: (Group, Size),
    w: WarningModel,
)
    ensures
        group_rows(enabled, home, Seq::empty(), group).len() == 0,
        c.group == group ==> group_rows(enabled, home, cs.push(c), group) == group_rows(
            enabled,
            home,
            cs,
            group,
        ) + (row_text(enabled, home, c) + "\n"@) + warning_lines(enabled, c.warnings),
        c.group != group ==> group_rows(enabled, home, cs.push(c), group) == group_rows(
            enabled,
            home,
            cs,
            group,
        ),
        group_parts(enabled, home, cs, Seq::empty()).len() == 0,
        group_parts(enabled, home, cs, totals.push(total)) == group_parts(enabled, home, cs, totals)
            + group_part(enabled, home, cs, total),
        has_part(group_part(enabled, home, cs, total), total.0.heading()),
        has_part(
            group_part(enabled, home, cs, total),
            "("@ + bytes_spec(total.1.on_disk as nat) + ")"@,
        ),
        has_part(
            group_part(enabled, home, cs, total),
            group_rows(enabled, home, cs, total.0),
        ),
        warning_lines(enabled, Seq::empty()).len() == 0,
        warning_lines(enabled, c.warnings.push(w)) == warning_lines(enabled, c.warnings)
            + warning_line(enabled, w),
        has_part(warning_line(enabled, w), w.message),
{
    broadcast use group_parts_of_texts;
    assert(cs.push(c).drop_last() =~= cs);
    assert(totals.push(total).drop_last() =~= totals);
    assert(c.warnings.push(w).drop_last() =~= c.warnings);
    styling_keeps_the_text(enabled, "1"@, total.0.heading());
}

/// A report says what can be had in all, what is hidden, and what may be missing.
pub proof fn a_report_says_what_is_left_out(
    enabled: bool,
    home: Seq<char>,
    result: ScanResult,
    totals: Seq<(Group, Size)>,
)
    ensures
        ({
            let text = report_text(enabled, home, result, totals);
            let cs = views(result.candidates@);
            let hidden = hidden_among(views(result.all@), cs);
            &&& cs.len() > 0 ==> has_part(text, "Total reclaimable: "@ + bytes_spec(total_freed(cs)))
            &&& cs.len() > 0 ==> has_part(text, group_parts(enabled, home, cs, totals))
            &&& cs.len() == 0 ==> has_part(
                text,
                "Nothing to reclaim above the current size threshold.\n"@,
            )
            &&& hidden.len() > 0 ==> has_part(
                text,
                decimal(hidden.len()) + " more item(s) totalling "@ + bytes_spec(
                    total_freed(hidden),
                ) + " hidden by the current filters. Use --all to include them."@,
            )
            &&& scan_notes(result).contains(
                "scanned "@ + decimal(result.projects_scanned as nat) + " project(s) in "@
                    + seconds_spec(result.elapsed_ms as nat) + "s"@,
            )
            &&& result.unreadable@.len() > 0 ==> scan_notes(result).contains(
                decimal(result.unreadable@.len())
                    + " director(ies) could not be read, so totals are a lower bound"@,
            )
            &&& scan_notes(result).contains("some sizes are incomplete"@) <== exists|i: int|
                0 <= i < cs.len() && (#[trigger] cs[i]).size is Some && cs[i].size->0.partial
        }),
{
    broadcast use group_parts_of_texts;
    let cs = views(result.candidates@);
    let hidden = hidden_among(views(result.all@), cs);
    if hidden.len() > 0 {
        let note = decimal(hidden.len()) + " more item(s) totalling "@ + bytes_spec(
            total_freed(hidden),
        ) + " hidden by the current filters. Use --all to include them."@;
        styling_keeps_the_text(enabled, "2"@, note);
        assert(has_part(hidden_note(enabled, hidden), note));
    }
    let notes = scan_notes(result);
    assert(notes[0] == "scanned "@ + decimal(result.projects_scanned as nat) + " project(s) in "@
        + seconds_spec(result.elapsed_ms as nat) + "s"@);
    if result.unreadable@.len() > 0 {
        assert(notes[1] == decimal(result.unreadable@.len())
            + " director(ies) could not be read, so totals are a lower bound"@);
    }
    if exists|i: int| 0 <= i < cs.len() && (#[trigger] cs[i]).size is Some && cs[i].size->0.partial {
        let i = choose|i: int|
            0 <= i < cs.len() && (#[trigger] cs[i]).size is Some && cs[i].size->0.partial;
        assert(is_partial(cs[i]));
        assert(any_partial(cs));
        assert(notes.last() == "some sizes are incomplete"@);
    }
}

/// The preview has a line for each candidate, which shows what it frees, its risk and its label.
pub proof fn every_candidate_is_previewed(
    enabled: bool,
    home: Seq<char>,
    cs: Seq<CandidateModel>,
    c: CandidateModel,
)
    ensures
        preview_text(enabled, home, Seq::empty()).len() == 0,
        preview_text(enabled, home, cs.push(c)) == preview_text(enabled, home, cs) + preview_line(
            enabled,
            home,
            c,
        ),
        has_part(preview_line(enabled, home, c), bytes_spec(c.freed() as nat)),
        has_part(preview_line(enabled, home, c), c.tier.name()),
        has_part(preview_line(enabled, home, c), c.label),
{
    broadcast use group_parts_of_texts;
    assert(cs.push(c).drop_last() =~= cs);
    let size = bytes_spec(c.freed() as nat);
    let tier = painted(enabled, tier_code(c.tier), c.tier.name());
    lemma_part_padded(size, 9, size);
    styling_keeps_the_text(enabled, tier_code(c.tier), c.tier.name());
    lemma_part_padded(tier, 9, c.tier.name());
}

/// The report of a run has a line for each of its items, which shows what came of it, the bytes
/// that a dry run would free or that were freed, and the error. It says what is in the Trash.
pub proof fn every_outcome_is_reported(
    enabled: bool,
    items: Seq<OutcomeModel>,
    item: OutcomeModel,
    run: RunModel,
)
    ensures
        outcome_lines(enabled, Seq::empty()).len() == 0,
        outcome_lines(enabled, items.push(item)) == outcome_lines(enabled, items) + outcome_line(
            enabled,
            item,
        ),
        has_part(outcome_line(enabled, item), item.label),
        has_part(
            outcome_line(enabled, item),
            match item.disposition {
                Disposition::Purged => "removed"@,
                Disposition::Trashed => "trashed"@,
                Disposition::CommandRun => "cleaned"@,
                Disposition::DryRun => "would remove"@,
                Disposition::Skipped => "already gone"@,
                Disposition::Failed => "FAILED"@,
            },
        ),
        item.disposition == Disposition::DryRun ==> has_part(
            outcome_line(enabled, item),
            bytes_spec(item.expected_bytes as nat),
        ),
        item.disposition != Disposition::DryRun ==> has_part(
            outcome_line(enabled, item),
            bytes_spec(item.freed_bytes as nat),
        ),
        item.error is Some ==> has_part(outcome_line(enabled, item), item.error->0),
        has_part(run_text(enabled, run), outcome_lines(enabled, run.items)),
        has_part(run_text(enabled, run), run.line()),
        trashed_by(run.items) > 0 ==> has_part(
            run_text(enabled, run),
            bytes_spec(trashed_by(run.items))
                + " is in the Trash and still occupies disk until you empty it."@,
        ),
{
    broadcast use group_parts_of_texts;
    assert(items.push(item).drop_last() =~= items);
    let mark = outcome_mark(item.disposition);
    styling_keeps_the_text(enabled, mark.1, mark.0);
    lemma_part_padded(painted(enabled, mark.1, mark.0), 14, mark.0);
    let expected = bytes_spec(item.expected_bytes as nat);
    let freed = bytes_spec(item.freed_bytes as nat);
    lemma_part_padded(expected, 9, expected);
    lemma_part_padded(freed, 9, freed);
    if item.error is Some {
        styling_keeps_the_text(enabled, "31"@, item.error->0);
    }
    styling_keeps_the_text(enabled, "1"@, run.line());
    styling_keeps_the_text(
        enabled,
        "33"@,
        bytes_spec(trashed_by(run.items))
            + " is in the Trash and still occupies disk until you empty it."@,
    );
}

/// The history has a line for each run, which shows when and by what it ran, what it freed and what
/// came of it.
pub proof fn every_run_is_in_the_history(runs: Seq<RunModel>, run: RunModel, now: Moment)
    ensures
        history_lines(Seq::empty(), now).len() == 0,
        history_lines(runs.push(run), now) == history_lines(runs, now) + history_line(run, now),
        has_part(history_line(run, now), age_phrase(days_between(run.started_at, now))),
        has_part(history_line(run, now), run.trigger.name()),
        has_part(history_line(run, now), bytes_spec(freed_by(run.items))),
        has_part(history_line(run, now), run.line()),
{
    broadcast use group_parts_of_texts;
    assert(runs.push(run).drop_last() =~= runs);
    let age = age_phrase(days_between(run.started_at, now));
    let freed = bytes_spec(freed_by(run.items));
    lemma_part_padded(age, 22, age);
    lemma_part_padded(run.trigger.name(), 10, run.trigger.name());
    lemma_part_padded(freed, 10, freed);
}

} // verus!
