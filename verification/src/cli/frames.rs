//! What the terminal UI shows: the text of each part of a frame, with how it looks.
use vstd::prelude::*;
use vstd::string::*;
use crate::cli::tui::{Ui, UiModel, lemma_chosen_total};
use crate::exec::{caution_items, needs_explicit_confirmation};
use crate::format::{bytes, bytes_padded, bytes_spec};
use crate::model::{
    Candidate, CandidateModel, Severity, Signals, Size, Tier, Warning, WarningModel, age_phrase,
    humanize_age,
};
use crate::platform::{Paths, contracted};
use crate::staleness::{total_freed, total_reclaimable};
use crate::text::{decimal, decimal_text, pad_right, padded_left, padded_right, views};

verus! {

broadcast use crate::text::lemma_views_push;

/// How a piece of text looks.
#[derive(Debug, Clone, Copy, PartialEq, Eq, Structural)]
pub enum Look {
    Plain,
    Bold,
    Green,
    Yellow,
    Red,
    RedBold,
    Cyan,
    Gray,
    DarkGray,
}

/// A piece of text, mostly a line.
#[derive(Debug, Clone)]
pub struct Piece {
    pub text: String,
    pub look: Look,
}

impl View for Piece {
    type V = (Seq<char>, Look);

    open spec fn view(&self) -> (Seq<char>, Look) {
        (self.text@, self.look)
    }
}

fn piece(text: &str, look: Look) -> (p: Piece)
    ensures
        p@ == (text@, look),
{
    Piece { text: text.to_owned(), look }
}

/// The look of a tier.
pub open spec fn tier_look(tier: Tier) -> Look {
    match tier {
        Tier::Safe => Look::Green,
        Tier::Review => Look::Yellow,
        Tier::Caution => Look::Red,
    }
}

fn look_of_tier(tier: Tier) -> (look: Look)
    ensures
        look == tier_look(tier),
{
    match tier {
        Tier::Safe => Look::Green,
        Tier::Review => Look::Yellow,
        Tier::Caution => Look::Red,
    }
}

/// The look of a severity.
pub open spec fn severity_look(severity: Severity) -> Look {
    match severity {
        Severity::Info => Look::Gray,
        Severity::Caution => Look::Yellow,
        Severity::Danger => Look::Red,
    }
}

fn look_of_severity(severity: Severity) -> (look: Look)
    ensures
        look == severity_look(severity),
{
    match severity {
        Severity::Info => Look::Gray,
        Severity::Caution => Look::Yellow,
        Severity::Danger => Look::Red,
    }
}

/// The header: what there is, what is selected, and whether a cleanup is for real.
pub open spec fn header_of(ui: UiModel) -> Seq<(Seq<char>, Look)> {
    seq![
        ("reclaim"@, Look::Bold),
        ("  "@, Look::Plain),
        (bytes_spec(total_freed(ui.candidates)) + " reclaimable"@, Look::Green),
        ("  ·  "@, Look::Plain),
        (
            decimal(ui.selected.len()) + " selected ("@ + bytes_spec(total_freed(ui.chosen()))
                + ")"@,
            Look::Cyan,
        ),
        (
            if ui.scanning && ui.scan_progress.1 > 0 {
                " · measuring "@ + decimal(ui.scan_progress.0 as nat) + "/"@ + decimal(
                    ui.scan_progress.1 as nat,
                )
            } else {
                ""@
            },
            Look::Plain,
        ),
        if ui.dry_run {
            ("  [DRY RUN]"@, Look::Yellow)
        } else {
            (""@, Look::Plain)
        },
    ]
}

/// The header line.
pub fn header(ui: &Ui) -> (line: Vec<Piece>)
    requires
        ui.wf(),
        total_freed(ui@.candidates) <= u64::MAX,
    ensures
        views(line@) == header_of(ui@),
{
    proof {
        views(ui.selected@).unique_seq_to_set();
        lemma_chosen_total(ui@.candidates, ui@.selected);
    }
    let total = bytes(total_reclaimable(&ui.candidates)).concat(" reclaimable");
    let selected = decimal_text(ui.selected.len() as u128).concat(" selected (").concat(
        bytes(ui.chosen_bytes()).as_str(),
    ).concat(")");
    let progress = if ui.scanning && ui.scan_progress.1 > 0 {
        " · measuring ".to_owned().concat(decimal_text(ui.scan_progress.0 as u128).as_str()).concat(
            "/",
        ).concat(decimal_text(ui.scan_progress.1 as u128).as_str())
    } else {
        "".to_owned()
    };
    let dry = if ui.dry_run {
        piece("  [DRY RUN]", Look::Yellow)
    } else {
        piece("", Look::Plain)
    };
    let line = vec![
        piece("reclaim", Look::Bold),
        piece("  ", Look::Plain),
        piece(total.as_str(), Look::Green),
        piece("  ·  ", Look::Plain),
        piece(selected.as_str(), Look::Cyan),
        piece(progress.as_str(), Look::Plain),
        dry,
    ];
    assert(views(line@) =~= header_of(ui@));
    line
}

/// The mark of the worst warning.
pub open spec fn warning_mark(worst: Option<Severity>) -> Seq<char> {
    match worst {
        Some(Severity::Danger) => "!!"@,
        Some(Severity::Caution) => "!"@,
        _ => ""@,
    }
}

/// The cells of a row: mark, size, tier, age, what, group, warnings.
pub open spec fn cells_of(c: CandidateModel, selected: bool, worst: Option<Severity>) -> Seq<
    (Seq<char>, Look),
> {
    seq![
        (
            if selected {
                "●"@
            } else {
                " "@
            },
            Look::Plain,
        ),
        (bytes_spec(c.freed() as nat), Look::Bold),
        (c.tier.name(), tier_look(c.tier)),
        (
            match c.age() {
                Some(days) => age_phrase(days as nat),
                None => "—"@,
            },
            Look::Plain,
        ),
        (c.label, Look::Plain),
        (c.group.heading(), Look::Plain),
        (warning_mark(worst), Look::Red),
    ]
}

/// The cells of a row.
pub fn row(candidate: &Candidate, selected: bool) -> (cells: Vec<Piece>)
    ensures
        exists|worst: Option<Severity>| #[trigger]
            candidate@.has_worst(worst) && views(cells@) == cells_of(candidate@, selected, worst),
{
    let worst = candidate.max_severity();
    let mark = if selected {
        "●"
    } else {
        " "
    };
    let age = match candidate.last_used_days() {
        Some(days) => humanize_age(days),
        None => "—".to_owned(),
    };
    let warn = match worst {
        Some(Severity::Danger) => "!!",
        Some(Severity::Caution) => "!",
        _ => "",
    };
    let cells = vec![
        piece(mark, Look::Plain),
        piece(bytes(candidate.reclaimable()).as_str(), Look::Bold),
        piece(candidate.tier.as_str(), look_of_tier(candidate.tier)),
        piece(age.as_str(), Look::Plain),
        piece(candidate.label.as_str(), Look::Plain),
        piece(candidate.group.title(), Look::Plain),
        piece(warn, Look::Red),
    ];
    assert(views(cells@) =~= cells_of(candidate@, selected, worst));
    cells
}

/// The title over the list.
pub open spec fn title_of(ui: UiModel) -> Seq<char> {
    if ui.editing_filter {
        " filter: "@ + ui.filter_text + "▌ "@
    } else if ui.filter_text.len() > 0 {
        " filter: "@ + ui.filter_text + " "@
    } else {
        " sorted by "@ + ui.sort.name() + " "@
    }
}

/// The title over the list.
pub fn title(ui: &Ui) -> (text: String)
    ensures
        text@ == title_of(ui@),
{
    if ui.editing_filter {
        " filter: ".to_owned().concat(ui.filter_text.as_str()).concat("▌ ")
    } else if ui.filter_text.as_str().unicode_len() > 0 {
        " filter: ".to_owned().concat(ui.filter_text.as_str()).concat(" ")
    } else {
        " sorted by ".to_owned().concat(ui.sort.label()).concat(" ")
    }
}

/// The footer: the status, and the keys that there are.
pub open spec fn footer_of(ui: UiModel) -> Seq<(Seq<char>, Look)> {
    seq![
        (ui.status, Look::Plain),
        (
            "space select · a all · n none · d clean · / filter · s sort · enter detail · p dry-run · ? help · q quit"@,
            Look::DarkGray,
        ),
    ]
}

/// The footer.
pub fn footer(ui: &Ui) -> (lines: Vec<Piece>)
    ensures
        views(lines@) == footer_of(ui@),
{
    let lines = vec![
        piece(ui.status.as_str(), Look::Plain),
        piece(
            "space select · a all · n none · d clean · / filter · s sort · enter detail · p dry-run · ? help · q quit",
            Look::DarkGray,
        ),
    ];
    assert(views(lines@) =~= footer_of(ui@));
    lines
}

/// What the detail screen says of a size.
pub open spec fn size_lines(size: Option<Size>) -> Seq<(Seq<char>, Look)> {
    match size {
        Some(size) => (if size.shared > 0 {
            seq![
                (
                    "Shared:        "@ + bytes_spec(size.shared as nat)
                        + " is hardlinked elsewhere and will not be freed"@,
                    Look::Yellow,
                ),
            ]
        } else {
            Seq::empty()
        }) + seq![("Files:         "@ + decimal(size.files as nat), Look::Plain)] + (
        if size.partial {
            seq![
                (
                    "Note:          this size is incomplete, so it is a lower bound"@,
                    Look::Yellow,
                ),
            ]
        } else {
            Seq::empty()
        }),
        None => Seq::empty(),
    }
}

fn show_size(size: Option<Size>) -> (lines: Vec<Piece>)
    ensures
        views(lines@) == size_lines(size),
{
    let mut lines: Vec<Piece> = Vec::new();
    if let Some(size) = size {
        if size.shared > 0 {
            let text = "Shared:        ".to_owned().concat(bytes(size.shared).as_str()).concat(
                " is hardlinked elsewhere and will not be freed",
            );
            lines.push(piece(text.as_str(), Look::Yellow));
        }
        let text = "Files:         ".to_owned().concat(decimal_text(size.files as u128).as_str());
        lines.push(piece(text.as_str(), Look::Plain));
        if size.partial {
            lines.push(
                piece(
                    "Note:          this size is incomplete, so it is a lower bound",
                    Look::Yellow,
                ),
            );
        }
    }
    assert(views(lines@) =~= size_lines(size));
    lines
}

/// What the detail screen says of the last use.
pub open spec fn signal_lines(signals: Option<Signals>) -> Seq<(Seq<char>, Look)> {
    match signals {
        Some(signals) => seq![
            (
                "Last used:     "@ + age_phrase(signals.last_used_days as nat) + " ("@ + decimal(
                    signals.last_used_days as nat,
                ) + " days)"@,
                Look::Plain,
            ),
        ] + (if signals.source_mtime is Some {
            seq![
                (
                    "               (derived from the owning project's source files, not the artifact)"@,
                    Look::Plain,
                ),
            ]
        } else {
            Seq::empty()
        }) + (if signals.active_now {
            seq![
                (
                    "Active:        touched in the last 24h — a build may be using it right now"@,
                    Look::Yellow,
                ),
            ]
        } else {
            Seq::empty()
        }),
        None => Seq::empty(),
    }
}

fn show_signals(signals: &Option<Signals>) -> (lines: Vec<Piece>)
    ensures
        views(lines@) == signal_lines(*signals),
{
    let mut lines: Vec<Piece> = Vec::new();
    if let Some(signals) = signals {
        let text = "Last used:     ".to_owned().concat(
            humanize_age(signals.last_used_days).as_str(),
        ).concat(" (").concat(decimal_text(signals.last_used_days as u128).as_str()).concat(
            " days)",
        );
        lines.push(piece(text.as_str(), Look::Plain));
        if signals.source_mtime.is_some() {
            lines.push(
                piece(
                    "               (derived from the owning project's source files, not the artifact)",
                    Look::Plain,
                ),
            );
        }
        if signals.active_now {
            lines.push(
                piece(
                    "Active:        touched in the last 24h — a build may be using it right now",
                    Look::Yellow,
                ),
            );
        }
    }
    assert(views(lines@) =~= signal_lines(*signals));
    lines
}

/// The paths, indented and relative to the home directory.
pub open spec fn path_list(paths: Seq<Seq<char>>, home: Seq<char>) -> Seq<(Seq<char>, Look)> {
    Seq::new(paths.len(), |i: int| ("  "@ + contracted(home, paths[i]), Look::Plain))
}

fn show_paths(candidate: &Candidate, paths: &Paths) -> (lines: Vec<Piece>)
    ensures
        views(lines@) == path_list(candidate@.paths, paths@.home),
{
    let ghost all = path_list(candidate@.paths, paths@.home);
    let mut lines: Vec<Piece> = Vec::new();
    let mut i: usize = 0;
    while i < candidate.paths.len()
        invariant
            i <= candidate.paths@.len(),
            all == path_list(views(candidate.paths@), paths@.home),
            lines@.len() == i,
            forall|k: int| 0 <= k < i ==> (#[trigger] lines@[k])@ == all[k],
        decreases candidate.paths@.len() - i,
    {
        assert(views(candidate.paths@)[i as int] == candidate.paths@[i as int]@);
        let text = "  ".to_owned().concat(paths.contract(candidate.paths[i].as_str()).as_str());
        lines.push(piece(text.as_str(), Look::Plain));
        i += 1;
    }
    assert(views(lines@) =~= all);
    lines
}

/// The warnings, as a list.
pub open spec fn warning_list(warnings: Seq<WarningModel>) -> Seq<(Seq<char>, Look)> {
    Seq::new(
        warnings.len(),
        |i: int| ("  • "@ + warnings[i].message, severity_look(warnings[i].severity)),
    )
}

fn show_warnings(warnings: &Vec<Warning>) -> (lines: Vec<Piece>)
    ensures
        views(lines@) == warning_list(views(warnings@)),
{
    let ghost all = warning_list(views(warnings@));
    let mut lines: Vec<Piece> = Vec::new();
    let mut i: usize = 0;
    while i < warnings.len()
        invariant
            i <= warnings@.len(),
            all == warning_list(views(warnings@)),
            lines@.len() == i,
            forall|k: int| 0 <= k < i ==> (#[trigger] lines@[k])@ == all[k],
        decreases warnings@.len() - i,
    {
        assert(views(warnings@)[i as int] == warnings@[i as int]@);
        let text = "  • ".to_owned().concat(warnings[i].message.as_str());
        lines.push(piece(text.as_str(), look_of_severity(warnings[i].severity)));
        i += 1;
    }
    assert(views(lines@) =~= all);
    lines
}

/// The detail screen: the full evidence for one candidate.
pub open spec fn detail_of(c: CandidateModel, home: Seq<char>) -> Seq<(Seq<char>, Look)> {
    seq![
        (c.label, Look::Bold),
        (c.detail, Look::Plain),
        (""@, Look::Plain),
        ("Size on disk:  "@ + bytes_spec(c.freed() as nat), Look::Plain),
    ] + size_lines(c.size) + signal_lines(c.signals) + seq![
        ("Risk:          "@ + c.tier.name(), Look::Plain),
        ("Comes back:    "@ + c.regen.phrase(), Look::Plain),
        (""@, Look::Plain),
        ("Paths"@, Look::Bold),
    ] + path_list(c.paths, home) + (if c.warnings.len() > 0 {
        seq![(""@, Look::Plain), ("Before you delete this"@, Look::Bold)] + warning_list(c.warnings)
    } else {
        Seq::empty()
    }) + seq![(""@, Look::Plain), ("any key to go back"@, Look::DarkGray)]
}

fn extend(lines: &mut Vec<Piece>, more: Vec<Piece>)
    ensures
        views(final(lines)@) == views(old(lines)@) + views(more@),
{
    let ghost before = views(lines@);
    let ghost added = views(more@);
    let mut more = more;
    lines.append(&mut more);
    assert(views(lines@) =~= before + added);
}

/// The detail screen.
pub fn detail(candidate: &Candidate, paths: &Paths) -> (lines: Vec<Piece>)
    ensures
        views(lines@) == detail_of(candidate@, paths@.home),
{
    let size = "Size on disk:  ".to_owned().concat(bytes(candidate.reclaimable()).as_str());
    let mut lines = vec![
        piece(candidate.label.as_str(), Look::Bold),
        piece(candidate.detail.as_str(), Look::Plain),
        piece("", Look::Plain),
        piece(size.as_str(), Look::Plain),
    ];
    assert(views(lines@) =~= seq![
        (candidate@.label, Look::Bold),
        (candidate@.detail, Look::Plain),
        (""@, Look::Plain),
        ("Size on disk:  "@ + bytes_spec(candidate@.freed() as nat), Look::Plain),
    ]);
    extend(&mut lines, show_size(candidate.size));
    extend(&mut lines, show_signals(&candidate.signals));
    let risk = "Risk:          ".to_owned().concat(candidate.tier.as_str());
    let back = "Comes back:    ".to_owned().concat(candidate.regen.summary().as_str());
    let middle = vec![
        piece(risk.as_str(), Look::Plain),
        piece(back.as_str(), Look::Plain),
        piece("", Look::Plain),
        piece("Paths", Look::Bold),
    ];
    assert(views(middle@) =~= seq![
        ("Risk:          "@ + candidate@.tier.name(), Look::Plain),
        ("Comes back:    "@ + candidate@.regen.phrase(), Look::Plain),
        (""@, Look::Plain),
        ("Paths"@, Look::Bold),
    ]);
    extend(&mut lines, middle);
    extend(&mut lines, show_paths(candidate, paths));
    let mut evidence: Vec<Piece> = Vec::new();
    assert(views(evidence@) =~= Seq::empty());
    if candidate.warnings.len() > 0 {
        evidence.push(piece("", Look::Plain));
        evidence.push(piece("Before you delete this", Look::Bold));
        assert(views(evidence@) =~= seq![
            (""@, Look::Plain),
            ("Before you delete this"@, Look::Bold),
        ]);
        extend(&mut evidence, show_warnings(&candidate.warnings));
    }
    extend(&mut lines, evidence);
    let last = vec![piece("", Look::Plain), piece("any key to go back", Look::DarkGray)];
    assert(views(last@) =~= seq![(""@, Look::Plain), ("any key to go back"@, Look::DarkGray)]);
    extend(&mut lines, last);
    lines
}

/// One line for each of the first candidates.
pub open spec fn chosen_lines(cs: Seq<CandidateModel>) -> Seq<(Seq<char>, Look)> {
    Seq::new(
        if cs.len() > 10 {
            10
        } else {
            cs.len()
        },
        |i: int|
            (
                "  "@ + padded_left(bytes_spec(cs[i].freed() as nat), 9) + "  "@ + padded_right(
                    cs[i].tier.name(),
                    8,
                ) + " "@ + cs[i].label,
                Look::Plain,
            ),
    )
}

fn show_chosen(chosen: &Vec<Candidate>) -> (lines: Vec<Piece>)
    ensures
        views(lines@) == chosen_lines(views(chosen@)),
{
    let ghost all = chosen_lines(views(chosen@));
    let end: usize = if chosen.len() > 10 {
        10
    } else {
        chosen.len()
    };
    let mut lines: Vec<Piece> = Vec::new();
    let mut i: usize = 0;
    while i < end
        invariant
            i <= end <= chosen@.len(),
            end == all.len(),
            all == chosen_lines(views(chosen@)),
            lines@.len() == i,
            forall|k: int| 0 <= k < i ==> (#[trigger] lines@[k])@ == all[k],
        decreases end - i,
    {
        assert(views(chosen@)[i as int] == chosen@[i as int]@);
        let c = &chosen[i];
        let text = "  ".to_owned().concat(bytes_padded(c.reclaimable(), 9).as_str()).concat(
            "  ",
        ).concat(pad_right(c.tier.as_str(), 8).as_str()).concat(" ").concat(c.label.as_str());
        lines.push(piece(text.as_str(), Look::Plain));
        i += 1;
    }
    assert(views(lines@) =~= all);
    lines
}

/// The warnings of all candidates, in red.
pub open spec fn danger_lines(cs: Seq<CandidateModel>) -> Seq<(Seq<char>, Look)>
    decreases cs.len(),
{
    if cs.len() == 0 {
        Seq::empty()
    } else {
        let warnings = cs.last().warnings;
        danger_lines(cs.drop_last()) + Seq::new(
            warnings.len(),
            |i: int| ("  • "@ + warnings[i].message, Look::Red),
        )
    }
}

fn show_dangers(items: &Vec<&Candidate>) -> (lines: Vec<Piece>)
    ensures
        views(lines@) == danger_lines(views(items@)),
{
    let ghost all = views(items@);
    let mut lines: Vec<Piece> = Vec::new();
    let mut i: usize = 0;
    assert(views(lines@) =~= danger_lines(all.take(0)));
    while i < items.len()
        invariant
            i <= items@.len(),
            all == views(items@),
            views(lines@) == danger_lines(all.take(i as int)),
        decreases items@.len() - i,
    {
        assert(all.take(i + 1).drop_last() =~= all.take(i as int));
        assert(all.take(i + 1).last() == items@[i as int]@);
        let warnings = &items[i].warnings;
        let ghost before = views(lines@);
        let ghost added = Seq::new(
            views(warnings@).len(),
            |j: int| ("  • "@ + views(warnings@)[j].message, Look::Red),
        );
        let mut k: usize = 0;
        assert(before + added.take(0) =~= before);
        while k < warnings.len()
            invariant
                k <= warnings@.len(),
                added == Seq::new(
                    views(warnings@).len(),
                    |j: int| ("  • "@ + views(warnings@)[j].message, Look::Red),
                ),
                views(lines@) == before + added.take(k as int),
            decreases warnings@.len() - k,
        {
            assert(views(warnings@)[k as int] == warnings@[k as int]@);
            assert(before + added.take(k + 1) =~= (before + added.take(k as int)).push(
                added[k as int],
            ));
            let text = "  • ".to_owned().concat(warnings[k].message.as_str());
            lines.push(piece(text.as_str(), Look::Red));
            k += 1;
        }
        assert(added.take(added.len() as int) =~= added);
        i += 1;
    }
    assert(all.take(all.len() as int) =~= all);
    lines
}

/// What the question says of items that may be irreplaceable: all of their warnings.
pub open spec fn caution_part(cs: Seq<CandidateModel>) -> Seq<(Seq<char>, Look)> {
    let items = caution_items(cs);
    if items.len() > 0 {
        seq![
            (""@, Look::Plain),
            (
                decimal(items.len()) + " caution-tier item(s) may be irreplaceable:"@,
                Look::RedBold,
            ),
        ] + danger_lines(items)
    } else {
        Seq::empty()
    }
}

/// The question before a cleanup.
pub open spec fn confirm_of(ui: UiModel) -> Seq<(Seq<char>, Look)> {
    let chosen = ui.chosen();
    seq![
        (
            "Reclaim "@ + bytes_spec(total_freed(chosen)) + " from "@ + decimal(chosen.len())
                + " item(s)?"@,
            Look::Bold,
        ),
        (""@, Look::Plain),
    ] + chosen_lines(chosen) + (if chosen.len() > 10 {
        seq![("  …and "@ + decimal((chosen.len() - 10) as nat) + " more"@, Look::Plain)]
    } else {
        Seq::empty()
    }) + caution_part(chosen) + seq![(""@, Look::Plain)] + (if ui.dry_run {
        seq![
            ("Dry-run mode is on: nothing will actually be removed."@, Look::Yellow),
        ]
    } else {
        Seq::empty()
    }) + seq![("y to confirm · any other key to cancel"@, Look::DarkGray)]
}

fn show_caution(chosen: &Vec<Candidate>) -> (lines: Vec<Piece>)
    ensures
        views(lines@) == caution_part(views(chosen@)),
{
    let items = needs_explicit_confirmation(chosen, true);
    assert(views(items@).len() == items@.len());
    let mut lines: Vec<Piece> = Vec::new();
    if items.len() > 0 {
        let text = decimal_text(items.len() as u128).concat(
            " caution-tier item(s) may be irreplaceable:",
        );
        lines.push(piece("", Look::Plain));
        lines.push(piece(text.as_str(), Look::RedBold));
        assert(views(lines@) =~= seq![
            (""@, Look::Plain),
            (
                decimal(caution_items(views(chosen@)).len())
                    + " caution-tier item(s) may be irreplaceable:"@,
                Look::RedBold,
            ),
        ]);
        extend(&mut lines, show_dangers(&items));
    } else {
        assert(views(lines@) =~= Seq::empty());
    }
    lines
}

/// The question before a cleanup.
pub fn confirm(ui: &Ui) -> (lines: Vec<Piece>)
    requires
        total_freed(ui@.chosen()) <= u64::MAX,
    ensures
        views(lines@) == confirm_of(ui@),
{
    let chosen = ui.chosen();
    let count: usize = chosen.len();
    assert(count == ui@.chosen().len());
    let question = "Reclaim ".to_owned().concat(bytes(ui.chosen_bytes()).as_str()).concat(
        " from ",
    ).concat(decimal_text(count as u128).as_str()).concat(" item(s)?");
    let mut lines = vec![piece(question.as_str(), Look::Bold), piece("", Look::Plain)];
    assert(views(lines@) =~= seq![
        (
            "Reclaim "@ + bytes_spec(total_freed(ui@.chosen())) + " from "@ + decimal(
                ui@.chosen().len(),
            ) + " item(s)?"@,
            Look::Bold,
        ),
        (""@, Look::Plain),
    ]);
    extend(&mut lines, show_chosen(&chosen));
    let mut rest: Vec<Piece> = Vec::new();
    if count > 10 {
        let text = "  …and ".to_owned().concat(decimal_text((count - 10) as u128).as_str()).concat(
            " more",
        );
        rest.push(piece(text.as_str(), Look::Plain));
    }
    assert(views(rest@) =~= if count > 10 {
        seq![("  …and "@ + decimal((count - 10) as nat) + " more"@, Look::Plain)]
    } else {
        Seq::empty()
    });
    extend(&mut lines, rest);
    extend(&mut lines, show_caution(&chosen));
    let gap = vec![piece("", Look::Plain)];
    assert(views(gap@) =~= seq![(""@, Look::Plain)]);
    extend(&mut lines, gap);
    let mut dry: Vec<Piece> = Vec::new();
    if ui.dry_run {
        dry.push(piece("Dry-run mode is on: nothing will actually be removed.", Look::Yellow));
    }
    assert(views(dry@) =~= if ui.dry_run {
        seq![("Dry-run mode is on: nothing will actually be removed."@, Look::Yellow)]
    } else {
        Seq::empty()
    });
    extend(&mut lines, dry);
    let last = vec![piece("y to confirm · any other key to cancel", Look::DarkGray)];
    assert(views(last@) =~= seq![("y to confirm · any other key to cancel"@, Look::DarkGray)]);
    extend(&mut lines, last);
    lines
}

/// The help screen: keys, then tiers, each with what it means.
pub open spec fn help_of() -> Seq<(Seq<char>, Seq<char>)> {
    seq![
        ("↑ ↓ / j k"@, "move"@),
        ("space"@, "select or deselect"@),
        ("a"@, "select all visible (never caution-tier)"@),
        ("n"@, "clear selection"@),
        ("enter"@, "show the full evidence for an item"@),
        ("d"@, "reclaim the selected items"@),
        ("p"@, "toggle dry-run mode"@),
        ("/"@, "filter by text"@),
        ("s"@, "cycle sort: score, size, age, name"@),
        ("q / esc"@, "quit"@),
        (""@, ""@),
        ("safe"@, "regenerates automatically"@),
        ("review"@, "costs a re-download or a rebuild"@),
        ("caution"@, "may be irreplaceable — read the warnings"@),
    ]
}

/// The pairs of a list of pairs of texts.
pub open spec fn pairs_of(pairs: Seq<(&'static str, &'static str)>) -> Seq<(Seq<char>, Seq<char>)> {
    Seq::new(pairs.len(), |i: int| (pairs[i].0@, pairs[i].1@))
}

/// The help screen.
pub fn help() -> (lines: Vec<(&'static str, &'static str)>)
    ensures
        pairs_of(lines@) == help_of(),
{
    let lines = vec![
        ("↑ ↓ / j k", "move"),
        ("space", "select or deselect"),
        ("a", "select all visible (never caution-tier)"),
        ("n", "clear selection"),
        ("enter", "show the full evidence for an item"),
        ("d", "reclaim the selected items"),
        ("p", "toggle dry-run mode"),
        ("/", "filter by text"),
        ("s", "cycle sort: score, size, age, name"),
        ("q / esc", "quit"),
        ("", ""),
        ("safe", "regenerates automatically"),
        ("review", "costs a re-download or a rebuild"),
        ("caution", "may be irreplaceable — read the warnings"),
    ];
    assert(pairs_of(lines@) =~= help_of());
    lines
}

/// The header says what can be had, what is chosen and what that comes to, how far a measurement
/// is, and that nothing will be removed where that is so.
pub proof fn the_header_tells_the_state(ui: UiModel)
    ensures
        header_of(ui).contains((bytes_spec(total_freed(ui.candidates)) + " reclaimable"@, Look::Green)),
        header_of(ui).contains(
            (
                decimal(ui.selected.len()) + " selected ("@ + bytes_spec(total_freed(ui.chosen()))
                    + ")"@,
                Look::Cyan,
            ),
        ),
        ui.scanning && ui.scan_progress.1 > 0 ==> header_of(ui).contains(
            (
                " · measuring "@ + decimal(ui.scan_progress.0 as nat) + "/"@ + decimal(
                    ui.scan_progress.1 as nat,
                ),
                Look::Plain,
            ),
        ),
        header_of(ui).contains(("  [DRY RUN]"@, Look::Yellow)) == ui.dry_run,
{
    let line = header_of(ui);
    assert(line[2] == (bytes_spec(total_freed(ui.candidates)) + " reclaimable"@, Look::Green));
    assert(line[4].1 == Look::Cyan);
    assert(line[5].1 == Look::Plain);
    if ui.dry_run {
        assert(line[6] == ("  [DRY RUN]"@, Look::Yellow));
    } else {
        assert(line.len() == 7);
        assert forall|i: int| 0 <= i < 7 implies line[i].1 != Look::Yellow by {
            assert(line[0].1 == Look::Bold && line[1].1 == Look::Plain && line[2].1 == Look::Green);
            assert(line[3].1 == Look::Plain && line[6].1 == Look::Plain);
        }
    }
}

/// A row shows that its candidate is chosen, what it frees, its risk, its age, its label and its
/// ecosystem, and how grave its warnings are.
pub proof fn the_cells_of_a_row_show_the_candidate(
    c: CandidateModel,
    selected: bool,
    worst: Option<Severity>,
)
    ensures
        ({
            let cells = cells_of(c, selected, worst);
            &&& cells.len() == 7
            &&& cells[0].0 == if selected { "●"@ } else { " "@ }
            &&& cells[1].0 == bytes_spec(c.freed() as nat)
            &&& cells[2].0 == c.tier.name()
            &&& c.tier == Tier::Safe ==> cells[2].1 == Look::Green
            &&& c.tier == Tier::Review ==> cells[2].1 == Look::Yellow
            &&& c.tier == Tier::Caution ==> cells[2].1 == Look::Red
            &&& c.signals is Some ==> cells[3].0 == age_phrase(c.signals->0.last_used_days as nat)
            &&& c.signals is None ==> cells[3].0 == "—"@
            &&& cells[4].0 == c.label
            &&& cells[5].0 == c.group.heading()
            &&& worst == Some(Severity::Danger) ==> cells[6].0 == "!!"@
            &&& worst == Some(Severity::Caution) ==> cells[6].0 == "!"@
            &&& worst == Some(Severity::Info) || worst is None ==> cells[6].0 == ""@
        }),
{
}

/// The title shows the filter that is typed or in force, and else the order.
pub proof fn the_title_shows_the_filter_or_the_order(ui: UiModel)
    ensures
        ui.editing_filter ==> title_of(ui) == " filter: "@ + ui.filter_text + "▌ "@,
        !ui.editing_filter && ui.filter_text.len() > 0 ==> title_of(ui) == " filter: "@
            + ui.filter_text + " "@,
        !ui.editing_filter && ui.filter_text.len() == 0 ==> title_of(ui) == " sorted by "@
            + ui.sort.name() + " "@,
{
}

/// The details show every path and every warning of a candidate, what it shares, and whether its
/// size is a lower bound or a build may be using it.
pub proof fn the_details_show_everything(c: CandidateModel, home: Seq<char>, i: int)
    ensures
        ({
            let lines = detail_of(c, home);
            &&& lines.contains((c.label, Look::Bold))
            &&& lines.contains((c.detail, Look::Plain))
            &&& lines.contains(("Size on disk:  "@ + bytes_spec(c.freed() as nat), Look::Plain))
            &&& lines.contains(("Risk:          "@ + c.tier.name(), Look::Plain))
            &&& lines.contains(("Comes back:    "@ + c.regen.phrase(), Look::Plain))
            &&& 0 <= i < c.paths.len() ==> lines.contains(
                ("  "@ + contracted(home, c.paths[i]), Look::Plain),
            )
            &&& 0 <= i < c.warnings.len() ==> lines.contains(
                (
                    "  • "@ + c.warnings[i].message,
                    match c.warnings[i].severity {
                        Severity::Info => Look::Gray,
                        Severity::Caution => Look::Yellow,
                        Severity::Danger => Look::Red,
                    },
                ),
            )
            &&& c.size is Some && c.size->0.shared > 0 ==> lines.contains(
                (
                    "Shared:        "@ + bytes_spec(c.size->0.shared as nat)
                        + " is hardlinked elsewhere and will not be freed"@,
                    Look::Yellow,
                ),
            )
            &&& c.size is Some ==> lines.contains(
                ("Files:         "@ + decimal(c.size->0.files as nat), Look::Plain),
            )
            &&& c.size is Some && c.size->0.partial ==> lines.contains(
                ("Note:          this size is incomplete, so it is a lower bound"@, Look::Yellow),
            )
            &&& c.signals is Some ==> lines.contains(
                (
                    "Last used:     "@ + age_phrase(c.signals->0.last_used_days as nat) + " ("@
                        + decimal(c.signals->0.last_used_days as nat) + " days)"@,
                    Look::Plain,
                ),
            )
            &&& c.signals is Some && c.signals->0.active_now ==> lines.contains(
                (
                    "Active:        touched in the last 24h — a build may be using it right now"@,
                    Look::Yellow,
                ),
            )
        }),
{
    broadcast use {lemma_line_before, lemma_line_behind};

    let first = seq![
        (c.label, Look::Bold),
        (c.detail, Look::Plain),
        (""@, Look::Plain),
        ("Size on disk:  "@ + bytes_spec(c.freed() as nat), Look::Plain),
    ];
    assert(first[0] == (c.label, Look::Bold));
    assert(first[1] == (c.detail, Look::Plain));
    assert(first[3] == ("Size on disk:  "@ + bytes_spec(c.freed() as nat), Look::Plain));
    let second = seq![
        ("Risk:          "@ + c.tier.name(), Look::Plain),
        ("Comes back:    "@ + c.regen.phrase(), Look::Plain),
        (""@, Look::Plain),
        ("Paths"@, Look::Bold),
    ];
    assert(second[0] == ("Risk:          "@ + c.tier.name(), Look::Plain));
    assert(second[1] == ("Comes back:    "@ + c.regen.phrase(), Look::Plain));
    if 0 <= i < c.paths.len() {
        assert(path_list(c.paths, home)[i] == ("  "@ + contracted(home, c.paths[i]), Look::Plain));
    }
    if 0 <= i < c.warnings.len() {
        assert(warning_list(c.warnings)[i] == (
            "  • "@ + c.warnings[i].message,
            severity_look(c.warnings[i].severity),
        ));
    }
    lemma_size_lines(c.size);
    lemma_signal_lines(c.signals);
}

broadcast proof fn lemma_line_before(
    a: Seq<(Seq<char>, Look)>,
    b: Seq<(Seq<char>, Look)>,
    line: (Seq<char>, Look),
)
    requires
        a.contains(line),
    ensures
        #[trigger] (a + b).contains(line),
{
    let i = choose|i: int| 0 <= i < a.len() && a[i] == line;
    assert((a + b)[i] == line);
}

broadcast proof fn lemma_line_behind(
    a: Seq<(Seq<char>, Look)>,
    b: Seq<(Seq<char>, Look)>,
    line: (Seq<char>, Look),
)
    requires
        b.contains(line),
    ensures
        #[trigger] (a + b).contains(line),
{
    let i = choose|i: int| 0 <= i < b.len() && b[i] == line;
    assert((a + b)[a.len() + i] == line);
}

proof fn lemma_size_lines(size: Option<Size>)
    ensures
        size is Some && size->0.shared > 0 ==> size_lines(size).contains(
            (
                "Shared:        "@ + bytes_spec(size->0.shared as nat)
                    + " is hardlinked elsewhere and will not be freed"@,
                Look::Yellow,
            ),
        ),
        size is Some ==> size_lines(size).contains(
            ("Files:         "@ + decimal(size->0.files as nat), Look::Plain),
        ),
        size is Some && size->0.partial ==> size_lines(size).contains(
            ("Note:          this size is incomplete, so it is a lower bound"@, Look::Yellow),
        ),
{
    if size is Some {
        let lines = size_lines(size);
        let n: int = if size->0.shared > 0 { 1 } else { 0 };
        if size->0.shared > 0 {
            assert(lines[0] == (
                "Shared:        "@ + bytes_spec(size->0.shared as nat)
                    + " is hardlinked elsewhere and will not be freed"@,
                Look::Yellow,
            ));
        }
        assert(lines[n] == ("Files:         "@ + decimal(size->0.files as nat), Look::Plain));
        if size->0.partial {
            assert(lines[n + 1] == (
                "Note:          this size is incomplete, so it is a lower bound"@,
                Look::Yellow,
            ));
        }
    }
}

proof fn lemma_signal_lines(signals: Option<Signals>)
    ensures
        signals is Some ==> signal_lines(signals).contains(
            (
                "Last used:     "@ + age_phrase(signals->0.last_used_days as nat) + " ("@
                    + decimal(signals->0.last_used_days as nat) + " days)"@,
                Look::Plain,
            ),
        ),
        signals is Some && signals->0.active_now ==> signal_lines(signals).contains(
            (
                "Active:        touched in the last 24h — a build may be using it right now"@,
                Look::Yellow,
            ),
        ),
{
    if signals is Some {
        let lines = signal_lines(signals);
        assert(lines[0] == (
            "Last used:     "@ + age_phrase(signals->0.last_used_days as nat) + " ("@ + decimal(
                signals->0.last_used_days as nat,
            ) + " days)"@,
            Look::Plain,
        ));
        if signals->0.active_now {
            assert(lines[lines.len() - 1] == (
                "Active:        touched in the last 24h — a build may be using it right now"@,
                Look::Yellow,
            ));
        }
    }
}

/// The question names what is at stake: the total, the first ten items and how many more there are,
/// each warning of each caution item, and that nothing will be removed where that is so.
pub proof fn the_question_names_what_is_at_stake(ui: UiModel, i: int, j: int)
    ensures
        ({
            let chosen = ui.chosen();
            let lines = confirm_of(ui);
            &&& lines[0] == (
                "Reclaim "@ + bytes_spec(total_freed(chosen)) + " from "@ + decimal(chosen.len())
                    + " item(s)?"@,
                Look::Bold,
            )
            &&& 0 <= i < chosen.len() && i < 10 ==> lines.contains(
                (
                    "  "@ + padded_left(bytes_spec(chosen[i].freed() as nat), 9) + "  "@
                        + padded_right(chosen[i].tier.name(), 8) + " "@ + chosen[i].label,
                    Look::Plain,
                ),
            )
            &&& chosen.len() > 10 ==> lines.contains(
                ("  …and "@ + decimal((chosen.len() - 10) as nat) + " more"@, Look::Plain),
            )
            &&& 0 <= i < chosen.len() && chosen[i].tier == Tier::Caution && 0 <= j
                < chosen[i].warnings.len() ==> lines.contains(
                ("  • "@ + chosen[i].warnings[j].message, Look::Red),
            )
            &&& ui.dry_run ==> lines.contains(
                ("Dry-run mode is on: nothing will actually be removed."@, Look::Yellow),
            )
        }),
{
    broadcast use {lemma_line_before, lemma_line_behind};

    let chosen = ui.chosen();
    if 0 <= i < chosen.len() && i < 10 {
        assert(chosen_lines(chosen)[i] == (
            "  "@ + padded_left(bytes_spec(chosen[i].freed() as nat), 9) + "  "@ + padded_right(
                chosen[i].tier.name(),
                8,
            ) + " "@ + chosen[i].label,
            Look::Plain,
        ));
    }
    if chosen.len() > 10 {
        let more = seq![("  …and "@ + decimal((chosen.len() - 10) as nat) + " more"@, Look::Plain)];
        assert(more[0] == ("  …and "@ + decimal((chosen.len() - 10) as nat) + " more"@, Look::Plain));
    }
    if ui.dry_run {
        let note = seq![("Dry-run mode is on: nothing will actually be removed."@, Look::Yellow)];
        assert(note[0].1 == Look::Yellow);
    }
    if 0 <= i < chosen.len() && chosen[i].tier == Tier::Caution && 0 <= j
        < chosen[i].warnings.len() {
        let items = caution_items(chosen);
        lemma_caution_found(chosen, i);
        let k = choose|k: int| 0 <= k < items.len() && items[k] == chosen[i];
        lemma_danger_lines(items, k, j);
        assert(caution_part(chosen).contains(("  • "@ + chosen[i].warnings[j].message, Look::Red)));
    }
}

proof fn lemma_caution_found(cs: Seq<CandidateModel>, i: int)
    requires
        0 <= i < cs.len(),
        cs[i].tier == Tier::Caution,
    ensures
        caution_items(cs).contains(cs[i]),
    decreases cs.len(),
{
    let before = cs.drop_last();
    let found = caution_items(cs);
    if i < before.len() {
        lemma_caution_found(before, i);
        let k = choose|k: int|
            0 <= k < caution_items(before).len() && caution_items(before)[k] == before[i];
        assert(found[k] == cs[i]);
    } else {
        assert(found[found.len() - 1] == cs[i]);
    }
}

proof fn lemma_danger_lines(cs: Seq<CandidateModel>, i: int, j: int)
    requires
        0 <= i < cs.len(),
        0 <= j < cs[i].warnings.len(),
    ensures
        danger_lines(cs).contains(("  • "@ + cs[i].warnings[j].message, Look::Red)),
    decreases cs.len(),
{
    broadcast use {lemma_line_before, lemma_line_behind};

    let line = ("  • "@ + cs[i].warnings[j].message, Look::Red);
    let before = cs.drop_last();
    let warnings = cs.last().warnings;
    let mine = Seq::new(warnings.len(), |k: int| ("  • "@ + warnings[k].message, Look::Red));
    if i < before.len() {
        lemma_danger_lines(before, i, j);
        assert(before[i] == cs[i]);
    } else {
        assert(mine[j] == line);
    }
    assert(danger_lines(cs) == danger_lines(before) + mine);
}

} // verus!
