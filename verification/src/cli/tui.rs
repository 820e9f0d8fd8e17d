//! The interactive terminal UI: its state, what keys and scan events do to it, and what it shows.
//!
//! The scan streams events into the UI, so that the list appears immediately and sizes fill in as
//! they are measured.
use vstd::prelude::*;
use vstd::string::*;
use crate::config::DeleteMode;
use crate::exec::{CleanOptions, caution_items};
use crate::format::{bytes, bytes_spec};
use crate::journal::{Disposition, ItemOutcome, OutcomeModel, RunModel, RunRecord, Trigger};
use crate::model::{Candidate, CandidateId, CandidateModel, Size, Tier};
use crate::pipeline::{EventModel, ScanEvent};
use crate::sort::{
    Descending, Ranked, arranged, is_stable_order, lemma_order_by_key, lemma_order_exists,
    lemma_sorted_pairs, lemma_sorted_with, sort_by_keys, sorting_has_one_result,
    sorting_keeps_every_item, stably_sorted,
};
use crate::staleness::{total_freed, total_reclaimable};
use crate::text::{
    Dup, chars_of, contains_part, decimal, decimal_text, dup_all, has_part, same, slice_text,
    text_le, views,
};

verus! {

broadcast use crate::text::lemma_views_push;

/// What the user is looking at.
#[derive(Debug, Clone, Copy, PartialEq, Eq, Structural)]
pub enum Screen {
    List,
    Detail,
    ConfirmClean,
    Help,
}

#[derive(Debug, Clone, Copy, PartialEq, Eq, Structural)]
pub enum Sort {
    Score,
    Size,
    Age,
    Name,
}

impl Sort {
    /// The sort after this one.
    pub open spec fn after(self) -> Sort {
        match self {
            Sort::Score => Sort::Size,
            Sort::Size => Sort::Age,
            Sort::Age => Sort::Name,
            Sort::Name => Sort::Score,
        }
    }

    pub fn next(self) -> (s: Self)
        ensures
            s == self.after(),
    {
        match self {
            Sort::Score => Sort::Size,
            Sort::Size => Sort::Age,
            Sort::Age => Sort::Name,
            Sort::Name => Sort::Score,
        }
    }

    pub open spec fn name(self) -> Seq<char> {
        match self {
            Sort::Score => "score"@,
            Sort::Size => "size"@,
            Sort::Age => "age"@,
            Sort::Name => "name"@,
        }
    }

    pub fn label(self) -> (s: &'static str)
        ensures
            s@ == self.name(),
    {
        match self {
            Sort::Score => "score",
            Sort::Size => "size",
            Sort::Age => "age",
            Sort::Name => "name",
        }
    }
}

/// A key, as far as the UI tells keys apart.
#[derive(Debug, Clone, Copy, PartialEq, Eq, Structural)]
pub enum Key {
    Char(char),
    Up,
    Down,
    PageUp,
    PageDown,
    Home,
    End,
    Enter,
    Esc,
    Backspace,
    Other,
}

#[derive(Debug, Clone, Copy, PartialEq, Eq, Structural)]
pub struct KeyPress {
    pub key: Key,
    /// Held together with the control key.
    pub control: bool,
}

/// What a key asks for besides a change of the UI.
#[derive(Debug, Clone, Copy, PartialEq, Eq, Structural)]
pub enum Effect {
    Nothing,
    /// Clean what is selected.
    Clean,
}

/// The state of the UI.
#[derive(Debug)]
pub struct Ui {
    pub candidates: Vec<Candidate>,
    /// The ids of the selected candidates, each once.
    pub selected: Vec<CandidateId>,
    pub cursor: usize,
    pub screen: Screen,
    pub sort: Sort,
    pub filter_text: String,
    pub editing_filter: bool,
    pub scanning: bool,
    pub scan_progress: (usize, usize),
    pub status: String,
    pub dry_run: bool,
    pub quit: bool,
}

pub struct UiModel {
    pub candidates: Seq<CandidateModel>,
    pub selected: Set<Seq<char>>,
    pub cursor: nat,
    pub screen: Screen,
    pub sort: Sort,
    pub filter_text: Seq<char>,
    pub editing_filter: bool,
    pub scanning: bool,
    pub scan_progress: (usize, usize),
    pub status: Seq<char>,
    pub dry_run: bool,
    pub quit: bool,
}

impl View for Ui {
    type V = UiModel;

    open spec fn view(&self) -> UiModel {
        UiModel {
            candidates: views(self.candidates@),
            selected: views(self.selected@).to_set(),
            cursor: self.cursor as nat,
            screen: self.screen,
            sort: self.sort,
            filter_text: self.filter_text@,
            editing_filter: self.editing_filter,
            scanning: self.scanning,
            scan_progress: self.scan_progress,
            status: self.status@,
            dry_run: self.dry_run,
            quit: self.quit,
        }
    }
}

/// The lowercase equivalent of a text.
pub uninterp spec fn lowercase(text: Seq<char>) -> Seq<char>;

/// `str::to_lowercase` of the standard library: the lowercase equivalent of the text, which
/// depends on the text alone.
#[verifier::external_body]
fn to_lowercase(text: &str) -> (out: String)
    ensures
        out@ == lowercase(text@),
{
    text.to_lowercase()
}

/// A lowercase needle is found in the lowercase label, provider or group of a row. An empty one is
/// found everywhere.
pub open spec fn shows_row(
    needle: Seq<char>,
    label: Seq<char>,
    provider: Seq<char>,
    title: Seq<char>,
) -> bool {
    needle.len() == 0 || has_part(label, needle) || has_part(provider, needle) || has_part(
        title,
        needle,
    )
}

/// Whether a lowercase needle is found in the lowercase texts of a row.
pub fn shows(needle: &str, label: &str, provider: &str, title: &str) -> (r: bool)
    ensures
        r == shows_row(needle@, label@, provider@, title@),
{
    needle.unicode_len() == 0 || contains_part(label, needle) || contains_part(provider, needle)
        || contains_part(title, needle)
}

/// The text filter lets a candidate pass.
pub open spec fn is_shown(filter_text: Seq<char>, c: CandidateModel) -> bool {
    shows_row(
        lowercase(filter_text),
        lowercase(c.label),
        lowercase(c.provider),
        lowercase(c.group.heading()),
    )
}

/// The candidates that the text filter lets pass.
pub open spec fn shown_of(cs: Seq<CandidateModel>, filter_text: Seq<char>) -> Seq<CandidateModel>
    decreases cs.len(),
{
    if cs.len() == 0 {
        Seq::empty()
    } else if is_shown(filter_text, cs.last()) {
        shown_of(cs.drop_last(), filter_text).push(cs.last())
    } else {
        shown_of(cs.drop_last(), filter_text)
    }
}

/// Where the bits of a floating-point number stand in the total order of such numbers.
pub open spec fn float_rank(bits: u64) -> int {
    if bits < 0x8000_0000_0000_0000 {
        bits as int
    } else {
        0x7fff_ffff_ffff_ffff - bits
    }
}

/// The number that a sort puts in descending order.
pub open spec fn sort_number(sort: Sort, c: CandidateModel) -> int {
    match sort {
        Sort::Score => float_rank(
            match c.score {
                Some(bits) => bits,
                None => 0,
            },
        ),
        Sort::Size => c.freed() as int,
        Sort::Age => match c.age() {
            Some(days) => days as int,
            None => 0,
        },
        Sort::Name => 0,
    }
}

/// The order of rows: names ascend, everything else descends.
pub open spec fn row_order(sort: Sort) -> spec_fn(CandidateModel, CandidateModel) -> bool {
    match sort {
        Sort::Name => |a: CandidateModel, b: CandidateModel| text_le(a.label, b.label),
        _ => |a: CandidateModel, b: CandidateModel| sort_number(sort, a) >= sort_number(sort, b),
    }
}

/// The rows in order, those of equal rank as they were.
pub open spec fn ordered(cs: Seq<CandidateModel>, sort: Sort) -> Seq<CandidateModel> {
    choose|rows: Seq<CandidateModel>| stably_sorted(cs, rows, row_order(sort))
}

/// The candidates whose ids are in a set.
pub open spec fn with_ids(cs: Seq<CandidateModel>, ids: Set<Seq<char>>) -> Seq<CandidateModel>
    decreases cs.len(),
{
    if cs.len() == 0 {
        Seq::empty()
    } else if ids.contains(cs.last().id) {
        with_ids(cs.drop_last(), ids).push(cs.last())
    } else {
        with_ids(cs.drop_last(), ids)
    }
}

/// The candidates whose ids are not in a list.
pub open spec fn leaving_out(cs: Seq<CandidateModel>, ids: Seq<Seq<char>>) -> Seq<CandidateModel>
    decreases cs.len(),
{
    if cs.len() == 0 {
        Seq::empty()
    } else if ids.contains(cs.last().id) {
        leaving_out(cs.drop_last(), ids)
    } else {
        leaving_out(cs.drop_last(), ids).push(cs.last())
    }
}

/// The ids of rows that a bulk selection takes: never one of the caution tier.
pub open spec fn bulk_ids(rows: Seq<CandidateModel>) -> Seq<Seq<char>>
    decreases rows.len(),
{
    if rows.len() == 0 {
        Seq::empty()
    } else if rows.last().tier != Tier::Caution {
        bulk_ids(rows.drop_last()).push(rows.last().id)
    } else {
        bulk_ids(rows.drop_last())
    }
}

/// The ids of what a run took away.
pub open spec fn taken_ids(items: Seq<OutcomeModel>) -> Seq<Seq<char>>
    decreases items.len(),
{
    if items.len() == 0 {
        Seq::empty()
    } else if items.last().disposition != Disposition::Failed {
        taken_ids(items.drop_last()).push(items.last().id)
    } else {
        taken_ids(items.drop_last())
    }
}

/// The candidates with the first one of that id replaced.
pub open spec fn replaced(cs: Seq<CandidateModel>, c: CandidateModel) -> Seq<CandidateModel>
    decreases cs.len(),
{
    if cs.len() == 0 {
        cs
    } else if cs[0].id == c.id {
        cs.update(0, c)
    } else {
        seq![cs[0]] + replaced(cs.skip(1), c)
    }
}

impl UiModel {
    /// A UI whose scan has just begun.
    pub open spec fn fresh() -> UiModel {
        UiModel {
            candidates: Seq::empty(),
            selected: Set::empty(),
            cursor: 0,
            screen: Screen::List,
            sort: Sort::Score,
            filter_text: Seq::empty(),
            editing_filter: false,
            scanning: true,
            scan_progress: (0, 0),
            status: "Scanning…"@,
            dry_run: false,
            quit: false,
        }
    }

    /// Rows currently shown: those that pass the text filter, in order.
    pub open spec fn rows(self) -> Seq<CandidateModel> {
        ordered(shown_of(self.candidates, self.filter_text), self.sort)
    }

    /// The row under the cursor.
    pub open spec fn current(self) -> Option<CandidateModel> {
        if self.cursor < self.rows().len() {
            Some(self.rows()[self.cursor as int])
        } else {
            None
        }
    }

    /// The selected candidates.
    pub open spec fn chosen(self) -> Seq<CandidateModel> {
        with_ids(self.candidates, self.selected)
    }

    /// The cursor moved, without leaving the list.
    pub open spec fn moved(self, delta: int) -> UiModel {
        let last = self.rows().len() - 1;
        let next = self.cursor + delta;
        UiModel {
            cursor: if last < 0 || next < 0 {
                0
            } else if next > last {
                last as nat
            } else {
                next as nat
            },
            ..self
        }
    }

    /// The current row selected, or no longer selected.
    pub open spec fn toggled(self) -> UiModel {
        match self.current() {
            Some(c) => UiModel {
                selected: if self.selected.contains(c.id) {
                    self.selected.remove(c.id)
                } else {
                    self.selected.insert(c.id)
                },
                ..self
            },
            None => self,
        }
    }

    /// Every row selected but those of the caution tier.
    pub open spec fn bulk_selected(self) -> UiModel {
        let skipped = caution_items(self.rows()).len();
        UiModel {
            selected: self.selected.union(bulk_ids(self.rows()).to_set()),
            status: if skipped > 0 {
                "Selected all visible except "@ + decimal(skipped) + " caution-tier item(s)"@
            } else {
                "Selected all visible"@
            },
            ..self
        }
    }

    /// A key typed into the filter box.
    pub open spec fn typed(self, key: Key) -> UiModel {
        let ui = UiModel { cursor: 0, ..self };
        match key {
            Key::Esc => UiModel { editing_filter: false, filter_text: Seq::empty(), ..ui },
            Key::Enter => UiModel { editing_filter: false, ..ui },
            Key::Backspace => if self.filter_text.len() > 0 {
                UiModel { filter_text: self.filter_text.drop_last(), ..ui }
            } else {
                ui
            },
            Key::Char(c) => UiModel { filter_text: self.filter_text.push(c), ..ui },
            _ => ui,
        }
    }

    /// A key pressed in the list.
    pub open spec fn listed(self, key: Key) -> UiModel {
        match key {
            Key::Char('q') | Key::Esc => UiModel { quit: true, ..self },
            Key::Up | Key::Char('k') => self.moved(-1),
            Key::Down | Key::Char('j') => self.moved(1),
            Key::PageUp => self.moved(-10),
            Key::PageDown => self.moved(10),
            Key::Home => UiModel { cursor: 0, ..self },
            Key::End => UiModel {
                cursor: if self.rows().len() > 0 {
                    (self.rows().len() - 1) as nat
                } else {
                    0
                },
                ..self
            },
            Key::Char(' ') => self.toggled(),
            Key::Char('a') => self.bulk_selected(),
            Key::Char('n') => UiModel {
                selected: Set::empty(),
                status: "Selection cleared"@,
                ..self
            },
            Key::Char('s') => UiModel { sort: self.sort.after(), cursor: 0, ..self },
            Key::Char('/') => UiModel { editing_filter: true, filter_text: Seq::empty(), ..self },
            Key::Enter => if self.current() is Some {
                UiModel { screen: Screen::Detail, ..self }
            } else {
                self
            },
            Key::Char('?') => UiModel { screen: Screen::Help, ..self },
            Key::Char('p') => UiModel {
                dry_run: !self.dry_run,
                status: if self.dry_run {
                    "Dry-run mode OFF"@
                } else {
                    "Dry-run mode ON"@
                },
                ..self
            },
            Key::Char('d') => if self.selected.len() == 0 {
                UiModel { status: "Nothing selected. Press space to select an item."@, ..self }
            } else {
                UiModel { screen: Screen::ConfirmClean, ..self }
            },
            _ => self,
        }
    }

    /// A key confirms a cleanup.
    pub open spec fn confirms(self, press: KeyPress) -> bool {
        &&& !self.editing_filter
        &&& !(press.control && press.key == Key::Char('c'))
        &&& self.screen == Screen::ConfirmClean
        &&& press.key == Key::Char('y') || press.key == Key::Char('Y')
    }

    /// What a key makes of the UI.
    pub open spec fn pressed(self, press: KeyPress) -> UiModel {
        if self.editing_filter {
            self.typed(press.key)
        } else if press.control && press.key == Key::Char('c') {
            UiModel { quit: true, ..self }
        } else {
            match self.screen {
                // Any key returns to the list from a read-only screen.
                Screen::Help | Screen::Detail => UiModel { screen: Screen::List, ..self },
                Screen::ConfirmClean => if self.confirms(press) {
                    UiModel { screen: Screen::List, ..self }
                } else {
                    UiModel {
                        screen: Screen::List,
                        status: "Cancelled. Nothing was removed."@,
                        ..self
                    }
                },
                Screen::List => self.listed(press.key),
            }
        }
    }

    /// What a scan event makes of the UI.
    pub open spec fn heard(self, event: EventModel) -> UiModel {
        match event {
            EventModel::ProjectsFound { count, .. } => UiModel {
                status: "Found "@ + decimal(count as nat) + " project(s), discovering caches…"@,
                ..self
            },
            EventModel::Discovered(candidates) => UiModel {
                candidates,
                status: "Measuring "@ + decimal(candidates.len()) + " item(s)…"@,
                ..self
            },
            EventModel::Measured { candidate, done, total } => UiModel {
                scan_progress: (done, total),
                candidates: replaced(self.candidates, candidate),
                ..self
            },
            EventModel::Complete(candidates) => UiModel {
                candidates,
                scanning: false,
                status: decimal(candidates.len()) + " item(s), "@ + bytes_spec(
                    total_freed(candidates),
                ) + " reclaimable"@,
                ..self
            },
        }
    }

    /// What a finished run makes of the UI: what went away is dropped, and what failed is kept, so
    /// that the user can see it.
    pub open spec fn cleaned(self, run: RunModel) -> UiModel {
        let taken = taken_ids(run.items);
        let ui = UiModel { status: run.line(), cursor: 0, ..self };
        if self.dry_run {
            ui
        } else {
            UiModel {
                candidates: leaving_out(self.candidates, taken),
                selected: self.selected.difference(taken.to_set()),
                ..ui
            }
        }
    }
}

fn holds_id(ids: &Vec<CandidateId>, id: &str) -> (r: bool)
    ensures
        r == views(ids@).contains(id@),
{
    let mut i: usize = 0;
    while i < ids.len()
        invariant
            i <= ids@.len(),
            forall|k: int| 0 <= k < i ==> #[trigger] views(ids@)[k] != id@,
        decreases ids@.len() - i,
    {
        assert(views(ids@)[i as int] == ids@[i as int]@);
        if same(ids[i].0.as_str(), id) {
            return true;
        }
        i += 1;
    }
    false
}

/// The ids without one of them.
fn drop_id(ids: &Vec<CandidateId>, id: &str) -> (out: Vec<CandidateId>)
    requires
        views(ids@).no_duplicates(),
    ensures
        views(out@).no_duplicates(),
        views(out@).to_set() == views(ids@).to_set().remove(id@),
{
    let mut doomed: Vec<CandidateId> = Vec::new();
    doomed.push(CandidateId(id.to_owned()));
    let out = drop_ids(ids, &doomed);
    assert(views(doomed@)[0] == id@);
    assert forall|x: Seq<char>| views(doomed@).contains(x) == (x == id@) by {
        if views(doomed@).contains(x) {
            let k = choose|k: int| 0 <= k < views(doomed@).len() && views(doomed@)[k] == x;
            assert(k == 0);
        }
    }
    assert(views(out@).to_set() =~= views(ids@).to_set().remove(id@));
    out
}

/// The ids without some of them.
fn drop_ids(ids: &Vec<CandidateId>, doomed: &Vec<CandidateId>) -> (out: Vec<CandidateId>)
    requires
        views(ids@).no_duplicates(),
    ensures
        views(out@).no_duplicates(),
        views(out@).to_set() == views(ids@).to_set().difference(views(doomed@).to_set()),
{
    let ghost all = views(ids@);
    let ghost gone = views(doomed@);
    let mut out: Vec<CandidateId> = Vec::new();
    let mut i: usize = 0;
    while i < ids.len()
        invariant
            i <= ids@.len(),
            all == views(ids@),
            all.no_duplicates(),
            gone == views(doomed@),
            views(out@).no_duplicates(),
            forall|x: Seq<char>|
                #[trigger] views(out@).contains(x) == (all.take(i as int).contains(x)
                    && !gone.contains(x)),
        decreases ids@.len() - i,
    {
        let ghost before = views(out@);
        let ghost id = ids@[i as int]@;
        assert(all[i as int] == id);
        assert(all.take(i + 1) =~= all.take(i as int).push(id));
        assert forall|x: Seq<char>| all.take(i + 1).contains(x) == (all.take(i as int).contains(x)
            || x == id) by {
            lemma_push_contains(all.take(i as int), id, x);
        }
        assert(!all.take(i as int).contains(id)) by {
            if all.take(i as int).contains(id) {
                let k = choose|k: int|
                    0 <= k < all.take(i as int).len() && all.take(i as int)[k] == id;
                assert(all[k] == all[i as int]);
            }
        }
        if !holds_id(doomed, ids[i].0.as_str()) {
            out.push(ids[i].dup());
            assert(views(out@) =~= before.push(id));
            assert forall|x: Seq<char>| #[trigger] views(out@).contains(x) == (before.contains(x)
                || x == id) by {
                lemma_push_contains(before, id, x);
            }
            assert(!before.contains(id));
        }
        i += 1;
    }
    assert(all.take(all.len() as int) =~= all);
    assert(views(out@).to_set() =~= all.to_set().difference(gone.to_set()));
    out
}

proof fn lemma_push_contains(s: Seq<Seq<char>>, y: Seq<char>, x: Seq<char>)
    ensures
        s.push(y).contains(x) == (s.contains(x) || x == y),
{
    let more = s.push(y);
    if s.contains(x) {
        let k = choose|k: int| 0 <= k < s.len() && s[k] == x;
        assert(more[k] == x);
    }
    if x == y {
        assert(more[s.len() as int] == x);
    }
}

fn rank_of_bits(bits: u64) -> (r: i128)
    ensures
        r == float_rank(bits),
{
    if bits < 0x8000_0000_0000_0000 {
        bits as i128
    } else {
        0x7fff_ffff_ffff_ffff - bits as i128
    }
}

impl Ui {
    /// Every selected id is listed once.
    pub open spec fn wf(&self) -> bool {
        views(self.selected@).no_duplicates()
    }

    pub fn new() -> (ui: Self)
        ensures
            ui.wf(),
            ui@ == UiModel::fresh(),
    {
        let ui = Ui {
            candidates: Vec::new(),
            selected: Vec::new(),
            cursor: 0,
            screen: Screen::List,
            sort: Sort::Score,
            filter_text: String::new(),
            editing_filter: false,
            scanning: true,
            scan_progress: (0, 0),
            status: "Scanning…".to_owned(),
            dry_run: false,
            quit: false,
        };
        assert(ui@.candidates =~= Seq::empty());
        assert(ui@.selected =~= Set::empty());
        assert(ui@.filter_text =~= Seq::empty());
        ui
    }

    fn shown(&self) -> (out: Vec<Candidate>)
        ensures
            views(out@) == shown_of(self@.candidates, self@.filter_text),
    {
        let needle = to_lowercase(self.filter_text.as_str());
        let ghost all = views(self.candidates@);
        let mut out: Vec<Candidate> = Vec::new();
        let mut i: usize = 0;
        assert(views(out@) =~= shown_of(all.take(0), self@.filter_text));
        while i < self.candidates.len()
            invariant
                i <= self.candidates@.len(),
                all == views(self.candidates@),
                needle@ == lowercase(self@.filter_text),
                views(out@) == shown_of(all.take(i as int), self@.filter_text),
            decreases self.candidates@.len() - i,
        {
            assert(all.take(i + 1).drop_last() =~= all.take(i as int));
            assert(all.take(i + 1).last() == self.candidates@[i as int]@);
            let c = &self.candidates[i];
            let label = to_lowercase(c.label.as_str());
            let provider = to_lowercase(c.provider.as_str());
            let title = to_lowercase(c.group.title());
            if shows(needle.as_str(), label.as_str(), provider.as_str(), title.as_str()) {
                out.push(c.dup());
            }
            i += 1;
        }
        assert(all.take(all.len() as int) =~= all);
        out
    }

    /// Rows currently shown, after the text filter.
    pub fn visible(&self) -> (rows: Vec<Candidate>)
        ensures
            views(rows@) == self@.rows(),
            stably_sorted(
                shown_of(self@.candidates, self@.filter_text),
                views(rows@),
                row_order(self@.sort),
            ),
    {
        let shown = self.shown();
        let rows = match self.sort {
            Sort::Name => by_name(&shown),
            _ => by_number(&shown, self.sort),
        };
        proof {
            sorting_has_one_result(
                views(shown@),
                views(rows@),
                self@.rows(),
                row_order(self.sort),
            );
        }
        rows
    }

    /// The row under the cursor.
    pub fn current(&self) -> (c: Option<Candidate>)
        ensures
            match c {
                Some(c) => self@.current() == Some(c@),
                None => self@.current() is None,
            },
    {
        let rows = self.visible();
        assert(views(rows@).len() == rows@.len());
        if self.cursor < rows.len() {
            assert(views(rows@)[self.cursor as int] == rows@[self.cursor as int]@);
            Some(rows[self.cursor].dup())
        } else {
            None
        }
    }

    fn is_selected(&self, id: &CandidateId) -> (r: bool)
        ensures
            r == self@.selected.contains(id@),
    {
        holds_id(&self.selected, id.0.as_str())
    }

    /// The selected candidates.
    pub fn chosen(&self) -> (out: Vec<Candidate>)
        ensures
            views(out@) == self@.chosen(),
    {
        let ghost all = views(self.candidates@);
        let mut out: Vec<Candidate> = Vec::new();
        let mut i: usize = 0;
        assert(views(out@) =~= with_ids(all.take(0), self@.selected));
        while i < self.candidates.len()
            invariant
                i <= self.candidates@.len(),
                all == views(self.candidates@),
                views(out@) == with_ids(all.take(i as int), self@.selected),
            decreases self.candidates@.len() - i,
        {
            assert(all.take(i + 1).drop_last() =~= all.take(i as int));
            assert(all.take(i + 1).last() == self.candidates@[i as int]@);
            if self.is_selected(&self.candidates[i].id) {
                out.push(self.candidates[i].dup());
            }
            i += 1;
        }
        assert(all.take(all.len() as int) =~= all);
        out
    }

    /// What the selected candidates add up to.
    pub fn chosen_bytes(&self) -> (n: u64)
        requires
            total_freed(self@.chosen()) <= u64::MAX,
        ensures
            n == total_freed(self@.chosen()),
    {
        total_reclaimable(&self.chosen())
    }

    /// Move the cursor. It cannot leave the list.
    pub fn move_cursor(&mut self, delta: i32)
        requires
            old(self).wf(),
        ensures
            final(self).wf(),
            final(self)@ == old(self)@.moved(delta as int),
    {
        let rows = self.visible();
        let len: usize = rows.len();
        assert(len == self@.rows().len());
        if len == 0 {
            self.cursor = 0;
            return;
        }
        let next: i128 = self.cursor as i128 + delta as i128;
        let last: i128 = len as i128 - 1;
        if next < 0 {
            self.cursor = 0;
        } else if next > last {
            self.cursor = len - 1;
        } else {
            self.cursor = next as usize;
        }
    }

    /// Select the current row, or no longer select it.
    pub fn toggle_current(&mut self)
        requires
            old(self).wf(),
        ensures
            final(self).wf(),
            final(self)@ == old(self)@.toggled(),
    {
        let ghost before = self@;
        if let Some(candidate) = self.current() {
            let id = candidate.id.dup();
            if self.is_selected(&id) {
                self.selected = drop_id(&self.selected, id.0.as_str());
            } else {
                let ghost ids = views(self.selected@);
                proof {
                    assert forall|x: Seq<char>| ids.push(id@).contains(x) == (ids.contains(x) || x
                        == id@) by {
                        lemma_push_contains(ids, id@, x);
                    }
                }
                self.selected.push(id);
                assert(views(self.selected@) =~= ids.push(id@));
                assert(self@.selected =~= before.selected.insert(id@));
            }
        }
    }

    /// Select every visible row, but never one of the caution tier: bulk selection must not sweep
    /// up something irreplaceable by accident.
    pub fn select_all_visible(&mut self)
        requires
            old(self).wf(),
        ensures
            final(self).wf(),
            final(self)@ == old(self)@.bulk_selected(),
    {
        let rows = self.visible();
        let ghost before = self@;
        let ghost all = views(rows@);
        let mut skipped: usize = 0;
        let mut i: usize = 0;
        assert(all.take(0) =~= Seq::empty());
        while i < rows.len()
            invariant
                i <= rows@.len(),
                all == views(rows@),
                self.wf(),
                self@ == (UiModel { selected: self@.selected, ..before }),
                forall|x: Seq<char>|
                    #[trigger] self@.selected.contains(x) == (before.selected.contains(x)
                        || bulk_ids(all.take(i as int)).contains(x)),
                skipped == caution_items(all.take(i as int)).len(),
                skipped <= i,
            decreases rows@.len() - i,
        {
            assert(all.take(i + 1).drop_last() =~= all.take(i as int));
            assert(all.take(i + 1).last() == rows@[i as int]@);
            let ghost ids = bulk_ids(all.take(i as int));
            let ghost id = rows@[i as int]@.id;
            if rows[i].tier == Tier::Caution {
                skipped += 1;
            } else {
                proof {
                    assert forall|x: Seq<char>| ids.push(id).contains(x) == (ids.contains(x) || x
                        == id) by {
                        lemma_push_contains(ids, id, x);
                    }
                }
                if !self.is_selected(&rows[i].id) {
                    let ghost listed = views(self.selected@);
                    let ghost was = self@.selected;
                    self.selected.push(rows[i].id.dup());
                    proof {
                        assert(views(self.selected@) =~= listed.push(id));
                        assert forall|x: Seq<char>| #[trigger] self@.selected.contains(x) == (
                        was.contains(x) || x == id) by {
                            lemma_push_contains(listed, id, x);
                        }
                    }
                }
            }
            i += 1;
        }
        assert(all.take(all.len() as int) =~= all);
        assert(self@.selected =~= before.selected.union(bulk_ids(all).to_set()));
        self.status = if skipped > 0 {
            "Selected all visible except ".to_owned().concat(
                decimal_text(skipped as u128).as_str(),
            ).concat(" caution-tier item(s)")
        } else {
            "Selected all visible".to_owned()
        };
    }

    /// Handle a key while the filter box has focus, and tell whether it has.
    ///
    /// It swallows keys that are otherwise actions: typing "d" into the filter must not start a
    /// delete.
    pub fn handle_filter_key(&mut self, key: Key) -> (consumed: bool)
        requires
            old(self).wf(),
        ensures
            final(self).wf(),
            consumed == old(self)@.editing_filter,
            final(self)@ == if consumed {
                old(self)@.typed(key)
            } else {
                old(self)@
            },
    {
        if !self.editing_filter {
            return false;
        }
        match key {
            Key::Esc => {
                self.editing_filter = false;
                self.filter_text = String::new();
                assert(self@.filter_text =~= Seq::empty());
            },
            Key::Enter => {
                self.editing_filter = false;
            },
            Key::Backspace => {
                let chars = chars_of(self.filter_text.as_str());
                let len: usize = chars.len();
                if len > 0 {
                    let text = slice_text(&chars, 0, len - 1);
                    assert(text@ =~= self@.filter_text.drop_last());
                    self.filter_text = text;
                }
            },
            Key::Char(c) => {
                self.filter_text.push(c);
            },
            _ => {},
        }
        self.cursor = 0;
        true
    }

    /// Handle a key, and tell what it asks for.
    pub fn handle_key(&mut self, press: KeyPress) -> (effect: Effect)
        requires
            old(self).wf(),
        ensures
            final(self).wf(),
            final(self)@ == old(self)@.pressed(press),
            effect == if old(self)@.confirms(press) {
                Effect::Clean
            } else {
                Effect::Nothing
            },
    {
        if self.handle_filter_key(press.key) {
            return Effect::Nothing;
        }
        if press.control && press.key == Key::Char('c') {
            self.quit = true;
            return Effect::Nothing;
        }
        match self.screen {
            Screen::Help | Screen::Detail => {
                self.screen = Screen::List;
                Effect::Nothing
            },
            Screen::ConfirmClean => {
                self.screen = Screen::List;
                if press.key == Key::Char('y') || press.key == Key::Char('Y') {
                    Effect::Clean
                } else {
                    self.status = "Cancelled. Nothing was removed.".to_owned();
                    Effect::Nothing
                }
            },
            Screen::List => {
                self.handle_list_key(press.key);
                Effect::Nothing
            },
        }
    }

    fn handle_list_key(&mut self, key: Key)
        requires
            old(self).wf(),
        ensures
            final(self).wf(),
            final(self)@ == old(self)@.listed(key),
    {
        match key {
            Key::Char('q') | Key::Esc => {
                self.quit = true;
            },
            Key::Up | Key::Char('k') => self.move_cursor(-1),
            Key::Down | Key::Char('j') => self.move_cursor(1),
            Key::PageUp => self.move_cursor(-10),
            Key::PageDown => self.move_cursor(10),
            Key::Home => {
                self.cursor = 0;
            },
            Key::End => {
                let rows = self.visible();
                let len: usize = rows.len();
                assert(len == self@.rows().len());
                self.cursor = if len > 0 {
                    len - 1
                } else {
                    0
                };
            },
            Key::Char(' ') => self.toggle_current(),
            Key::Char('a') => self.select_all_visible(),
            Key::Char('n') => {
                self.selected = Vec::new();
                assert(self@.selected =~= Set::empty());
                self.status = "Selection cleared".to_owned();
            },
            Key::Char('s') => {
                self.sort = self.sort.next();
                self.cursor = 0;
            },
            Key::Char('/') => {
                self.editing_filter = true;
                self.filter_text = String::new();
                assert(self@.filter_text =~= Seq::empty());
            },
            Key::Enter => {
                if self.current().is_some() {
                    self.screen = Screen::Detail;
                }
            },
            Key::Char('?') => {
                self.screen = Screen::Help;
            },
            Key::Char('p') => {
                self.dry_run = !self.dry_run;
                self.status = if self.dry_run {
                    "Dry-run mode ON".to_owned()
                } else {
                    "Dry-run mode OFF".to_owned()
                };
            },
            Key::Char('d') => {
                proof {
                    views(self.selected@).unique_seq_to_set();
                }
                if self.selected.len() == 0 {
                    self.status = "Nothing selected. Press space to select an item.".to_owned();
                } else {
                    self.screen = Screen::ConfirmClean;
                }
            },
            _ => {},
        }
    }

    /// Take in an event of the scan.
    pub fn hear(&mut self, event: ScanEvent)
        requires
            old(self).wf(),
            event@ matches EventModel::Complete(candidates) ==> total_freed(candidates)
                <= u64::MAX,
        ensures
            final(self).wf(),
            final(self)@ == old(self)@.heard(event@),
    {
        match event {
            ScanEvent::ProjectsFound { count, elapsed_ms } => {
                self.status = "Found ".to_owned().concat(decimal_text(count as u128).as_str()).concat(
                    " project(s), discovering caches…",
                );
            },
            ScanEvent::Discovered(candidates) => {
                let count: usize = candidates.len();
                assert(views(candidates@).len() == count);
                self.candidates = candidates;
                self.status = "Measuring ".to_owned().concat(
                    decimal_text(count as u128).as_str(),
                ).concat(" item(s)…");
            },
            ScanEvent::Measured { candidate, done, total } => {
                self.scan_progress = (done, total);
                self.candidates = replace_candidate(&self.candidates, &candidate);
            },
            ScanEvent::Complete(result) => {
                let count: usize = result.candidates.len();
                assert(views(result.candidates@).len() == count);
                self.candidates = dup_all(&result.candidates);
                self.scanning = false;
                self.status = decimal_text(count as u128).concat(" item(s), ").concat(
                    bytes(result.total_reclaimable()).as_str(),
                ).concat(" reclaimable");
            },
        }
    }

    /// How a confirmed cleanup runs.
    pub fn clean_options(&self, mode: DeleteMode, threads: usize) -> (o: CleanOptions)
        ensures
            o == (CleanOptions {
                dry_run: self@.dry_run,
                mode,
                trigger: Trigger::Tui,
                concurrency: threads,
            }),
    {
        CleanOptions { dry_run: self.dry_run, mode, trigger: Trigger::Tui, concurrency: threads }
    }

    /// Take in the outcome of a confirmed cleanup.
    pub fn finish_clean(&mut self, record: &RunRecord)
        requires
            old(self).wf(),
            record@.line_fits(),
        ensures
            final(self).wf(),
            final(self)@ == old(self)@.cleaned(record@),
    {
        self.status = record.summary();
        if !self.dry_run {
            let taken = taken_away(&record.items);
            self.candidates = leave_out(&self.candidates, &taken);
            self.selected = drop_ids(&self.selected, &taken);
        }
        self.cursor = 0;
    }
}

fn by_name(shown: &Vec<Candidate>) -> (rows: Vec<Candidate>)
    ensures
        stably_sorted(views(shown@), views(rows@), row_order(Sort::Name)),
{
    let mut keys: Vec<String> = Vec::new();
    let mut i: usize = 0;
    while i < shown.len()
        invariant
            i <= shown@.len(),
            keys@.len() == i,
            forall|k: int| 0 <= k < i ==> (#[trigger] keys@[k])@ == shown@[k]@.label,
        decreases shown@.len() - i,
    {
        keys.push(shown[i].label.clone());
        i += 1;
    }
    let rows = sort_by_keys(shown, &keys);
    proof {
        let key = |c: CandidateModel| c.label;
        let le = |a: Seq<char>, b: Seq<char>| <String as Ranked>::le(a, b);
        assert forall|k: int| 0 <= k < views(shown@).len() implies views(keys@)[k] == #[trigger] key(
            views(shown@)[k],
        ) by {
            assert(keys@[k]@ == shown@[k]@.label);
        }
        lemma_sorted_with(
            views(shown@),
            views(keys@),
            key,
            le,
            views(rows@),
            row_order(Sort::Name),
        );
    }
    rows
}

fn by_number(shown: &Vec<Candidate>, sort: Sort) -> (rows: Vec<Candidate>)
    requires
        sort != Sort::Name,
    ensures
        stably_sorted(views(shown@), views(rows@), row_order(sort)),
{
    let mut keys: Vec<Descending> = Vec::new();
    let mut i: usize = 0;
    while i < shown.len()
        invariant
            i <= shown@.len(),
            keys@.len() == i,
            forall|k: int| 0 <= k < i ==> (#[trigger] keys@[k])@ == sort_number(sort, shown@[k]@),
        decreases shown@.len() - i,
    {
        let c = &shown[i];
        let n: i128 = match sort {
            Sort::Score => rank_of_bits(
                match c.score {
                    Some(bits) => bits,
                    None => 0,
                },
            ),
            Sort::Size => c.reclaimable() as i128,
            Sort::Age => match c.last_used_days() {
                Some(days) => days as i128,
                None => 0,
            },
            Sort::Name => 0,
        };
        keys.push(Descending { n });
        i += 1;
    }
    let rows = sort_by_keys(shown, &keys);
    proof {
        let key = |c: CandidateModel| sort_number(sort, c);
        let le = |a: int, b: int| <Descending as Ranked>::le(a, b);
        assert forall|k: int| 0 <= k < views(shown@).len() implies views(keys@)[k] == #[trigger] key(
            views(shown@)[k],
        ) by {
            assert(keys@[k]@ == sort_number(sort, shown@[k]@));
        }
        lemma_sorted_with(views(shown@), views(keys@), key, le, views(rows@), row_order(sort));
    }
    rows
}

/// The selected candidates add up to no more than all of them.
pub proof fn lemma_chosen_total(cs: Seq<CandidateModel>, ids: Set<Seq<char>>)
    ensures
        total_freed(with_ids(cs, ids)) <= total_freed(cs),
        with_ids(cs, ids).len() <= cs.len(),
    decreases cs.len(),
{
    if cs.len() > 0 {
        lemma_chosen_total(cs.drop_last(), ids);
        let before = with_ids(cs.drop_last(), ids);
        assert(before.push(cs.last()).drop_last() =~= before);
    }
}

proof fn lemma_replaced_at(cs: Seq<CandidateModel>, at: int, c: CandidateModel)
    requires
        0 <= at <= cs.len(),
        forall|k: int| 0 <= k < at ==> (#[trigger] cs[k]).id != c.id,
        at < cs.len() ==> cs[at].id == c.id,
    ensures
        replaced(cs, c) == if at < cs.len() {
            cs.update(at, c)
        } else {
            cs
        },
    decreases at,
{
    if at > 0 {
        let rest = cs.skip(1);
        assert forall|k: int| 0 <= k < at - 1 implies (#[trigger] rest[k]).id != c.id by {
            assert(cs[k + 1].id != c.id);
        }
        assert(cs[0].id != c.id);
        lemma_replaced_at(rest, at - 1, c);
        if at < cs.len() {
            assert(seq![cs[0]] + rest.update(at - 1, c) =~= cs.update(at, c));
        } else {
            assert(seq![cs[0]] + rest =~= cs);
        }
    }
}

fn replace_candidate(candidates: &Vec<Candidate>, candidate: &Candidate) -> (out: Vec<Candidate>)
    ensures
        views(out@) == replaced(views(candidates@), candidate@),
{
    let ghost all = views(candidates@);
    let total: usize = candidates.len();
    let mut at: usize = 0;
    while at < total && !same(candidates[at].id.0.as_str(), candidate.id.0.as_str())
        invariant
            at <= total,
            total == candidates@.len(),
            all == views(candidates@),
            forall|k: int| 0 <= k < at ==> (#[trigger] all[k]).id != candidate@.id,
        decreases total - at,
    {
        assert(all[at as int] == candidates@[at as int]@);
        at += 1;
    }
    let mut out: Vec<Candidate> = Vec::new();
    let mut i: usize = 0;
    while i < total
        invariant
            i <= total,
            total == candidates@.len(),
            all == views(candidates@),
            out@.len() == i,
            forall|k: int|
                0 <= k < i ==> (#[trigger] out@[k])@ == if k == at {
                    candidate@
                } else {
                    all[k]
                },
        decreases total - i,
    {
        assert(all[i as int] == candidates@[i as int]@);
        if i == at {
            out.push(candidate.dup());
        } else {
            out.push(candidates[i].dup());
        }
        i += 1;
    }
    proof {
        if at < total {
            assert(all[at as int] == candidates@[at as int]@);
            assert(views(out@) =~= all.update(at as int, candidate@));
        } else {
            assert(views(out@) =~= all);
        }
        lemma_replaced_at(all, at as int, candidate@);
    }
    out
}

fn taken_away(items: &Vec<ItemOutcome>) -> (ids: Vec<CandidateId>)
    ensures
        views(ids@) == taken_ids(views(items@)),
{
    let ghost all = views(items@);
    let mut ids: Vec<CandidateId> = Vec::new();
    let mut i: usize = 0;
    assert(views(ids@) =~= taken_ids(all.take(0)));
    while i < items.len()
        invariant
            i <= items@.len(),
            all == views(items@),
            views(ids@) == taken_ids(all.take(i as int)),
        decreases items@.len() - i,
    {
        assert(all.take(i + 1).drop_last() =~= all.take(i as int));
        assert(all.take(i + 1).last() == items@[i as int]@);
        if items[i].disposition != Disposition::Failed {
            ids.push(items[i].id.dup());
        }
        i += 1;
    }
    assert(all.take(all.len() as int) =~= all);
    ids
}

fn leave_out(candidates: &Vec<Candidate>, ids: &Vec<CandidateId>) -> (out: Vec<Candidate>)
    ensures
        views(out@) == leaving_out(views(candidates@), views(ids@)),
{
    let ghost all = views(candidates@);
    let mut out: Vec<Candidate> = Vec::new();
    let mut i: usize = 0;
    assert(views(out@) =~= leaving_out(all.take(0), views(ids@)));
    while i < candidates.len()
        invariant
            i <= candidates@.len(),
            all == views(candidates@),
            views(out@) == leaving_out(all.take(i as int), views(ids@)),
        decreases candidates@.len() - i,
    {
        assert(all.take(i + 1).drop_last() =~= all.take(i as int));
        assert(all.take(i + 1).last() == candidates@[i as int]@);
        if !holds_id(ids, candidates[i].id.0.as_str()) {
            out.push(candidates[i].dup());
        }
        i += 1;
    }
    assert(all.take(all.len() as int) =~= all);
    out
}

proof fn lemma_bulk_ids(rows: Seq<CandidateModel>, id: Seq<char>)
    requires
        bulk_ids(rows).contains(id),
    ensures
        exists|i: int|
            0 <= i < rows.len() && (#[trigger] rows[i]).id == id && rows[i].tier != Tier::Caution,
    decreases rows.len(),
{
    if rows.len() > 0 {
        let fewer = rows.drop_last();
        let before = bulk_ids(fewer);
        let after = bulk_ids(rows);
        let k = choose|k: int| 0 <= k < after.len() && after[k] == id;
        if k < before.len() {
            assert(before[k] == id);
            lemma_bulk_ids(fewer, id);
            let i = choose|i: int|
                0 <= i < fewer.len() && (#[trigger] fewer[i]).id == id && fewer[i].tier
                    != Tier::Caution;
            assert(rows[i].id == id && rows[i].tier != Tier::Caution);
        } else {
            let last = rows.len() - 1;
            assert(rows[last].id == id && rows[last].tier != Tier::Caution);
        }
    }
}

/// Selecting everything in sight selects nothing of the caution tier: an id that it adds is that
/// of a visible row of another tier.
pub proof fn bulk_selection_spares_the_caution_tier(ui: UiModel, id: Seq<char>)
    requires
        ui.bulk_selected().selected.contains(id),
        !ui.selected.contains(id),
    ensures
        exists|i: int|
            0 <= i < ui.rows().len() && (#[trigger] ui.rows()[i]).id == id && ui.rows()[i].tier
                != Tier::Caution,
{
    lemma_bulk_ids(ui.rows(), id);
}

/// Wherever the cursor is moved, it stays in the list.
pub proof fn the_cursor_stays_in_the_list(ui: UiModel, delta: int)
    ensures
        ui.rows().len() > 0 ==> ui.moved(delta).cursor < ui.rows().len(),
        ui.rows().len() == 0 ==> ui.moved(delta).cursor == 0,
        ui.moved(delta).rows() == ui.rows(),
{
}

/// A key typed into the filter selects nothing, removes nothing and does not quit.
pub proof fn the_filter_swallows_every_key(ui: UiModel, press: KeyPress)
    requires
        ui.editing_filter,
    ensures
        !ui.confirms(press),
        ui.pressed(press).selected == ui.selected,
        ui.pressed(press).candidates == ui.candidates,
        ui.pressed(press).screen == ui.screen,
        ui.pressed(press).dry_run == ui.dry_run,
        ui.pressed(press).quit == ui.quit,
{
}

/// Nothing is cleaned but by a yes to the question that names what is selected.
pub proof fn cleaning_takes_a_yes(ui: UiModel, press: KeyPress)
    requires
        ui.confirms(press),
    ensures
        ui.screen == Screen::ConfirmClean,
        press.key == Key::Char('y') || press.key == Key::Char('Y'),
{
}

/// The question is reached only with something selected.
pub proof fn the_question_names_something(ui: UiModel, press: KeyPress)
    requires
        ui.screen != Screen::ConfirmClean,
        ui.pressed(press).screen == Screen::ConfirmClean,
    ensures
        ui.selected.len() > 0,
{
}

/// Selecting a row and selecting it again leaves the selection as it was.
pub proof fn toggling_twice_changes_nothing(ui: UiModel)
    ensures
        ui.toggled().toggled().selected == ui.selected,
{
    let once = ui.toggled();
    assert(once.rows() == ui.rows());
    if let Some(c) = ui.current() {
        assert(once.toggled().selected =~= ui.selected);
    }
}

/// The sorts come round.
pub proof fn sorts_come_round(sort: Sort)
    ensures
        sort.after().after().after().after() == sort,
{
}

/// A dry run takes nothing off the list.
pub proof fn a_dry_run_keeps_the_list(ui: UiModel, run: RunModel)
    requires
        ui.dry_run,
    ensures
        ui.cleaned(run).candidates == ui.candidates,
        ui.cleaned(run).selected == ui.selected,
{
}

proof fn lemma_ordered(cs: Seq<CandidateModel>, sort: Sort)
    ensures
        stably_sorted(cs, ordered(cs, sort), row_order(sort)),
{
    if sort == Sort::Name {
        let key = |c: CandidateModel| c.label;
        let le = |a: Seq<char>, b: Seq<char>| <String as Ranked>::le(a, b);
        let labels = cs.map_values(key);
        let order = lemma_order_exists::<String>(labels);
        lemma_order_by_key(cs, labels, key, le, order);
        assert((|a: CandidateModel, b: CandidateModel| le(key(a), key(b))) =~= row_order(sort));
        assert(is_stable_order(cs, row_order(sort), order));
        assert(stably_sorted(cs, arranged(cs, order), row_order(sort)));
    } else {
        let key = |c: CandidateModel| sort_number(sort, c);
        let le = |a: int, b: int| <Descending as Ranked>::le(a, b);
        let numbers = cs.map_values(key);
        let order = lemma_order_exists::<Descending>(numbers);
        lemma_order_by_key(cs, numbers, key, le, order);
        assert((|a: CandidateModel, b: CandidateModel| le(key(a), key(b))) =~= row_order(sort));
        assert(is_stable_order(cs, row_order(sort), order));
        assert(stably_sorted(cs, arranged(cs, order), row_order(sort)));
    }
}

proof fn lemma_shown_of(cs: Seq<CandidateModel>, filter_text: Seq<char>)
    ensures
        shown_of(cs, filter_text) == cs.filter(|c: CandidateModel| is_shown(filter_text, c)),
    decreases cs.len(),
{
    reveal(Seq::filter);
    if cs.len() > 0 {
        lemma_shown_of(cs.drop_last(), filter_text);
    } else {
        assert(shown_of(cs, filter_text) =~= cs);
    }
}

/// The rows are the candidates that the filter text stands in, whatever the case: in the label, the
/// provider or the title of the group. An empty text shows all of them. They are ordered by size or
/// by age, the largest and the oldest first, or by name.
pub proof fn rows_are_what_the_filter_finds(ui: UiModel)
    ensures
        ui.rows().to_multiset() == ui.candidates.filter(
            |c: CandidateModel|
                lowercase(ui.filter_text).len() == 0 || has_part(
                    lowercase(c.label),
                    lowercase(ui.filter_text),
                ) || has_part(lowercase(c.provider), lowercase(ui.filter_text)) || has_part(
                    lowercase(c.group.heading()),
                    lowercase(ui.filter_text),
                ),
        ).to_multiset(),
        ui.sort == Sort::Size ==> forall|i: int, j: int|
            0 <= i < j < ui.rows().len() ==> (#[trigger] ui.rows()[i]).freed() >= (
            #[trigger] ui.rows()[j]).freed(),
        ui.sort == Sort::Age ==> forall|i: int, j: int|
            0 <= i < j < ui.rows().len() && (#[trigger] ui.rows()[i]).signals is Some && (
            #[trigger] ui.rows()[j]).signals is Some ==> ui.rows()[i].signals->0.last_used_days
                >= ui.rows()[j].signals->0.last_used_days,
        ui.sort == Sort::Name ==> forall|i: int, j: int|
            0 <= i < j < ui.rows().len() ==> text_le(
                (#[trigger] ui.rows()[i]).label,
                (#[trigger] ui.rows()[j]).label,
            ),
        ui.sort == Sort::Score ==> forall|i: int, j: int|
            0 <= i < j < ui.rows().len() && (#[trigger] ui.rows()[i]).score is Some && (
            #[trigger] ui.rows()[j]).score is Some && ui.rows()[i].score->0
                < 0x8000_0000_0000_0000 && ui.rows()[j].score->0 < 0x8000_0000_0000_0000
                ==> ui.rows()[i].score->0 >= ui.rows()[j].score->0,
{
    let shown = shown_of(ui.candidates, ui.filter_text);
    lemma_shown_of(ui.candidates, ui.filter_text);
    lemma_ordered(shown, ui.sort);
    let rows = ui.rows();
    let le = row_order(ui.sort);
    sorting_keeps_every_item(shown, rows, le);
    lemma_sorted_pairs(shown, rows, le);
    let needle = lowercase(ui.filter_text);
    assert((|c: CandidateModel| is_shown(ui.filter_text, c)) =~= (|c: CandidateModel|
        needle.len() == 0 || has_part(lowercase(c.label), needle) || has_part(
            lowercase(c.provider),
            needle,
        ) || has_part(lowercase(c.group.heading()), needle)));
    assert forall|i: int, j: int| 0 <= i < j < rows.len() implies le(
        #[trigger] rows[i],
        #[trigger] rows[j],
    ) by {
    }
}

/// What is chosen is every candidate whose id is selected, in order, whether it is shown or not.
pub proof fn what_is_selected_is_chosen(ui: UiModel)
    ensures
        ui.chosen() == ui.candidates.filter(|c: CandidateModel| ui.selected.contains(c.id)),
{
    lemma_with_ids(ui.candidates, ui.selected);
}

proof fn lemma_with_ids(cs: Seq<CandidateModel>, ids: Set<Seq<char>>)
    ensures
        with_ids(cs, ids) == cs.filter(|c: CandidateModel| ids.contains(c.id)),
    decreases cs.len(),
{
    reveal(Seq::filter);
    if cs.len() > 0 {
        lemma_with_ids(cs.drop_last(), ids);
    } else {
        assert(with_ids(cs, ids) =~= cs);
    }
}

proof fn lemma_bulk_all(rows: Seq<CandidateModel>, i: int)
    requires
        0 <= i < rows.len(),
        rows[i].tier != Tier::Caution,
    ensures
        bulk_ids(rows).contains(rows[i].id),
    decreases rows.len(),
{
    let fewer = rows.drop_last();
    let before = bulk_ids(fewer);
    let now = bulk_ids(rows);
    if i < fewer.len() {
        lemma_bulk_all(fewer, i);
        let k = choose|k: int| 0 <= k < before.len() && before[k] == rows[i].id;
        assert(now[k] == rows[i].id);
    } else {
        assert(now[now.len() - 1] == rows[i].id);
    }
}

/// Selecting everything adds the id of every row that is not of the caution tier, and nothing else:
/// what was selected stays selected.
pub proof fn bulk_selection_takes_every_other_row(ui: UiModel, id: Seq<char>)
    ensures
        ui.bulk_selected().selected.contains(id) == (ui.selected.contains(id) || exists|i: int|
            0 <= i < ui.rows().len() && (#[trigger] ui.rows()[i]).id == id && ui.rows()[i].tier
                != Tier::Caution),
        ui.bulk_selected().candidates == ui.candidates,
        ui.bulk_selected().screen == ui.screen,
        ui.bulk_selected().cursor == ui.cursor,
{
    let rows = ui.rows();
    if bulk_ids(rows).contains(id) {
        lemma_bulk_ids(rows, id);
    }
    if exists|i: int|
        0 <= i < rows.len() && (#[trigger] rows[i]).id == id && rows[i].tier != Tier::Caution {
        let i = choose|i: int|
            0 <= i < rows.len() && (#[trigger] rows[i]).id == id && rows[i].tier != Tier::Caution;
        lemma_bulk_all(rows, i);
    }
}

/// Toggling changes the selection of the row under the cursor, and of nothing else.
pub proof fn toggling_changes_the_current_row(ui: UiModel, id: Seq<char>)
    ensures
        ui.cursor < ui.rows().len() && ui.rows()[ui.cursor as int].id == id
            ==> ui.toggled().selected.contains(id) != ui.selected.contains(id),
        ui.cursor >= ui.rows().len() || ui.rows()[ui.cursor as int].id != id
            ==> ui.toggled().selected.contains(id) == ui.selected.contains(id),
        ui.toggled().candidates == ui.candidates,
        ui.toggled().cursor == ui.cursor,
{
}

/// The cursor moves by what it is asked to, as far as there are rows.
pub proof fn the_cursor_moves_as_asked(ui: UiModel, delta: int)
    ensures
        0 <= ui.cursor + delta < ui.rows().len() ==> ui.moved(delta).cursor == ui.cursor + delta,
        ui.cursor + delta < 0 ==> ui.moved(delta).cursor == 0,
        ui.rows().len() > 0 && ui.cursor + delta >= ui.rows().len() ==> ui.moved(delta).cursor
            == ui.rows().len() - 1,
        ui.moved(delta).selected == ui.selected,
{
}

proof fn lemma_taken(items: Seq<OutcomeModel>, id: Seq<char>)
    ensures
        taken_ids(items).contains(id) == (exists|i: int|
            0 <= i < items.len() && (#[trigger] items[i]).id == id && items[i].disposition
                != Disposition::Failed),
    decreases items.len(),
{
    if items.len() > 0 {
        let fewer = items.drop_last();
        let last = items.last();
        lemma_taken(fewer, id);
        let before = taken_ids(fewer);
        if last.disposition != Disposition::Failed {
            lemma_push_contains(before, last.id, id);
        }
        if exists|i: int|
            0 <= i < fewer.len() && (#[trigger] fewer[i]).id == id && fewer[i].disposition
                != Disposition::Failed {
            let i = choose|i: int|
                0 <= i < fewer.len() && (#[trigger] fewer[i]).id == id && fewer[i].disposition
                    != Disposition::Failed;
            assert(items[i].id == id);
        }
        if exists|i: int|
            0 <= i < items.len() && (#[trigger] items[i]).id == id && items[i].disposition
                != Disposition::Failed {
            let i = choose|i: int|
                0 <= i < items.len() && (#[trigger] items[i]).id == id && items[i].disposition
                    != Disposition::Failed;
            if i < fewer.len() {
                assert(fewer[i].id == id);
            }
        }
        if last.id == id && last.disposition != Disposition::Failed {
            assert(items[items.len() - 1].id == id);
        }
    }
}

proof fn lemma_leaving_out(cs: Seq<CandidateModel>, ids: Seq<Seq<char>>)
    ensures
        leaving_out(cs, ids) == cs.filter(|c: CandidateModel| !ids.contains(c.id)),
    decreases cs.len(),
{
    reveal(Seq::filter);
    if cs.len() > 0 {
        lemma_leaving_out(cs.drop_last(), ids);
    } else {
        assert(leaving_out(cs, ids) =~= cs);
    }
}

/// After a cleanup that was no dry run the list and the selection lose what did not fail, and
/// nothing else; what failed stays to be tried again.
pub proof fn a_cleanup_takes_what_did_not_fail(ui: UiModel, run: RunModel, id: Seq<char>)
    requires
        !ui.dry_run,
    ensures
        ui.cleaned(run).candidates == ui.candidates.filter(
            |c: CandidateModel|
                forall|i: int|
                    0 <= i < run.items.len() && (#[trigger] run.items[i]).id == c.id
                        ==> run.items[i].disposition == Disposition::Failed,
        ),
        ui.cleaned(run).selected.contains(id) == (ui.selected.contains(id) && forall|i: int|
            0 <= i < run.items.len() && (#[trigger] run.items[i]).id == id
                ==> run.items[i].disposition == Disposition::Failed),
        ui.cleaned(run).status == run.line(),
{
    let taken = taken_ids(run.items);
    lemma_leaving_out(ui.candidates, taken);
    assert forall|c: CandidateModel| (!taken.contains(c.id)) == (forall|i: int|
        0 <= i < run.items.len() && (#[trigger] run.items[i]).id == c.id
            ==> run.items[i].disposition == Disposition::Failed) by {
        lemma_taken(run.items, c.id);
    }
    assert((|c: CandidateModel| !taken.contains(c.id)) =~= (|c: CandidateModel|
        forall|i: int|
            0 <= i < run.items.len() && (#[trigger] run.items[i]).id == c.id
                ==> run.items[i].disposition == Disposition::Failed));
    lemma_taken(run.items, id);
}

/// A measurement replaces the first candidate with its id where it stands; the others stay.
pub proof fn a_measurement_replaces_its_candidate(cs: Seq<CandidateModel>, c: CandidateModel)
    ensures
        replaced(cs, c).len() == cs.len(),
        forall|i: int|
            0 <= i < cs.len() ==> #[trigger] replaced(cs, c)[i] == if cs[i].id == c.id && (forall|
                k: int,
            |
                0 <= k < i ==> (#[trigger] cs[k]).id != c.id) {
                c
            } else {
                cs[i]
            },
    decreases cs.len(),
{
    if cs.len() > 0 && cs[0].id != c.id {
        let rest = cs.skip(1);
        a_measurement_replaces_its_candidate(rest, c);
        let now = replaced(cs, c);
        assert forall|i: int| 0 <= i < cs.len() implies #[trigger] now[i] == if cs[i].id == c.id && (
        forall|k: int| 0 <= k < i ==> (#[trigger] cs[k]).id != c.id) {
            c
        } else {
            cs[i]
        } by {
            if i > 0 {
                assert(now[i] == replaced(rest, c)[i - 1]);
                assert(rest[i - 1] == cs[i]);
                if forall|k: int| 0 <= k < i - 1 ==> (#[trigger] rest[k]).id != c.id {
                    assert forall|k: int| 0 <= k < i implies (#[trigger] cs[k]).id != c.id by {
                        if k > 0 {
                            assert(cs[k] == rest[k - 1]);
                        }
                    }
                }
                if forall|k: int| 0 <= k < i ==> (#[trigger] cs[k]).id != c.id {
                    assert forall|k: int| 0 <= k < i - 1 implies (#[trigger] rest[k]).id != c.id by {
                        assert(rest[k] == cs[k + 1]);
                    }
                }
            }
        }
    } else if cs.len() > 0 {
        let now = replaced(cs, c);
        assert forall|i: int| 0 <= i < cs.len() implies #[trigger] now[i] == if cs[i].id == c.id && (
        forall|k: int| 0 <= k < i ==> (#[trigger] cs[k]).id != c.id) {
            c
        } else {
            cs[i]
        } by {
            if i > 0 {
                assert(!(forall|k: int| 0 <= k < i ==> (#[trigger] cs[k]).id != c.id)) by {
                    assert(cs[0].id == c.id);
                }
            }
        }
    }
}

/// A cleanup begins with a `y` on the question, and only there; any other key leaves the question
/// and removes nothing. A read-only screen is left by any key, and the question is asked for with
/// `d` where something is selected.
pub proof fn the_question_takes_one_answer(ui: UiModel, press: KeyPress)
    requires
        !ui.editing_filter,
        !(press.control && press.key == Key::Char('c')),
    ensures
        ui.confirms(press) == (ui.screen == Screen::ConfirmClean && (press.key == Key::Char('y')
            || press.key == Key::Char('Y'))),
        ui.screen == Screen::ConfirmClean ==> ui.pressed(press).screen == Screen::List,
        ui.screen == Screen::Help || ui.screen == Screen::Detail ==> ui.pressed(press) == (
        UiModel { screen: Screen::List, ..ui }),
        ui.screen == Screen::List && press.key == Key::Char('d') ==> (ui.pressed(press).screen
            == Screen::ConfirmClean) == (ui.selected.len() > 0),
        ui.screen == Screen::List && press.key == Key::Char('p') ==> ui.pressed(press).dry_run
            != ui.dry_run,
        ui.screen == Screen::List && press.key == Key::Char('n') ==> ui.pressed(press).selected
            == Set::<Seq<char>>::empty(),
        ui.screen == Screen::List && (press.key == Key::Char('q') || press.key == Key::Esc)
            ==> ui.pressed(press).quit,
        ui.screen == Screen::List && press.key == Key::Char('?') ==> ui.pressed(press).screen
            == Screen::Help,
        ui.screen == Screen::List && press.key == Key::Char('/') ==> ui.pressed(
            press,
        ).editing_filter,
        ui.screen == Screen::List && press.key == Key::Char(' ') ==> ui.pressed(press)
            == ui.toggled(),
        ui.screen == Screen::List && press.key == Key::Char('a') ==> ui.pressed(press)
            == ui.bulk_selected(),
        ui.screen == Screen::List && (press.key == Key::Down || press.key == Key::Char('j'))
            ==> ui.pressed(press) == ui.moved(1),
        ui.screen == Screen::List && (press.key == Key::Up || press.key == Key::Char('k'))
            ==> ui.pressed(press) == ui.moved(-1),
        ui.pressed(press).candidates == ui.candidates,
        ui.pressed(press).selected != ui.selected ==> press.key == Key::Char(' ') || press.key
            == Key::Char('a') || press.key == Key::Char('n'),
        ui.pressed(press).dry_run != ui.dry_run ==> press.key == Key::Char('p'),
{
}

/// Typing into the filter edits its text from the end, goes back to the first row, and ends with
/// Enter, which keeps the text, or Escape, which clears it.
pub proof fn the_filter_is_typed(ui: UiModel, c: char)
    ensures
        ui.typed(Key::Char(c)).filter_text == ui.filter_text.push(c),
        ui.filter_text.len() > 0 ==> ui.typed(Key::Backspace).filter_text
            == ui.filter_text.drop_last(),
        ui.typed(Key::Enter).filter_text == ui.filter_text && !ui.typed(Key::Enter).editing_filter,
        ui.typed(Key::Esc).filter_text.len() == 0 && !ui.typed(Key::Esc).editing_filter,
        ui.typed(Key::Char(c)).cursor == 0 && ui.typed(Key::Backspace).cursor == 0,
        ui.typed(Key::Char(c)).editing_filter == ui.editing_filter,
{
}

/// A scan is heard as it goes: the candidates it found, each as it is measured, and those it ends
/// with.
pub proof fn a_scan_is_heard(ui: UiModel, event: EventModel)
    ensures
        event matches EventModel::Discovered(found) ==> ui.heard(event).candidates == found,
        event matches EventModel::Complete(found) ==> ui.heard(event).candidates == found
            && !ui.heard(event).scanning,
        event matches EventModel::Measured { candidate, done, total } ==> ui.heard(
            event,
        ).scan_progress == (done, total) && ui.heard(event).candidates == replaced(
            ui.candidates,
            candidate,
        ),
        ui.heard(event).selected == ui.selected,
        ui.heard(event).screen == ui.screen,
        ui.heard(event).dry_run == ui.dry_run,
{
}

/// A UI begins with a scan under way, nothing found, nothing selected and nothing typed, and it
/// removes what it is told to.
pub proof fn a_ui_begins_with_a_scan()
    ensures
        UiModel::fresh().scanning && UiModel::fresh().scan_progress == (0usize, 0usize),
        UiModel::fresh().candidates.len() == 0 && UiModel::fresh().selected.len() == 0,
        UiModel::fresh().screen == Screen::List && UiModel::fresh().sort == Sort::Score,
        UiModel::fresh().filter_text.len() == 0 && !UiModel::fresh().editing_filter,
        UiModel::fresh().cursor == 0 && !UiModel::fresh().dry_run && !UiModel::fresh().quit,
{
}

/// Each key of the list does its part and nothing else: it moves the cursor, changes the selection,
/// the order or the mode, or leads to another screen. Cleaning needs a selection.
pub proof fn each_key_of_the_list_does_its_part(ui: UiModel)
    ensures
        ui.listed(Key::Char('q')) == (UiModel { quit: true, ..ui }),
        ui.listed(Key::Esc) == ui.listed(Key::Char('q')),
        ui.listed(Key::Up) == ui.moved(-1) && ui.listed(Key::Char('k')) == ui.moved(-1),
        ui.listed(Key::Down) == ui.moved(1) && ui.listed(Key::Char('j')) == ui.moved(1),
        ui.listed(Key::PageUp) == ui.moved(-10) && ui.listed(Key::PageDown) == ui.moved(10),
        ui.listed(Key::Home) == (UiModel { cursor: 0, ..ui }),
        ui.rows().len() > 0 ==> ui.listed(Key::End) == (UiModel {
            cursor: (ui.rows().len() - 1) as nat,
            ..ui
        }),
        ui.rows().len() == 0 ==> ui.listed(Key::End).cursor == 0,
        ui.listed(Key::Char(' ')) == ui.toggled(),
        ui.listed(Key::Char('a')) == ui.bulk_selected(),
        ui.listed(Key::Char('n')).selected.len() == 0,
        ui.listed(Key::Char('n')) == (UiModel {
            selected: ui.listed(Key::Char('n')).selected,
            status: ui.listed(Key::Char('n')).status,
            ..ui
        }),
        ui.sort == Sort::Score ==> ui.listed(Key::Char('s')).sort == Sort::Size,
        ui.sort == Sort::Size ==> ui.listed(Key::Char('s')).sort == Sort::Age,
        ui.sort == Sort::Age ==> ui.listed(Key::Char('s')).sort == Sort::Name,
        ui.sort == Sort::Name ==> ui.listed(Key::Char('s')).sort == Sort::Score,
        ui.listed(Key::Char('/')).editing_filter && ui.listed(Key::Char('/')).filter_text.len() == 0,
        ui.cursor < ui.rows().len() ==> ui.listed(Key::Enter) == (UiModel {
            screen: Screen::Detail,
            ..ui
        }),
        ui.cursor >= ui.rows().len() ==> ui.listed(Key::Enter) == ui,
        ui.listed(Key::Char('?')) == (UiModel { screen: Screen::Help, ..ui }),
        ui.listed(Key::Char('p')).dry_run == !ui.dry_run,
        ui.listed(Key::Char('p')) == (UiModel {
            dry_run: !ui.dry_run,
            status: ui.listed(Key::Char('p')).status,
            ..ui
        }),
        ui.selected.len() == 0 ==> ui.listed(Key::Char('d')).screen == ui.screen,
        ui.selected.len() > 0 ==> ui.listed(Key::Char('d')) == (UiModel {
            screen: Screen::ConfirmClean,
            ..ui
        }),
{
}

/// A bulk selection says how many items of the caution tier it left out.
pub proof fn a_bulk_selection_says_what_it_left_out(ui: UiModel)
    ensures
        ({
            let left = ui.rows().filter(|c: CandidateModel| c.tier == Tier::Caution).len();
            &&& left > 0 ==> ui.bulk_selected().status == "Selected all visible except "@ + decimal(
                left,
            ) + " caution-tier item(s)"@
            &&& left == 0 ==> ui.bulk_selected().status == "Selected all visible"@
        }),
{
    lemma_caution_filter(ui.rows());
}

proof fn lemma_caution_filter(cs: Seq<CandidateModel>)
    ensures
        caution_items(cs) == cs.filter(|c: CandidateModel| c.tier == Tier::Caution),
    decreases cs.len(),
{
    reveal(Seq::filter);
    if cs.len() > 0 {
        lemma_caution_filter(cs.drop_last());
    } else {
        assert(caution_items(cs) =~= cs);
    }
}

} // verus!
