//! The interactive list.
use reclaim::cli::frames::{confirm, detail, footer, header, help, row, Piece};
use reclaim::cli::render::is_reportable;
use reclaim::cli::tui::{Effect, Key, KeyPress, Screen, Sort, Ui};
use reclaim::config::DeleteMode;
use reclaim::journal::{Disposition, ItemOutcome, RunRecord, Trigger};
use reclaim::model::{Candidate, CandidateBuilder, Group, Regen, Signals, Size, Tier, Warning};
use reclaim::pipeline::{ScanEvent, ScanResult};
use reclaim::platform::{Os, Paths};

fn candidate(label: &str, tier: Tier, on_disk: u64, days: u32) -> Candidate {
    CandidateBuilder::new("test.thing", Group::Node, label)
        .path(&format!("/home/tester/.cache/{label}"))
        .tier(tier)
        .build()
        .with_measurement(
            Size { on_disk, logical: on_disk, ..Size::default() },
            Signals {
                artifact_mtime: 0,
                artifact_atime: None,
                source_mtime: None,
                vcs_activity: None,
                last_used_days: days,
                active_now: false,
            },
        )
}

fn ui_with(candidates: Vec<Candidate>) -> Ui {
    let mut ui = Ui::new();
    ui.candidates = candidates;
    ui.scanning = false;
    ui
}

fn text_of(pieces: &[Piece]) -> String {
    pieces.iter().map(|p| p.text.as_str()).collect::<Vec<&str>>().join("\n")
}

fn key(key: Key) -> KeyPress {
    KeyPress { key, control: false }
}

#[test]
fn selecting_all_visible_never_includes_caution_items() {
    // Bulk selection must not be able to sweep up something irreplaceable.
    let mut ui = ui_with(vec![
        candidate("npm", Tier::Safe, 1000, 100),
        candidate("archives", Tier::Caution, 5000, 100),
        candidate("m2", Tier::Review, 2000, 100),
    ]);

    ui.select_all_visible();

    assert_eq!(ui.selected.len(), 2);
    let chosen = ui.chosen();
    let chosen_labels: Vec<&str> = chosen.iter().map(|c| c.label.as_str()).collect();
    assert!(!chosen_labels.contains(&"archives"));
    assert!(ui.status.contains("caution"), "the user must be told why: {}", ui.status);
}

#[test]
fn toggling_selection_adds_then_removes() {
    let mut ui = ui_with(vec![candidate("npm", Tier::Safe, 1000, 100)]);
    ui.toggle_current();
    assert_eq!(ui.selected.len(), 1);
    ui.toggle_current();
    assert!(ui.selected.is_empty());
}

#[test]
fn the_cursor_cannot_leave_the_list() {
    let mut ui =
        ui_with(vec![candidate("a", Tier::Safe, 1, 1), candidate("b", Tier::Safe, 1, 1)]);
    ui.move_cursor(-5);
    assert_eq!(ui.cursor, 0);
    ui.move_cursor(50);
    assert_eq!(ui.cursor, 1);
}

#[test]
fn the_cursor_stays_valid_on_an_empty_list() {
    let mut ui = ui_with(vec![]);
    ui.move_cursor(3);
    assert_eq!(ui.cursor, 0);
    assert!(ui.current().is_none());
}

#[test]
fn sorting_cycles_and_actually_reorders() {
    let mut ui = ui_with(vec![
        candidate("small-old", Tier::Safe, 100, 900),
        candidate("big-new", Tier::Safe, 100_000, 1),
    ]);

    ui.sort = Sort::Size;
    assert_eq!(ui.visible()[0].label, "big-new");

    ui.sort = Sort::Age;
    assert_eq!(ui.visible()[0].label, "small-old");

    ui.sort = Sort::Name;
    assert_eq!(ui.visible()[0].label, "big-new");

    assert_eq!(Sort::Score.next(), Sort::Size);
    assert_eq!(Sort::Name.next(), Sort::Score);
}

#[test]
fn the_text_filter_matches_label_provider_and_group() {
    let mut ui = ui_with(vec![
        candidate("npm cache", Tier::Safe, 1, 1),
        candidate("gradle caches", Tier::Safe, 1, 1),
    ]);

    ui.filter_text = "npm".into();
    assert_eq!(ui.visible().len(), 1);

    ui.filter_text = "node".into();
    assert_eq!(ui.visible().len(), 2, "group title should match both");

    ui.filter_text = "nothing-matches".into();
    assert!(ui.visible().is_empty());
}

#[test]
fn the_text_filter_ignores_case() {
    let mut ui = ui_with(vec![
        candidate("NPM Cache", Tier::Safe, 1, 1),
        candidate("gradle caches", Tier::Safe, 1, 1),
    ]);
    ui.filter_text = "nPm".into();
    assert_eq!(ui.visible().len(), 1);
    assert_eq!(ui.visible()[0].label, "NPM Cache");
}

#[test]
fn chosen_bytes_only_counts_selected_rows() {
    let mut ui =
        ui_with(vec![candidate("a", Tier::Safe, 1000, 1), candidate("b", Tier::Safe, 5000, 1)]);
    assert_eq!(ui.chosen_bytes(), 0);
    ui.toggle_current();
    assert_eq!(ui.chosen_bytes(), 1000);
}

#[test]
fn filter_editing_swallows_keys_that_are_otherwise_actions() {
    // Typing "d" or "q" into the filter must not delete or quit.
    let mut ui = ui_with(vec![candidate("a", Tier::Safe, 1, 1)]);
    ui.editing_filter = true;

    for c in ['d', 'q', 'a'] {
        assert!(ui.handle_filter_key(Key::Char(c)));
    }

    assert_eq!(ui.filter_text, "dqa");
    assert!(!ui.quit, "keys typed into the filter must not quit");
    assert!(ui.selected.is_empty(), "keys typed into the filter must not select");
}

#[test]
fn escape_abandons_the_filter_and_enter_keeps_it() {
    let mut ui = ui_with(vec![candidate("a", Tier::Safe, 1, 1)]);

    ui.editing_filter = true;
    ui.handle_filter_key(Key::Char('x'));
    ui.handle_filter_key(Key::Enter);
    assert!(!ui.editing_filter);
    assert_eq!(ui.filter_text, "x", "enter commits the filter");

    ui.editing_filter = true;
    ui.handle_filter_key(Key::Esc);
    assert!(!ui.editing_filter);
    assert!(ui.filter_text.is_empty(), "escape clears the filter");
}

#[test]
fn filter_keys_are_ignored_when_the_box_is_not_focused() {
    let mut ui = ui_with(vec![candidate("a", Tier::Safe, 1, 1)]);
    assert!(!ui.handle_filter_key(Key::Char('d')));
    assert!(ui.filter_text.is_empty());
}

#[test]
fn dry_run_starts_off_so_the_tui_does_real_work_by_default() {
    assert!(!Ui::new().dry_run);
}

#[test]
fn cleaning_takes_a_selection_and_a_yes() {
    let mut ui = ui_with(vec![candidate("a", Tier::Safe, 1, 1)]);
    assert_eq!(ui.handle_key(key(Key::Char('d'))), Effect::Nothing);
    assert_eq!(ui.screen, Screen::List, "nothing is selected");
    ui.handle_key(key(Key::Char(' ')));
    ui.handle_key(key(Key::Char('d')));
    assert_eq!(ui.screen, Screen::ConfirmClean);
    assert_eq!(ui.handle_key(key(Key::Char('n'))), Effect::Nothing);
    assert_eq!(ui.screen, Screen::List);
    ui.handle_key(key(Key::Char('d')));
    assert_eq!(ui.handle_key(key(Key::Char('y'))), Effect::Clean);
}

#[test]
fn a_scan_fills_the_list() {
    let mut ui = Ui::new();
    assert!(ui.scanning);
    let candidates = vec![candidate("a", Tier::Safe, 10, 1)];
    let result = ScanResult { candidates: candidates.clone(), all: candidates, ..Default::default() };
    ui.hear(ScanEvent::ProjectsFound { count: 2, elapsed_ms: 1 });
    ui.hear(ScanEvent::Complete(Box::new(result)));
    assert!(!ui.scanning);
    assert_eq!(ui.candidates.len(), 1);
}

#[test]
fn what_was_cleaned_leaves_the_list() {
    let mut ui =
        ui_with(vec![candidate("a", Tier::Safe, 10, 1), candidate("b", Tier::Safe, 20, 1)]);
    ui.toggle_current();
    let chosen = ui.chosen();
    let options = ui.clean_options(DeleteMode::Tiered, 2);
    assert_eq!(options.trigger, Trigger::Tui);
    assert!(!options.dry_run);
    let mut record = RunRecord::new(Trigger::Tui, false, 0);
    record.items = vec![ItemOutcome {
        id: chosen[0].id.clone(),
        provider: "test.thing".into(),
        group: Group::Node,
        label: "a".into(),
        tier: Tier::Safe,
        paths: vec![],
        expected_bytes: 10,
        freed_bytes: 10,
        disposition: Disposition::Purged,
        error: None,
    }];
    ui.finish_clean(&record);
    assert_eq!(ui.candidates.len(), 1);
    assert_eq!(ui.candidates[0].label, "b");
    assert!(ui.selected.is_empty());
}

#[test]
fn the_list_frame_shows_size_tier_age_and_label() {
    let mut ui = ui_with(vec![
        candidate("npm cache", Tier::Safe, 2 * 1024 * 1024 * 1024, 120),
        candidate("Xcode Archives", Tier::Caution, 5 * 1024 * 1024 * 1024, 400),
    ]);
    ui.status = "2 items".into();

    let mut frame = text_of(&header(&ui));
    for candidate in ui.visible() {
        frame.push_str(&text_of(&row(&candidate, false)));
    }
    frame.push_str(&text_of(&footer(&ui)));

    for expected in [
        "reclaim",
        "2.00 GB",
        "npm cache",
        "Xcode Archives",
        "safe",
        "caution",
        "4 months ago",
        // The key hints must be visible; the UI is unusable without them.
        "space select",
    ] {
        assert!(frame.contains(expected), "{expected}: {frame}");
    }
}

#[test]
fn the_header_reports_the_selection_total() {
    let mut ui = ui_with(vec![candidate("npm cache", Tier::Safe, 1024 * 1024 * 1024, 100)]);
    ui.toggle_current();

    let frame = text_of(&header(&ui));
    assert!(frame.contains("1 selected"), "{frame}");
    assert!(frame.contains("1.00 GB"), "{frame}");
}

#[test]
fn dry_run_mode_is_visible_in_the_frame() {
    // The user must never be unsure whether a delete will really happen.
    let mut ui = ui_with(vec![candidate("npm cache", Tier::Safe, 1024, 100)]);
    ui.dry_run = true;
    assert!(text_of(&header(&ui)).contains("DRY RUN"));
}

#[test]
fn the_detail_frame_shows_the_warnings_and_regeneration_cost() {
    let mut c = candidate("Xcode Archives", Tier::Caution, 5 * 1024 * 1024 * 1024, 400);
    c.warnings = vec![Warning::danger("Contains dSYMs for shipped builds.")];
    c.regen = Regen::Never;
    c.detail = "Archived builds.".into();

    let frame = text_of(&detail(&c, &Paths::with_home("/home/tester", Os::Linux)));
    assert!(frame.contains("Before you delete this"), "{frame}");
    assert!(frame.contains("dSYMs"), "{frame}");
    assert!(frame.contains("gone forever"), "{frame}");
}

#[test]
fn the_confirm_frame_restates_the_caution_warnings() {
    let mut c = candidate("Xcode Archives", Tier::Caution, 5 * 1024 * 1024 * 1024, 400);
    c.warnings = vec![Warning::danger("These cannot be regenerated.")];

    let mut ui = ui_with(vec![c]);
    ui.toggle_current();
    ui.screen = Screen::ConfirmClean;

    let frame = text_of(&confirm(&ui));
    assert!(frame.contains("Reclaim"), "{frame}");
    assert!(frame.contains("irreplaceable"), "{frame}");
    assert!(frame.contains("cannot be regenerated"), "{frame}");
    assert!(frame.contains("y to confirm"), "{frame}");
}

#[test]
fn the_help_frame_explains_the_tiers() {
    let frame: String = help().iter().map(|(key, text)| format!("{key} {text}\n")).collect();
    assert!(frame.contains("regenerates automatically"), "{frame}");
    assert!(frame.contains("may be irreplaceable"), "{frame}");
}

#[test]
fn an_empty_list_still_renders_without_panicking() {
    let ui = ui_with(vec![]);
    assert!(text_of(&header(&ui)).contains("reclaim"));
}

#[test]
fn only_the_selected_rows_have_to_add_up() {
    let mut ui = ui_with(vec![
        candidate("a", Tier::Safe, 1000, 1),
        candidate("b", Tier::Safe, u64::MAX, 1),
    ]);
    let small = ui.candidates[0].id.clone();
    ui.selected.push(small);
    assert_eq!(ui.chosen_bytes(), 1000);
    assert!(text_of(&confirm(&ui)).contains("Reclaim 1000 B from 1 item(s)?"));
}

#[test]
fn only_the_hidden_items_have_to_add_up() {
    let all = vec![candidate("a", Tier::Safe, u64::MAX, 1), candidate("b", Tier::Safe, 5, 1)];
    let mut result = ScanResult {
        candidates: vec![all[0].clone()],
        all,
        projects_scanned: 0,
        elapsed_ms: 0,
        unreadable: Vec::new(),
    };
    assert_eq!(result.hidden(), (1, 5));
    assert!(is_reportable(&result));
    result.candidates.clear();
    assert_eq!(result.try_hidden(), None);
    assert!(!is_reportable(&result));
}
