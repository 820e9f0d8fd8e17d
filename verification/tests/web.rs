//! The local web interface.
use reclaim::config::{Config, DeleteMode};
use reclaim::exec::{clean, CommandReport, Work};
use reclaim::journal::Trigger;
use reclaim::model::{Candidate, CandidateBuilder, Group, Signals, Size, Tier};
use reclaim::pipeline::ScanResult;
use reclaim::platform::{Os, Paths};
use reclaim::safety::PathFacts;
use reclaim::web::api::{
    authenticate, candidates, clean_options, clean_response, decide_clean, providers,
    scan_filter, scan_response, ApiError, CleanDecision, CleanRequest,
};
use reclaim::web::assets::{asset_path, file_response, serve, Answer, FALLBACK_HTML};
use reclaim::web::state::{ServerState, Token};
use reclaim::web::{opener, url, ServeOptions};

const HOME: &str = "/home/tester";

#[test]
fn the_default_options_pick_a_free_port_and_open_a_browser() {
    let options = ServeOptions::default();
    assert_eq!(options.port, 0);
    assert!(options.open_browser);
    assert!(!options.dev);
}

#[test]
fn the_address_carries_the_token() {
    assert_eq!(url(7391, "abc"), "http://127.0.0.1:7391/?t=abc");
    assert_eq!(opener(Os::MacOs), Some("open"));
    assert_eq!(opener(Os::Linux), Some("xdg-open"));
}

#[test]
fn tokens_are_unique_per_process() {
    assert_ne!(Token::generate().as_str(), Token::generate().as_str());
}

#[test]
fn token_comparison_accepts_only_the_exact_value() {
    let token = Token::generate();
    assert!(token.matches(token.as_str()));
    assert!(!token.matches("wrong"));
    assert!(!token.matches(""));

    // A prefix must not pass, even though it matches byte for byte so far.
    let prefix = &token.as_str()[..8];
    assert!(!token.matches(prefix));
}

#[test]
fn tokens_are_long_enough_not_to_be_guessed() {
    assert!(Token::generate().as_str().len() >= 32);
}

fn state() -> ServerState {
    ServerState::new(Paths::with_home(HOME, Os::Linux), Config::default(), &Vec::new(), false)
}

fn cached(tier: Tier) -> Candidate {
    CandidateBuilder::new("node.npm-cache", Group::Node, "npm cache")
        .path("/home/tester/.npm/_cacache")
        .tier(tier)
        .build()
        .with_measurement(
            Size { on_disk: 2_000_000, logical: 2_000_000, files: 1, ..Size::default() },
            Signals {
                artifact_mtime: 0,
                artifact_atime: None,
                source_mtime: None,
                vcs_activity: None,
                last_used_days: 3,
                active_now: false,
            },
        )
}

/// A server that has scanned one cache.
fn populated(tier: Tier) -> ServerState {
    let mut state = state();
    state.store_scan(ScanResult {
        candidates: vec![cached(tier)],
        all: vec![cached(tier)],
        ..Default::default()
    });
    state
}

fn first_id(state: &ServerState) -> String {
    candidates(state)[0].id.clone()
}

fn request(id: &str, dry_run: bool) -> CleanRequest {
    CleanRequest { ids: vec![id.to_string()], dry_run, confirm_caution: false }
}

#[test]
fn unknown_candidate_ids_resolve_to_nothing() {
    assert!(state().candidates_by_id(&vec!["not-a-real-id".into()]).is_empty());
    assert!(populated(Tier::Safe).candidates_by_id(&vec!["not-a-real-id".into()]).is_empty());
}

#[test]
fn candidate_lookup_returns_nothing_before_a_scan_has_run() {
    // A clean request that arrives before any scan must be a no-op, not a chance for the client
    // to name its own targets.
    assert!(state().candidates_by_id(&vec!["anything".into()]).is_empty());
}

#[test]
fn the_fallback_page_is_self_contained() {
    // It must render with no network and no external assets, since it is what a user sees when
    // the build chain was incomplete.
    assert!(FALLBACK_HTML.starts_with("<!doctype html>"));
    assert!(!FALLBACK_HTML.contains("http://"));
    assert!(!FALLBACK_HTML.contains("https://"));
    assert!(FALLBACK_HTML.contains("npm --prefix web run build"));
}

#[test]
fn the_fallback_page_still_tells_the_user_what_does_work() {
    assert!(FALLBACK_HTML.contains("reclaim scan"));
}

#[test]
fn mime_types_are_derived_from_the_path() {
    for (path, expected) in [("app.js", "javascript"), ("index.html", "html")] {
        match file_response(path) {
            Answer::File { content_type, .. } => {
                assert!(content_type.contains(expected), "{content_type:?}")
            }
            other => panic!("{other:?}"),
        }
    }
}

#[test]
fn the_frontend_is_served_without_a_token() {
    // The page itself must load so it can then present the token from the URL.
    assert_eq!(asset_path("/"), "index.html");
    assert!(matches!(serve("index.html", true, true, false), Answer::File { .. }));
    assert!(matches!(serve("index.html", false, false, false), Answer::Fallback(_)));
    assert!(matches!(serve("index.html", false, false, true), Answer::DevNote(_)));
    match serve("some/route", false, true, false) {
        Answer::File { path, .. } => assert_eq!(path, "index.html"),
        other => panic!("{other:?}"),
    }
}

fn refused(
    token: &Token,
    origin: Option<&str>,
    header: Option<&str>,
    query: Option<&str>,
) -> ApiError {
    authenticate(token, origin, header, query).unwrap_err()
}

#[test]
fn api_requests_without_a_token_are_rejected() {
    let err = refused(&state().token, None, None, None);
    assert_eq!(err.status, 401);
    assert!(err.message.contains("token"), "{}", err.message);
}

#[test]
fn a_wrong_token_is_rejected() {
    assert_eq!(refused(&state().token, None, None, Some("t=not-the-token")).status, 401);
}

#[test]
fn the_token_works_in_a_header_or_a_query_parameter() {
    let state = state();
    let token = state.token.as_str();
    assert!(authenticate(&state.token, None, Some(token), None).is_ok());
    // EventSource cannot set headers, so the query form must work too.
    let query = format!("all=true&t={token}");
    assert!(authenticate(&state.token, None, None, Some(&query)).is_ok());
}

#[test]
fn a_cross_site_origin_is_refused_even_with_a_valid_token() {
    // Defends against a page the user has open in another tab reaching in.
    let state = state();
    let token = state.token.as_str();
    let err = refused(&state.token, Some("https://evil.example.com"), Some(token), None);
    assert_eq!(err.status, 403);
    assert!(err.message.contains("localhost"), "{}", err.message);
}

#[test]
fn a_loopback_origin_is_accepted() {
    let state = state();
    let token = state.token.as_str();
    let origin = Some("http://127.0.0.1:7391");
    assert!(authenticate(&state.token, origin, Some(token), None).is_ok());
}

#[test]
fn cleaning_before_a_scan_is_refused_rather_than_guessing() {
    // The client may only name ids the server has already measured.
    let err = decide_clean(&state(), &request("anything", true)).unwrap_err();
    assert_eq!(err.status, 400);
    assert!(err.message.contains("run a scan first"), "{}", err.message);
}

#[test]
fn a_scan_returns_totals_and_group_breakdown() {
    let state = populated(Tier::Safe);
    let response = scan_response(state.last_scan.as_ref().unwrap(), &state.paths);
    assert_eq!(response.total_reclaimable, 2_000_000);
    assert_eq!(response.groups.len(), 1);
    assert_eq!(response.groups[0].group, "node");
    assert_eq!(response.candidates.len(), 1);
    assert_eq!(response.hidden_count, 0);
}

#[test]
fn candidates_are_empty_until_a_scan_has_run_then_populated() {
    assert!(candidates(&state()).is_empty());
    assert!(!candidates(&populated(Tier::Safe)).is_empty(), "scan results must be retained");
}

/// Runs an accepted request against a disk where the cache is really there.
fn cleaned(state: &ServerState, request: &CleanRequest) -> reclaim::web::api::CleanResponse {
    match decide_clean(state, request).unwrap() {
        CleanDecision::Clean { chosen, skipped_caution } => {
            let options = clean_options(&state.config, request, 1);
            assert_eq!(options.trigger, Trigger::Web);
            let work = chosen
                .iter()
                .map(|c| Work {
                    facts: c
                        .paths
                        .iter()
                        .map(|p| PathFacts {
                            exists: true,
                            symlink: Ok(false),
                            canonical: Ok(p.clone()),
                        })
                        .collect(),
                    errors: Vec::new(),
                    command: CommandReport::Succeeded,
                })
                .collect();
            let record = clean(&chosen, &state.guard, &options, &work, 0, 0);
            clean_response(&record, skipped_caution)
        }
        CleanDecision::Answer(response) => response,
    }
}

#[test]
fn a_dry_run_clean_reports_without_deleting() {
    let state = populated(Tier::Safe);
    let result = cleaned(&state, &request(&first_id(&state), true));
    assert!(result.dry_run);
    assert_eq!(result.bytes_freed, 0);
}

#[test]
fn a_real_clean_removes_the_selected_candidate() {
    let state = populated(Tier::Safe);
    let result = cleaned(&state, &request(&first_id(&state), false));
    assert!(result.succeeded);
    assert_eq!(result.bytes_freed, 2_000_000);
    assert_eq!(result.items.len(), 1);
}

#[test]
fn caution_items_are_skipped_unless_explicitly_confirmed() {
    // The browser must not be able to remove something irreplaceable with the same request shape
    // it uses for a cache.
    let state = populated(Tier::Caution);
    let id = first_id(&state);
    let result = cleaned(&state, &request(&id, false));
    assert_eq!(result.skipped_caution, 1);
    assert!(result.items.is_empty(), "must not have deleted");

    let confirmed = CleanRequest { confirm_caution: true, ..request(&id, false) };
    assert_eq!(cleaned(&state, &confirmed).skipped_caution, 0);
}

#[test]
fn a_request_follows_the_configured_mode() {
    let options = clean_options(&Config::default(), &request("x", false), 3);
    assert!(!options.dry_run);
    assert_eq!(options.mode, DeleteMode::Tiered);
    assert_eq!(scan_filter(&Config::default(), true).min_size, 0);
    assert!(scan_filter(&Config::default(), false).min_size > 0);
}

#[test]
fn the_provider_list_says_what_is_enabled() {
    let list = providers(&state());
    assert!(!list.is_empty());
    assert!(list.iter().any(|p| p.id.starts_with("node.") && p.enabled));
    assert!(list.iter().any(|p| p.id == "ml.models" && !p.enabled));
}

#[test]
fn candidate_views_carry_the_humanised_decision_signals() {
    // The browser must never have to re-derive these and drift from the terminal.
    let state = populated(Tier::Safe);
    let view = &candidates(&state)[0];
    for text in [&view.tier, &view.regen, &view.last_used_human, &view.group_title] {
        assert!(!text.is_empty());
    }
    // Paths are contracted to `~/...` so the UI never shows an absolute home.
    assert!(view.paths[0].starts_with("~/"), "path was not contracted: {}", view.paths[0]);
}
