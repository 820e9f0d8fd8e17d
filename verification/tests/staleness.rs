//! Signals, ranking, filters and totals.
use reclaim::model::{Candidate, CandidateBuilder, Group, Kind, Signals, Size, Tier};
use reclaim::staleness::{
    derive_signals, freed_fits, groups_fit, is_active_now, project_last_activity, rank,
    total_reclaimable, totals_by_group, Filter,
};
use reclaim::walk::Measurement;

const GB: u64 = 1024 * 1024 * 1024;
const DAY: i128 = 86_400 * 1_000_000_000;

fn candidate(tier: Tier, on_disk: u64, days: u32) -> Candidate {
    let c = CandidateBuilder::new("test.thing", Group::Node, "thing")
        .path("/home/tester/.cache/thing")
        .tier(tier)
        .build();
    let size = Size { on_disk, logical: on_disk, ..Size::default() };
    let signals = Signals {
        artifact_mtime: 10_000 * DAY - days as i128 * DAY,
        artifact_atime: None,
        source_mtime: None,
        vcs_activity: None,
        last_used_days: days,
        active_now: days == 0,
    };
    c.with_measurement(size, signals)
}

#[test]
fn ranking_sorts_by_score_then_size() {
    let found = vec![
        candidate(Tier::Caution, GB, 10),
        candidate(Tier::Safe, 20 * GB, 300),
        candidate(Tier::Review, 5 * GB, 100),
        candidate(Tier::Review, 6 * GB, 100),
    ];
    let scores: Vec<u64> = [1.5f64, 90.0, 30.0, 30.0].iter().map(|s| s.to_bits()).collect();
    let ranked = rank(&found, &scores);
    let scores: Vec<f64> = ranked.iter().map(|c| f64::from_bits(c.score.unwrap())).collect();
    assert!(scores.windows(2).all(|w| w[0] >= w[1]), "not descending: {scores:?}");
    assert_eq!(ranked[0].tier, Tier::Safe);
    assert_eq!(ranked[1].reclaimable(), 6 * GB, "the larger of two equals comes first");
}

#[test]
fn filter_hides_items_below_the_size_floor() {
    let f = Filter { min_size: 100 * 1024 * 1024, ..Default::default() };
    assert!(!f.matches(&candidate(Tier::Safe, 1024, 100)));
    assert!(f.matches(&candidate(Tier::Safe, GB, 100)));
}

#[test]
fn filter_excludes_actively_used_items_by_default() {
    let active = candidate(Tier::Safe, GB, 0);
    assert!(!Filter { min_size: 0, ..Default::default() }.matches(&active));
    let permissive = Filter { min_size: 0, include_active: true, ..Default::default() };
    assert!(permissive.matches(&active));
}

#[test]
fn filter_respects_the_tier_ceiling() {
    let f = Filter { min_size: 0, max_tier: Some(Tier::Safe), ..Default::default() };
    assert!(f.matches(&candidate(Tier::Safe, GB, 100)));
    assert!(!f.matches(&candidate(Tier::Review, GB, 100)));
    assert!(!f.matches(&candidate(Tier::Caution, GB, 100)));
}

#[test]
fn filter_respects_a_minimum_age() {
    let f = Filter { min_size: 0, min_age_days: Some(90), ..Default::default() };
    assert!(!f.matches(&candidate(Tier::Safe, GB, 30)));
    assert!(f.matches(&candidate(Tier::Safe, GB, 120)));
}

#[test]
fn filter_matches_providers_by_id_and_group_prefix() {
    let c = candidate(Tier::Safe, GB, 100);
    let of = |name: &str| Filter {
        min_size: 0,
        providers: Some(vec![name.to_string()]),
        ..Default::default()
    };
    assert!(of("test").matches(&c));
    assert!(of("test.thing").matches(&c));
    assert!(!of("rust").matches(&c));
}

#[test]
fn filter_matches_groups() {
    let c = candidate(Tier::Safe, GB, 100);
    let of = |groups: Vec<Group>| Filter { groups: Some(groups), ..Default::default() };
    assert!(of(vec![Group::Rust, Group::Node]).matches(&c));
    assert!(!of(vec![Group::Rust]).matches(&c));
    assert_eq!(of(vec![Group::Rust]).apply(&vec![c]).len(), 0);
}

#[test]
fn totals_by_group_are_sorted_by_size() {
    let mut node = candidate(Tier::Safe, 5 * GB, 100);
    node.group = Group::Node;
    let mut rust = candidate(Tier::Safe, 20 * GB, 100);
    rust.group = Group::Rust;
    let totals = totals_by_group(&vec![node, rust]);
    assert_eq!(totals[0].0, Group::Rust);
    assert_eq!(totals[0].1.on_disk, 20 * GB);
}

#[test]
fn total_reclaimable_ignores_unmeasured_candidates() {
    let measured = candidate(Tier::Safe, GB, 100);
    let unmeasured =
        CandidateBuilder::new("test.other", Group::Node, "other").path("/y").build();
    assert_eq!(total_reclaimable(&vec![measured, unmeasured]), GB);
}

#[test]
fn a_project_in_use_keeps_its_artifact_fresh() {
    let c = CandidateBuilder::new("node.modules", Group::Node, "node_modules")
        .path("/p/node_modules")
        .kind(Kind::ProjectArtifact)
        .project("/p")
        .build();
    let now = 1000 * DAY;
    let m = Measurement {
        size: Size::default(),
        newest_mtime: Some(now - 400 * DAY),
        newest_atime: None,
    };
    let signals = derive_signals(&c, &m, Some(now - DAY / 2), None, now);
    assert_eq!(signals.last_used_days, 0);
    assert!(signals.active_now);
    let stale = derive_signals(&c, &m, Some(now - 30 * DAY), None, now);
    assert_eq!(stale.last_used_days, 30);
    assert!(!stale.active_now);
}

#[test]
fn a_day_of_rest_makes_inactive() {
    assert!(is_active_now(10 * DAY, 10 * DAY + DAY - 1_000_000_000));
    assert!(!is_active_now(10 * DAY, 11 * DAY + 1_000_000_000));
    assert_eq!(project_last_activity(Some(3), Some(5)), Some(5));
    assert_eq!(project_last_activity(None, None), None);
}

#[test]
fn sums_that_do_not_fit_are_noticed() {
    let two = vec![candidate(Tier::Safe, u64::MAX, 1), candidate(Tier::Safe, 1, 1)];
    assert!(!freed_fits(&two));
    assert!(!groups_fit(&two));
    let one = vec![candidate(Tier::Safe, u64::MAX, 1)];
    assert!(freed_fits(&one));
    assert!(groups_fit(&one));
}
