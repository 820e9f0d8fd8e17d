//! The model: candidates, sizes, tiers, ages.
use reclaim::model::{
    humanize_age, Action, Candidate, CandidateBuilder, CandidateId, Group, Regen, Severity, Signals,
    Size, Tier, Warning,
};

fn secs(n: i128) -> i128 {
    n * 1_000_000_000
}

#[test]
fn candidate_id_is_stable_for_same_path() {
    let a = CandidateId::new("node.npm", "/home/x/.npm");
    let b = CandidateId::new("node.npm", "/home/x/.npm");
    assert_eq!(a, b);
}

#[test]
fn candidate_id_differs_across_paths_and_providers() {
    let a = CandidateId::new("node.npm", "/home/x/.npm");
    let b = CandidateId::new("node.npm", "/home/y/.npm");
    let c = CandidateId::new("node.yarn", "/home/x/.npm");
    assert_ne!(a, b);
    assert_ne!(a, c);
}

#[test]
fn a_candidate_id_is_the_provider_and_a_hash_of_the_path() {
    // The 64-bit FNV-1a hash of `a`.
    assert_eq!(CandidateId::new("p", "a").text(), "p:af63dc4c8601ec8c");
    assert_eq!(CandidateId::new("p", "").text(), "p:cbf29ce484222325");
}

#[test]
fn sizes_add_and_propagate_partial() {
    let a = Size { on_disk: 10, files: 1, partial: false, ..Size::default() };
    let b = Size { on_disk: 5, files: 2, partial: true, ..Size::default() };
    let sum = a + b;
    assert_eq!(sum.on_disk, 15);
    assert_eq!(sum.files, 3);
    assert!(sum.partial, "partial must be sticky so we never claim a total is exact");
}

#[test]
fn last_used_prefers_project_activity_over_stale_artifact() {
    let old = secs(1_000_000);
    let recent = secs(9_000_000);
    let signals = Signals {
        artifact_mtime: old,
        artifact_atime: None,
        source_mtime: Some(recent),
        vcs_activity: None,
        last_used_days: 0,
        active_now: false,
    };
    assert_eq!(signals.last_used(), recent);
}

#[test]
fn tier_parses_case_insensitively_and_rejects_junk() {
    assert_eq!(Tier::from_str("SAFE").unwrap(), Tier::Safe);
    assert!(Tier::from_str("nonsense").is_err());
}

#[test]
fn humanize_age_reads_naturally() {
    assert_eq!(humanize_age(0), "today");
    assert_eq!(humanize_age(1), "yesterday");
    assert_eq!(humanize_age(5), "5 days ago");
    assert_eq!(humanize_age(21), "3 weeks ago");
    assert_eq!(humanize_age(120), "4 months ago");
    assert_eq!(humanize_age(800), "2 years ago");
}

#[test]
fn builder_defaults_to_the_conservative_option() {
    let c: Candidate = CandidateBuilder::new("node.npm", Group::Node, "npm cache")
        .path("/home/x/.npm")
        .build();
    assert_eq!(c.tier, Tier::Safe);
    assert_eq!(c.action, Action::RemovePaths);
    assert_eq!(c.reclaimable(), 0, "unmeasured candidates must not claim any space");
}

#[test]
fn groups_have_distinct_names_that_parse_back() {
    let groups = Group::all();
    assert_eq!(groups.len(), 16);
    for (i, group) in groups.iter().enumerate() {
        assert_eq!(Group::from_str(group.as_str()).unwrap(), *group);
        assert_eq!(Group::from_str(&group.as_str().to_uppercase()).unwrap(), *group);
        for other in &groups[i + 1..] {
            assert_ne!(group.as_str(), other.as_str());
        }
    }
    assert!(Group::from_str("cobol").is_err());
}

#[test]
fn regeneration_reads_as_a_phrase() {
    let cases = vec![
        (Regen::Automatic { on: "next build".to_string() }, "auto on next build"),
        (
            Regen::Download { bytes: None, source: "the registry".to_string() },
            "re-download from the registry",
        ),
        (
            Regen::Download { bytes: Some(2048), source: "the registry".to_string() },
            "2.00 KB from the registry",
        ),
        (Regen::Rebuild { minutes: 7 }, "~7 min rebuild"),
        (Regen::Never, "gone forever"),
    ];
    for (regen, text) in cases {
        assert_eq!(regen.summary(), text);
    }
}

#[test]
fn the_gravest_warning_wins() {
    let c = CandidateBuilder::new("a.b", Group::Go, "x")
        .warn(Warning::info("i"))
        .warn(Warning::danger("d"))
        .warn(Warning::caution("c"))
        .build();
    assert_eq!(c.max_severity(), Some(Severity::Danger));
    let none = CandidateBuilder::new("a.b", Group::Go, "x").build();
    assert_eq!(none.max_severity(), None);
}
