//! Measuring what walks saw.
use reclaim::walk::{
    blocks_of, keeps_source_child, measure, measure_all, newest, newest_source_mtime,
    try_measure_all, vcs_activity, LinkTracker, Parallelism, Stat, WalkEntry, WalkOptions, Walked,
};

fn file(ino: u64, nlink: u64, len: u64) -> Stat {
    Stat {
        is_dir: false,
        dev: 1,
        ino,
        nlink,
        len,
        allocated: len,
        modified: Some(ino as i128 * 1_000_000_000),
        accessed: None,
    }
}

fn dir(ino: u64) -> Stat {
    Stat { is_dir: true, ..file(ino, 2, 4096) }
}

fn tree(entries: &[Stat]) -> Walked {
    let mut seen = vec![WalkEntry::Seen(dir(1))];
    seen.extend(entries.iter().map(|e| WalkEntry::Seen(*e)));
    Walked { root: Some(dir(1)), entries: seen }
}

fn measured(walked: &Walked, links: &mut LinkTracker) -> reclaim::walk::Measurement {
    measure(walked, links, &WalkOptions::default())
}

#[test]
fn measures_a_simple_tree() {
    let walked = tree(&[file(10, 1, 4096), dir(2), file(11, 1, 8192)]);
    let m = measured(&walked, &mut LinkTracker::new());

    assert_eq!(m.size.files, 2);
    assert_eq!(m.size.logical, 4096 + 8192);
    assert!(m.size.on_disk >= 4096 + 8192, "on-disk includes directory blocks");
    assert!(!m.size.partial);
    assert_eq!(m.newest_mtime, Some(11_000_000_000));
}

#[test]
fn a_single_threaded_walk_measures_the_same_bytes_as_a_parallel_one() {
    let walked = tree(&[file(10, 1, 4096), file(11, 1, 8192), file(12, 1, 16384)]);
    let parallel = measured(&walked, &mut LinkTracker::new());
    let options = WalkOptions { threads: 1, ..Default::default() };
    let serial = measure(&walked, &mut LinkTracker::new(), &options);

    assert_eq!(serial.size.logical, 4096 + 8192 + 16384);
    assert_eq!(serial.size, parallel.size);
    assert!(!serial.size.partial, "a serial walk of a readable tree is complete, not partial");
    assert!(matches!(options.parallelism(), Parallelism::Serial), "one thread walks serially");
}

#[test]
fn hardlinked_bytes_are_counted_once_and_reported_as_shared() {
    let walked = tree(&[file(10, 2, 64 * 1024), file(10, 2, 64 * 1024)]);
    let m = measured(&walked, &mut LinkTracker::new());

    assert_eq!(m.size.files, 2, "both links are visible as files");
    assert_eq!(m.size.logical, 128 * 1024, "logical size double-counts, as du does");
    assert!(m.size.shared >= 64 * 1024, "the second link must land in `shared`");
    assert!(
        m.size.on_disk < 128 * 1024,
        "on_disk must not double-count hardlinks: {}",
        m.size.on_disk
    );
}

#[test]
fn a_shared_link_tracker_dedups_across_separate_measurements() {
    let mut links = LinkTracker::new();
    let first = measured(&tree(&[file(10, 2, 32 * 1024)]), &mut links);
    let second = measured(&tree(&[file(10, 2, 32 * 1024)]), &mut links);

    assert!(first.size.on_disk >= 32 * 1024);
    assert_eq!(second.size.shared, 32 * 1024, "second candidate sees the bytes as shared");
    assert!(second.size.on_disk < 32 * 1024, "and must not claim them again");
}

#[test]
fn a_missing_path_measures_as_zero_rather_than_failing() {
    let nothing = Walked { root: None, entries: Vec::new() };
    let m = measured(&nothing, &mut LinkTracker::new());
    assert_eq!(m.size.on_disk, 0);
    assert_eq!(m.size.files, 0);
}

#[test]
fn sparse_files_report_their_real_footprint() {
    // 64 MB apparent, no blocks allocated.
    let sparse = Stat { allocated: 0, ..file(10, 1, 64 * 1024 * 1024) };
    let m = measured(&tree(&[sparse]), &mut LinkTracker::new());
    assert_eq!(m.size.logical, 64 * 1024 * 1024);
    assert!(
        m.size.on_disk < 64 * 1024 * 1024,
        "on-disk must reflect allocated blocks, got {}",
        m.size.on_disk
    );
    assert_eq!(blocks_of(8), 4096);
}

#[test]
fn measure_all_sums_paths_and_keeps_the_newest_mtime() {
    let walked = vec![tree(&[file(10, 1, 1024)]), tree(&[file(20, 1, 2048)])];
    let m = measure_all(&walked, &mut LinkTracker::new(), &WalkOptions::default());
    assert_eq!(m.size.files, 2);
    assert_eq!(m.size.logical, 3072);
    assert_eq!(m.newest_mtime, Some(20_000_000_000));
}

#[test]
fn source_mtime_ignores_artifact_directories() {
    assert!(!keeps_source_child(true, "node_modules"));
    assert!(keeps_source_child(true, "src"));
    // What a walk of the sources saw is all that counts, to the second.
    const SECOND: i128 = 1_000_000_000;
    let newest = newest_source_mtime(&vec![Some(10 * SECOND), None, Some(7 * SECOND)]).unwrap();
    assert!(newest < 3600 * SECOND, "node_modules must not make a dormant project look active");
    assert_eq!(newest, 10 * SECOND);
}

#[test]
fn vcs_activity_is_none_without_a_repo_and_some_with_one() {
    assert!(vcs_activity(false, Some(1), &vec![Some(2)]).is_none());
    assert_eq!(vcs_activity(true, Some(1), &vec![None, Some(2)]), Some(2));
}

#[test]
fn link_tracker_only_tracks_files_that_can_actually_be_shared() {
    let mut t = LinkTracker::default();
    assert!(t.claim(1, 100, 1));
    assert!(t.claim(1, 100, 1), "single-link files bypass the set entirely");
    assert!(t.is_empty());

    assert!(t.claim(1, 200, 2));
    assert!(!t.claim(1, 200, 2), "the second sighting of a shared inode is refused");
    assert_eq!(t.len(), 1);
}

#[test]
fn an_unreadable_entry_makes_the_size_partial() {
    let mut walked = tree(&[file(10, 1, 4096)]);
    walked.entries.push(WalkEntry::Unreadable);
    let m = measured(&walked, &mut LinkTracker::new());
    assert!(m.size.partial);
    assert_eq!(m.size.files, 1);
}

#[test]
fn another_device_is_not_entered_unless_asked_for() {
    let elsewhere = Stat { dev: 2, ..file(10, 1, 4096) };
    let walked = tree(&[elsewhere]);
    let same = WalkOptions { same_device: true, ..Default::default() };
    let m = measure(&walked, &mut LinkTracker::new(), &same);
    assert_eq!(m.size.files, 0);
    assert!(m.size.partial);
    let any = WalkOptions { same_device: false, ..Default::default() };
    assert_eq!(measure(&walked, &mut LinkTracker::new(), &any).size.files, 1);
}

#[test]
fn the_newest_of_two_moments() {
    assert_eq!(newest(Some(1), Some(2)), Some(2));
    assert_eq!(newest(Some(1), None), Some(1));
    assert_eq!(newest(None, None), None);
}

#[test]
fn a_readable_tree_counts_every_file_once() {
    let walked = tree(&[file(10, 2, 4096), dir(2), file(10, 2, 4096), file(11, 1, 100)]);
    let m = measured(&walked, &mut LinkTracker::new());
    assert_eq!(m.size.files, 3);
    assert_eq!(m.size.logical, 4096 + 4096 + 100);
    assert_eq!(m.size.shared, 4096);
    assert_eq!(m.size.on_disk, 2 * 4096 + 4096 + 100, "directories, and each file once");
    assert_eq!(m.size.dirs, 3);
    let serial = WalkOptions { threads: 1, ..Default::default() };
    assert_eq!(measure(&walked, &mut LinkTracker::new(), &serial).size, m.size);
    assert!(!m.size.partial);
}

#[test]
fn sizes_that_do_not_add_up_are_no_measurement() {
    let huge = || tree(&[file(10, 1, u64::MAX / 2 + 1)]);
    let options = WalkOptions::default();
    let one = try_measure_all(&vec![huge()], &mut LinkTracker::new(), &options);
    assert_eq!(one.unwrap().size.logical, u64::MAX / 2 + 1);
    assert!(try_measure_all(&vec![huge(), huge()], &mut LinkTracker::new(), &options).is_none());
}
