//! Measuring what a walk saw.
//!
//! Blocks count rather than apparent sizes, because sparse files and clones
//! give back only what they occupy; a file with several names counts once; and
//! another filesystem does not count at all.
use vstd::prelude::*;
use vstd::string::*;
use dashmap::DashSet;
use crate::discovery::is_listed;
use crate::model::{Moment, NANOS_PER_SECOND, Size, elapsed_seconds, seconds_between};
use crate::text::{same, views};

verus! {

/// `dashmap::DashSet`, a set that hands out nothing of its inside.
#[verifier::external_type_specification]
#[verifier::external_body]
#[verifier::reject_recursive_types(K)]
#[verifier::reject_recursive_types(S)]
pub struct ExDashSet<K, S>(dashmap::DashSet<K, S>);

/// The pairs that a set of pairs holds.
pub uninterp spec fn pairs_in(set: DashSet<(u64, u64)>) -> Set<(u64, u64)>;

/// `DashSet::new` makes a set that holds nothing.
#[verifier::external_body]
fn new_pairs() -> (set: DashSet<(u64, u64)>)
    ensures
        pairs_in(set) == Set::<(u64, u64)>::empty(),
{
    DashSet::new()
}

/// `DashSet::insert` adds the pair, and tells whether it was not there before.
#[verifier::external_body]
fn insert_pair(set: &mut DashSet<(u64, u64)>, pair: (u64, u64)) -> (added: bool)
    ensures
        added == !pairs_in(*old(set)).contains(pair),
        pairs_in(*final(set)) == pairs_in(*old(set)).insert(pair),
{
    set.insert(pair)
}

/// There are `n` pairs, and so finitely many.
pub open spec fn counts(n: nat, pairs: Set<(u64, u64)>) -> bool {
    pairs.finite() && n == pairs.len()
}

/// `DashSet::len` counts what the set holds, which is finitely much.
#[verifier::external_body]
fn count_pairs(set: &DashSet<(u64, u64)>) -> (n: usize)
    ensures
        counts(n as nat, pairs_in(*set)),
{
    set.len()
}

/// Shared across a scan, so that a file reached by two names is counted once.
pub struct LinkTracker {
    seen: DashSet<(u64, u64)>,
}

impl View for LinkTracker {
    type V = Set<(u64, u64)>;

    closed spec fn view(&self) -> Set<(u64, u64)> {
        pairs_in(self.seen)
    }
}

/// Whether a file counts, given the files that counted before.
pub open spec fn claims(seen: Set<(u64, u64)>, dev: u64, ino: u64, nlink: u64) -> bool {
    nlink <= 1 || !seen.contains((dev, ino))
}

/// The files that have counted after this one.
pub open spec fn claimed(seen: Set<(u64, u64)>, dev: u64, ino: u64, nlink: u64) -> Set<(u64, u64)> {
    if nlink <= 1 {
        seen
    } else {
        seen.insert((dev, ino))
    }
}

impl Default for LinkTracker {
    fn default() -> (t: Self)
        ensures
            t@ == Set::<(u64, u64)>::empty(),
    {
        LinkTracker::new()
    }
}

impl LinkTracker {
    pub fn new() -> (t: Self)
        ensures
            t@ == Set::<(u64, u64)>::empty(),
    {
        LinkTracker { seen: new_pairs() }
    }

    /// Returns true the first time this file is offered. A file with one name cannot be
    /// shared, and is not remembered.
    pub fn claim(&mut self, dev: u64, ino: u64, nlink: u64) -> (counted: bool)
        ensures
            counted == claims(old(self)@, dev, ino, nlink),
            final(self)@ == claimed(old(self)@, dev, ino, nlink),
    {
        if nlink <= 1 {
            return true;
        }
        insert_pair(&mut self.seen, (dev, ino))
    }

    pub fn len(&self) -> (n: usize)
        ensures
            n == self@.len(),
    {
        count_pairs(&self.seen)
    }

    pub fn is_empty(&self) -> (r: bool)
        ensures
            r == (self@ == Set::<(u64, u64)>::empty()),
    {
        let n = count_pairs(&self.seen);
        proof {
            if self@.len() == 0 {
                self@.lemma_len0_is_empty();
            }
        }
        n == 0
    }
}

/// Options for a single measurement.
#[derive(Debug, Clone, Copy, PartialEq, Eq, Structural)]
pub struct WalkOptions {
    /// Threads for a walk. 0 inherits the surrounding pool, 1 walks serially, and more make
    /// a pool of that size.
    pub threads: usize,
    /// Stay on the device the root lives on.
    pub same_device: bool,
    /// Give up below this many directory levels.
    pub max_depth: usize,
}

impl Default for WalkOptions {
    fn default() -> (o: WalkOptions)
        ensures
            o == (WalkOptions { threads: 0, same_device: true, max_depth: 64 }),
    {
        WalkOptions { threads: 0, same_device: true, max_depth: 64 }
    }
}

/// How a walk runs.
#[derive(Debug, Clone, Copy, PartialEq, Eq, Structural)]
pub enum Parallelism {
    /// In the surrounding pool.
    Inherited,
    /// On the calling thread.
    Serial,
    /// In a pool of its own.
    Dedicated(usize),
}

impl WalkOptions {
    /// How a walk runs. A caller with a single thread needs the serial walk: its one thread
    /// waits for the walk, and no other could serve it.
    pub fn parallelism(&self) -> (p: Parallelism)
        ensures
            p == match self.threads {
                0 => Parallelism::Inherited,
                1 => Parallelism::Serial,
                n => Parallelism::Dedicated(n),
            },
    {
        match self.threads {
            0 => Parallelism::Inherited,
            1 => Parallelism::Serial,
            n => Parallelism::Dedicated(n),
        }
    }
}

/// The bytes that 512-byte blocks occupy.
pub fn blocks_of(blocks: u64) -> (bytes: u64)
    requires
        blocks * 512 <= u64::MAX,
    ensures
        bytes == blocks * 512,
{
    blocks * 512
}

/// What the filesystem tells of one entry, without following a symlink.
#[derive(Debug, Clone, Copy, PartialEq, Eq, Structural)]
pub struct Stat {
    pub is_dir: bool,
    pub dev: u64,
    pub ino: u64,
    pub nlink: u64,
    /// Apparent size.
    pub len: u64,
    /// Bytes occupied.
    pub allocated: u64,
    /// When it was modified, where the platform tells.
    pub modified: Option<Moment>,
    /// When it was read, where the platform tells.
    pub accessed: Option<Moment>,
}

/// One entry of a walk: what it is, or that it could not be looked at.
#[derive(Debug, Clone, Copy, PartialEq, Eq, Structural)]
pub enum WalkEntry {
    Seen(Stat),
    Unreadable,
}

/// What was found at a path: nothing, or an entry with all that a walk below it saw.
#[derive(Debug, Clone, PartialEq, Eq)]
pub struct Walked {
    pub root: Option<Stat>,
    pub entries: Vec<WalkEntry>,
}

impl View for Walked {
    type V = (Option<Stat>, Seq<WalkEntry>);

    open spec fn view(&self) -> (Option<Stat>, Seq<WalkEntry>) {
        (self.root, self.entries@)
    }
}

/// Result of measuring one path.
#[derive(Debug, Clone, Copy, PartialEq, Eq, Structural)]
pub struct Measurement {
    pub size: Size,
    /// Newest modification found anywhere in the tree.
    pub newest_mtime: Option<Moment>,
    /// Newest access found anywhere in the tree.
    pub newest_atime: Option<Moment>,
}

impl Measurement {
    pub open spec fn nothing() -> Measurement {
        Measurement { size: Size::zero(), newest_mtime: None, newest_atime: None }
    }
}

impl Default for Measurement {
    fn default() -> (m: Measurement)
        ensures
            m == Measurement::nothing(),
    {
        Measurement { size: Size::default(), newest_mtime: None, newest_atime: None }
    }
}

/// Seconds since the epoch of a moment, where there is one and it is not before the epoch.
pub open spec fn seconds_of(moment: Option<Moment>) -> nat {
    match moment {
        Some(m) => if elapsed_seconds(0, m) <= u64::MAX {
            elapsed_seconds(0, m)
        } else {
            u64::MAX as nat
        },
        None => 0,
    }
}

fn seconds_in(moment: Option<Moment>) -> (n: u64)
    ensures
        n == seconds_of(moment),
{
    match moment {
        Some(m) => seconds_between(0, m),
        None => 0,
    }
}

/// The moment of a second count; none stands for no moment.
pub open spec fn moment_of(secs: nat) -> Option<Moment> {
    if secs > 0 {
        Some((secs * NANOS_PER_SECOND) as Moment)
    } else {
        None
    }
}

fn to_moment(secs: u64) -> (m: Option<Moment>)
    ensures
        m == moment_of(secs as nat),
{
    if secs > 0 {
        Some(secs as i128 * NANOS_PER_SECOND)
    } else {
        None
    }
}

/// What has been added up so far.
pub struct Tally {
    pub size: Size,
    pub mtime: nat,
    pub atime: nat,
    pub seen: Set<(u64, u64)>,
}

pub open spec fn larger(a: nat, b: nat) -> nat {
    if b > a {
        b
    } else {
        a
    }
}

impl Tally {
    /// Sums wrap around, as counters do that several threads add to.
    pub open spec fn with(self, entry: WalkEntry, device: u64, same_device: bool) -> Tally {
        match entry {
            WalkEntry::Unreadable => Tally { size: Size { partial: true, ..self.size }, ..self },
            WalkEntry::Seen(stat) => if same_device && stat.dev != device {
                Tally { size: Size { partial: true, ..self.size }, ..self }
            } else if stat.is_dir {
                Tally {
                    size: Size {
                        dirs: self.size.dirs.wrapping_add(1),
                        on_disk: self.size.on_disk.wrapping_add(stat.allocated),
                        ..self.size
                    },
                    mtime: larger(self.mtime, seconds_of(stat.modified)),
                    atime: larger(self.atime, seconds_of(stat.accessed)),
                    seen: self.seen,
                }
            } else {
                let counted = claims(self.seen, stat.dev, stat.ino, stat.nlink);
                Tally {
                    size: Size {
                        files: self.size.files.wrapping_add(1),
                        logical: self.size.logical.wrapping_add(stat.len),
                        on_disk: if counted {
                            self.size.on_disk.wrapping_add(stat.allocated)
                        } else {
                            self.size.on_disk
                        },
                        shared: if counted {
                            self.size.shared
                        } else {
                            self.size.shared.wrapping_add(stat.allocated)
                        },
                        ..self.size
                    },
                    mtime: larger(self.mtime, seconds_of(stat.modified)),
                    atime: larger(self.atime, seconds_of(stat.accessed)),
                    seen: claimed(self.seen, stat.dev, stat.ino, stat.nlink),
                }
            },
        }
    }
}

/// What the entries of a walk add up to. The root counts as a directory on its own.
pub open spec fn tallied(
    entries: Seq<WalkEntry>,
    device: u64,
    same_device: bool,
    seen: Set<(u64, u64)>,
) -> Tally
    decreases entries.len(),
{
    if entries.len() == 0 {
        Tally { size: Size { dirs: 1, ..Size::zero() }, mtime: 0, atime: 0, seen }
    } else {
        tallied(entries.drop_last(), device, same_device, seen).with(
            entries.last(),
            device,
            same_device,
        )
    }
}

/// The measurement of a path, and the files that have counted after it.
pub open spec fn measured(
    walked: (Option<Stat>, Seq<WalkEntry>),
    same_device: bool,
    seen: Set<(u64, u64)>,
) -> (Measurement, Set<(u64, u64)>) {
    match walked.0 {
        None => (Measurement::nothing(), seen),
        Some(root) => if root.is_dir {
            let t = tallied(walked.1, root.dev, same_device, seen);
            (
                Measurement {
                    size: t.size,
                    newest_mtime: moment_of(t.mtime),
                    newest_atime: moment_of(t.atime),
                },
                t.seen,
            )
        } else {
            let counted = claims(seen, root.dev, root.ino, root.nlink);
            (
                Measurement {
                    size: Size {
                        logical: root.len,
                        on_disk: if counted {
                            root.allocated
                        } else {
                            0
                        },
                        shared: if counted {
                            0
                        } else {
                            root.allocated
                        },
                        files: 1,
                        dirs: 0,
                        partial: false,
                    },
                    newest_mtime: root.modified,
                    newest_atime: root.accessed,
                },
                claimed(seen, root.dev, root.ino, root.nlink),
            )
        },
    }
}

/// Every entry was read, and stands on that device.
pub open spec fn is_readable(entries: Seq<WalkEntry>, device: u64) -> bool {
    forall|i: int|
        0 <= i < entries.len() ==> ((#[trigger] entries[i]) matches WalkEntry::Seen(stat)
            && stat.dev == device)
}

/// The entry is a directory.
pub open spec fn is_directory(entry: WalkEntry) -> bool {
    entry matches WalkEntry::Seen(stat) && stat.is_dir
}

/// The entry is a file: anything but a directory. A link is a file, and is not followed.
pub open spec fn is_file(entry: WalkEntry) -> bool {
    entry matches WalkEntry::Seen(stat) && !stat.is_dir
}

/// The entry is a file of several names, and that file.
pub open spec fn links_to(entry: WalkEntry, file: (u64, u64)) -> bool {
    entry matches WalkEntry::Seen(stat) && !stat.is_dir && stat.nlink > 1 && (stat.dev, stat.ino)
        == file
}

/// A file was met before the entry at a position: in an earlier walk, or earlier in this one.
pub open spec fn met_before(
    entries: Seq<WalkEntry>,
    i: int,
    file: (u64, u64),
    seen: Set<(u64, u64)>,
) -> bool {
    seen.contains(file) || exists|j: int| 0 <= j < i && links_to(#[trigger] entries[j], file)
}

/// The entry at a position is one more name of a file that was met before.
pub open spec fn is_repeated(entries: Seq<WalkEntry>, i: int, seen: Set<(u64, u64)>) -> bool {
    entries[i] matches WalkEntry::Seen(stat) && !stat.is_dir && stat.nlink > 1 && met_before(
        entries,
        i,
        (stat.dev, stat.ino),
        seen,
    )
}

/// How many of the first `n` entries are files.
pub open spec fn file_count(entries: Seq<WalkEntry>, n: nat) -> nat
    decreases n,
{
    if n == 0 {
        0
    } else {
        file_count(entries, (n - 1) as nat) + if is_file(entries[n - 1]) {
            1nat
        } else {
            0
        }
    }
}

/// The lengths of the files among the first `n` entries, each name anew.
pub open spec fn file_lengths(entries: Seq<WalkEntry>, n: nat) -> nat
    decreases n,
{
    if n == 0 {
        0
    } else {
        file_lengths(entries, (n - 1) as nat) + if is_file(entries[n - 1]) {
            entries[n - 1]->Seen_0.len as nat
        } else {
            0
        }
    }
}

/// The blocks of the directories among the first `n` entries.
pub open spec fn directory_blocks(entries: Seq<WalkEntry>, n: nat) -> nat
    decreases n,
{
    if n == 0 {
        0
    } else {
        directory_blocks(entries, (n - 1) as nat) + if is_directory(entries[n - 1]) {
            entries[n - 1]->Seen_0.allocated as nat
        } else {
            0
        }
    }
}

/// The blocks of the files among the first `n` entries, of each file once.
pub open spec fn file_blocks(entries: Seq<WalkEntry>, n: nat, seen: Set<(u64, u64)>) -> nat
    decreases n,
{
    if n == 0 {
        0
    } else {
        file_blocks(entries, (n - 1) as nat, seen) + if is_file(entries[n - 1]) && !is_repeated(
            entries,
            n - 1,
            seen,
        ) {
            entries[n - 1]->Seen_0.allocated as nat
        } else {
            0
        }
    }
}

/// The blocks that the further names among the first `n` entries lead to.
pub open spec fn repeated_blocks(entries: Seq<WalkEntry>, n: nat, seen: Set<(u64, u64)>) -> nat
    decreases n,
{
    if n == 0 {
        0
    } else {
        repeated_blocks(entries, (n - 1) as nat, seen) + if is_repeated(entries, n - 1, seen) {
            entries[n - 1]->Seen_0.allocated as nat
        } else {
            0
        }
    }
}

/// What a tree adds up to fits in 64 bits.
pub open spec fn tree_fits(entries: Seq<WalkEntry>, seen: Set<(u64, u64)>) -> bool {
    let n = entries.len();
    &&& n < u64::MAX
    &&& file_lengths(entries, n) <= u64::MAX
    &&& directory_blocks(entries, n) + file_blocks(entries, n, seen) <= u64::MAX
    &&& repeated_blocks(entries, n, seen) <= u64::MAX
}

/// A size counts a tree whole. Of a file of several names the first to be met is held on disk, and
/// the others are shared.
pub open spec fn counts_whole(size: Size, entries: Seq<WalkEntry>, seen: Set<(u64, u64)>) -> bool {
    let n = entries.len();
    &&& size.files == file_count(entries, n)
    &&& size.dirs == 1 + n - file_count(entries, n)
    &&& size.logical == file_lengths(entries, n)
    &&& size.on_disk == directory_blocks(entries, n) + file_blocks(entries, n, seen)
    &&& size.shared == repeated_blocks(entries, n, seen)
    &&& !size.partial
}

proof fn lemma_met(
    entries: Seq<WalkEntry>,
    device: u64,
    same_device: bool,
    seen: Set<(u64, u64)>,
    n: nat,
    file: (u64, u64),
)
    requires
        is_readable(entries, device),
        n <= entries.len(),
    ensures
        tallied(entries.take(n as int), device, same_device, seen).seen.contains(file)
            == met_before(entries, n as int, file, seen),
    decreases n,
{
    if n > 0 {
        let last = n - 1;
        lemma_met(entries, device, same_device, seen, last as nat, file);
        assert(entries.take(n as int).drop_last() =~= entries.take(last));
        assert(entries.take(n as int).last() == entries[last]);
        assert(entries[last] is Seen);
        if met_before(entries, n as int, file, seen) && !seen.contains(file) {
            let j = choose|j: int| 0 <= j < n && links_to(#[trigger] entries[j], file);
            assert(j < last ==> met_before(entries, last, file, seen));
        }
        if links_to(entries[last], file) {
            assert(met_before(entries, n as int, file, seen));
        }
    }
}

/// The first entries of a tree, counted.
proof fn lemma_counted(
    entries: Seq<WalkEntry>,
    device: u64,
    same_device: bool,
    seen: Set<(u64, u64)>,
    n: nat,
)
    requires
        is_readable(entries, device),
        n <= entries.len(),
        n < u64::MAX,
        file_lengths(entries, n) <= u64::MAX,
        directory_blocks(entries, n) + file_blocks(entries, n, seen) <= u64::MAX,
        repeated_blocks(entries, n, seen) <= u64::MAX,
    ensures
        ({
            let size = tallied(entries.take(n as int), device, same_device, seen).size;
            &&& size.files == file_count(entries, n)
            &&& size.dirs == 1 + n - file_count(entries, n)
            &&& size.logical == file_lengths(entries, n)
            &&& size.on_disk == directory_blocks(entries, n) + file_blocks(entries, n, seen)
            &&& size.shared == repeated_blocks(entries, n, seen)
            &&& !size.partial
        }),
        file_count(entries, n) <= n,
    decreases n,
{
    if n > 0 {
        let last = n - 1;
        lemma_counted(entries, device, same_device, seen, last as nat);
        assert(entries.take(n as int).drop_last() =~= entries.take(last));
        assert(entries.take(n as int).last() == entries[last]);
        assert(entries[last] is Seen);
        let stat = entries[last]->Seen_0;
        lemma_met(entries, device, same_device, seen, last as nat, (stat.dev, stat.ino));
    }
}

/// A directory tree on one device that could be read whole is counted whole, on any number of
/// threads: every file and its length, each name anew, the blocks of every directory, the root
/// among them, and of each file once, and as shared what its further names lead to. A fresh tracker
/// has met no file before.
pub proof fn a_readable_tree_is_counted_whole(
    root: Stat,
    entries: Seq<WalkEntry>,
    opts: WalkOptions,
    seen: Set<(u64, u64)>,
)
    requires
        root.is_dir,
        is_readable(entries, root.dev),
        tree_fits(entries, seen),
    ensures
        counts_whole(measured((Some(root), entries), opts.same_device, seen).0.size, entries, seen),
{
    lemma_counted(entries, root.dev, opts.same_device, seen, entries.len());
    assert(entries.take(entries.len() as int) =~= entries);
}

/// To a fresh tracker, of all the names of a file in a tree exactly one is no repetition.
pub proof fn each_file_is_held_once(entries: Seq<WalkEntry>, i: int, file: (u64, u64))
    requires
        0 <= i < entries.len(),
        links_to(entries[i], file),
    ensures
        exists|j: int|
            0 <= j <= i && links_to(#[trigger] entries[j], file) && !is_repeated(
                entries,
                j,
                Set::empty(),
            ),
        forall|j: int, k: int|
            0 <= j < entries.len() && 0 <= k < entries.len() && links_to(
                #[trigger] entries[j],
                file,
            ) && links_to(#[trigger] entries[k], file) && !is_repeated(entries, j, Set::empty())
                && !is_repeated(entries, k, Set::empty()) ==> j == k,
    decreases i,
{
    let none: Set<(u64, u64)> = Set::empty();
    if is_repeated(entries, i, none) {
        let j = choose|j: int| 0 <= j < i && links_to(#[trigger] entries[j], file);
        each_file_is_held_once(entries, j, file);
    }
    assert forall|j: int, k: int|
        0 <= j < entries.len() && 0 <= k < entries.len() && links_to(#[trigger] entries[j], file)
            && links_to(#[trigger] entries[k], file) && !is_repeated(entries, j, none)
            && !is_repeated(entries, k, none) implies j == k by {
        if j < k {
            assert(met_before(entries, k, file, none));
        }
        if k < j {
            assert(met_before(entries, j, file, none));
        }
    }
}

/// Measure what a walk saw. A symlink counts with its own size only, its target does not.
pub fn measure(walked: &Walked, links: &mut LinkTracker, opts: &WalkOptions) -> (m: Measurement)
    ensures
        (m, final(links)@) == measured(walked@, opts.same_device, old(links)@),
        walked.root is Some && walked.root->0.is_dir && is_readable(
            walked.entries@,
            walked.root->0.dev,
        ) && tree_fits(walked.entries@, old(links)@) ==> counts_whole(
            m.size,
            walked.entries@,
            old(links)@,
        ),
{
    let root = match walked.root {
        Some(root) => root,
        None => {
            return Measurement::default();
        },
    };
    if !root.is_dir {
        return measure_single_file(&root, links);
    }
    let ghost all = walked.entries@;
    let ghost start = links@;
    let mut size = Size { logical: 0, on_disk: 0, shared: 0, files: 0, dirs: 1, partial: false };
    let mut mtime: u64 = 0;
    let mut atime: u64 = 0;
    let mut i: usize = 0;
    assert(all.take(0) =~= Seq::empty());
    while i < walked.entries.len()
        invariant
            i <= walked.entries@.len(),
            all == walked.entries@,
            ({
                let t = tallied(all.take(i as int), root.dev, opts.same_device, start);
                size == t.size && mtime == t.mtime && atime == t.atime && links@ == t.seen
            }),
        decreases walked.entries@.len() - i,
    {
        proof {
            assert(all.take(i + 1).drop_last() =~= all.take(i as int));
            assert(all.take(i + 1).last() == all[i as int]);
        }
        match walked.entries[i] {
            WalkEntry::Unreadable => {
                size.partial = true;
            },
            WalkEntry::Seen(stat) => {
                if opts.same_device && stat.dev != root.dev {
                    size.partial = true;
                } else {
                    let modified: u64 = seconds_in(stat.modified);
                    if modified > mtime {
                        mtime = modified;
                    }
                    let accessed: u64 = seconds_in(stat.accessed);
                    if accessed > atime {
                        atime = accessed;
                    }
                    if stat.is_dir {
                        size.dirs = size.dirs.wrapping_add(1);
                        size.on_disk = size.on_disk.wrapping_add(stat.allocated);
                    } else {
                        size.files = size.files.wrapping_add(1);
                        size.logical = size.logical.wrapping_add(stat.len);
                        if links.claim(stat.dev, stat.ino, stat.nlink) {
                            size.on_disk = size.on_disk.wrapping_add(stat.allocated);
                        } else {
                            size.shared = size.shared.wrapping_add(stat.allocated);
                        }
                    }
                }
            },
        }
        i += 1;
    }
    proof {
        assert(all.take(all.len() as int) =~= all);
        if is_readable(all, root.dev) && tree_fits(all, start) {
            a_readable_tree_is_counted_whole(root, all, *opts, start);
        }
    }
    Measurement { size, newest_mtime: to_moment(mtime), newest_atime: to_moment(atime) }
}

/// A candidate whose path is a single file rather than a tree.
fn measure_single_file(root: &Stat, links: &mut LinkTracker) -> (m: Measurement)
    requires
        !root.is_dir,
    ensures
        (m, final(links)@) == measured((Some(*root), Seq::empty()), true, old(links)@),
{
    let counted = links.claim(root.dev, root.ino, root.nlink);
    Measurement {
        size: Size {
            logical: root.len,
            on_disk: if counted {
                root.allocated
            } else {
                0
            },
            shared: if counted {
                0
            } else {
                root.allocated
            },
            files: 1,
            dirs: 0,
            partial: false,
        },
        newest_mtime: root.modified,
        newest_atime: root.accessed,
    }
}

/// The later of two optional moments; any moment is later than none.
pub open spec fn newest_of(a: Option<Moment>, b: Option<Moment>) -> Option<Moment> {
    match (a, b) {
        (Some(x), Some(y)) => Some(
            if y > x {
                y
            } else {
                x
            },
        ),
        (Some(x), None) => Some(x),
        (None, y) => y,
    }
}

pub fn newest(a: Option<Moment>, b: Option<Moment>) -> (m: Option<Moment>)
    ensures
        m == newest_of(a, b),
{
    match (a, b) {
        (Some(x), Some(y)) => Some(
            if y > x {
                y
            } else {
                x
            },
        ),
        (Some(x), None) => Some(x),
        (None, y) => y,
    }
}

/// The measurement of several paths together, and the files that have counted after them.
pub open spec fn measured_all(
    walked: Seq<(Option<Stat>, Seq<WalkEntry>)>,
    same_device: bool,
    seen: Set<(u64, u64)>,
) -> (Measurement, Set<(u64, u64)>)
    decreases walked.len(),
{
    if walked.len() == 0 {
        (Measurement::nothing(), seen)
    } else {
        let (sum, before) = measured_all(walked.drop_last(), same_device, seen);
        let (m, after) = measured(walked.last(), same_device, before);
        (
            Measurement {
                size: sum.size.sum(m.size),
                newest_mtime: newest_of(sum.newest_mtime, m.newest_mtime),
                newest_atime: newest_of(sum.newest_atime, m.newest_atime),
            },
            after,
        )
    }
}

/// The sums over the paths fit.
pub open spec fn addable_all(
    walked: Seq<(Option<Stat>, Seq<WalkEntry>)>,
    same_device: bool,
    seen: Set<(u64, u64)>,
) -> bool
    decreases walked.len(),
{
    walked.len() > 0 ==> {
        let (sum, before) = measured_all(walked.drop_last(), same_device, seen);
        &&& addable_all(walked.drop_last(), same_device, seen)
        &&& sum.size.addable(measured(walked.last(), same_device, before).0.size)
    }
}

proof fn lemma_addable_prefix(
    walked: Seq<(Option<Stat>, Seq<WalkEntry>)>,
    same_device: bool,
    seen: Set<(u64, u64)>,
    i: int,
)
    requires
        addable_all(walked, same_device, seen),
        0 <= i <= walked.len(),
    ensures
        addable_all(walked.take(i), same_device, seen),
    decreases walked.len() - i,
{
    if i == walked.len() {
        assert(walked.take(i) =~= walked);
    } else {
        lemma_addable_prefix(walked.drop_last(), same_device, seen, i);
        assert(walked.drop_last().take(i) =~= walked.take(i));
    }
}

/// Measure the paths of one candidate together, sharing the link tracker. Nothing where their
/// sizes do not add up.
pub fn try_measure_all(walked: &Vec<Walked>, links: &mut LinkTracker, opts: &WalkOptions) -> (m:
    Option<Measurement>)
    ensures
        match m {
            Some(sum) => {
                &&& addable_all(views(walked@), opts.same_device, old(links)@)
                &&& (sum, final(links)@) == measured_all(
                    views(walked@),
                    opts.same_device,
                    old(links)@,
                )
            },
            None => !addable_all(views(walked@), opts.same_device, old(links)@),
        },
{
    let ghost all = views(walked@);
    let ghost start = links@;
    let mut sum = Measurement::default();
    let mut i: usize = 0;
    assert(all.take(0) =~= Seq::empty());
    while i < walked.len()
        invariant
            i <= walked@.len(),
            all == views(walked@),
            start == old(links)@,
            addable_all(all.take(i as int), opts.same_device, start),
            (sum, links@) == measured_all(all.take(i as int), opts.same_device, start),
        decreases walked@.len() - i,
    {
        proof {
            assert(all.take(i + 1).drop_last() =~= all.take(i as int));
            assert(all.take(i + 1).last() == walked@[i as int]@);
        }
        let ghost before = links@;
        let m = measure(&walked[i], links, opts);
        assert(measured(all.take(i + 1).last(), opts.same_device, before).0 == m);
        if !sum.size.can_add(m.size) {
            proof {
                if addable_all(all, opts.same_device, start) {
                    lemma_addable_prefix(all, opts.same_device, start, i + 1);
                }
            }
            return None;
        }
        sum = Measurement {
            size: sum.size + m.size,
            newest_mtime: newest(sum.newest_mtime, m.newest_mtime),
            newest_atime: newest(sum.newest_atime, m.newest_atime),
        };
        i += 1;
    }
    assert(all.take(all.len() as int) =~= all);
    Some(sum)
}

/// Measure the paths of one candidate together, sharing the link tracker.
pub fn measure_all(walked: &Vec<Walked>, links: &mut LinkTracker, opts: &WalkOptions) -> (m:
    Measurement)
    requires
        addable_all(views(walked@), opts.same_device, old(links)@),
    ensures
        (m, final(links)@) == measured_all(views(walked@), opts.same_device, old(links)@),
{
    match try_measure_all(walked, links, opts) {
        Some(sum) => sum,
        None => Measurement::default(),
    }
}

/// Directories that hold artifacts rather than a project's sources.
pub open spec fn artifact_dirs() -> Seq<Seq<char>> {
    seq![
        "node_modules"@,
        "target"@,
        "build"@,
        "dist"@,
        ".next"@,
        ".nuxt"@,
        ".venv"@,
        "venv"@,
        "vendor"@,
        "Pods"@,
        ".gradle"@,
        ".idea"@,
        ".dart_tool"@,
        "obj"@,
        "bin"@,
        "__pycache__"@,
        ".tox"@,
        ".mypy_cache"@,
        ".pytest_cache"@,
        ".turbo"@,
        "DerivedData"@,
    ]
}

/// Whether the walk over a project's sources keeps an entry. Artifact directories are rewritten
/// by every build, and `.git` by every fetch: neither tells of the user's own work.
pub fn keeps_source_child(is_dir: bool, name: &str) -> (r: bool)
    ensures
        r == (is_dir ==> !artifact_dirs().contains(name@) && name@ != ".git"@),
{
    if !is_dir {
        return true;
    }
    let skip = vec![
        "node_modules",
        "target",
        "build",
        "dist",
        ".next",
        ".nuxt",
        ".venv",
        "venv",
        "vendor",
        "Pods",
        ".gradle",
        ".idea",
        ".dart_tool",
        "obj",
        "bin",
        "__pycache__",
        ".tox",
        ".mypy_cache",
        ".pytest_cache",
        ".turbo",
        "DerivedData",
    ];
    assert(views(skip@) =~= artifact_dirs());
    !is_listed(&skip, name) && !same(name, ".git")
}

/// The newest of the modifications, in whole seconds.
pub open spec fn newest_seconds(modified: Seq<Option<Moment>>) -> nat
    decreases modified.len(),
{
    if modified.len() == 0 {
        0
    } else {
        larger(newest_seconds(modified.drop_last()), seconds_of(modified.last()))
    }
}

/// Newest modification among a project's source files: the files, and no directories, that a
/// walk over its sources reached. Separates a dormant project from an active one.
pub fn newest_source_mtime(modified: &Vec<Option<Moment>>) -> (m: Option<Moment>)
    ensures
        m == moment_of(newest_seconds(modified@)),
{
    let mut best: u64 = 0;
    let mut i: usize = 0;
    assert(modified@.take(0) =~= Seq::empty());
    while i < modified.len()
        invariant
            i <= modified@.len(),
            best == newest_seconds(modified@.take(i as int)),
        decreases modified@.len() - i,
    {
        assert(modified@.take(i + 1).drop_last() =~= modified@.take(i as int));
        let secs: u64 = seconds_in(modified[i]);
        if secs > best {
            best = secs;
        }
        i += 1;
    }
    assert(modified@.take(modified@.len() as int) =~= modified@);
    to_moment(best)
}

/// The files below `.git` that move when the user works.
pub fn vcs_markers() -> (names: Vec<&'static str>)
    ensures
        views(names@) == seq!["HEAD"@, "index"@, "COMMIT_EDITMSG"@, "refs/heads"@, "logs/HEAD"@],
{
    let names = vec!["HEAD", "index", "COMMIT_EDITMSG", "refs/heads", "logs/HEAD"];
    assert(views(names@) =~= seq![
        "HEAD"@,
        "index"@,
        "COMMIT_EDITMSG"@,
        "refs/heads"@,
        "logs/HEAD"@,
    ]);
    names
}

/// The newest of several optional moments.
pub open spec fn newest_among(first: Option<Moment>, rest: Seq<Option<Moment>>) -> Option<Moment>
    decreases rest.len(),
{
    if rest.len() == 0 {
        first
    } else {
        newest_of(newest_among(first, rest.drop_last()), rest.last())
    }
}

/// Last git activity in a project, from when `.git` itself and its marker files were modified.
pub fn vcs_activity(
    has_git: bool,
    git_modified: Option<Moment>,
    marker_modified: &Vec<Option<Moment>>,
) -> (m: Option<Moment>)
    ensures
        m == if has_git {
            newest_among(git_modified, marker_modified@)
        } else {
            None
        },
{
    if !has_git {
        return None;
    }
    let mut best = git_modified;
    let mut i: usize = 0;
    assert(marker_modified@.take(0) =~= Seq::empty());
    while i < marker_modified.len()
        invariant
            i <= marker_modified@.len(),
            best == newest_among(git_modified, marker_modified@.take(i as int)),
        decreases marker_modified@.len() - i,
    {
        assert(marker_modified@.take(i + 1).drop_last() =~= marker_modified@.take(i as int));
        best = newest(best, marker_modified[i]);
        i += 1;
    }
    assert(marker_modified@.take(marker_modified@.len() as int) =~= marker_modified@);
    best
}

/// A file of several names counts the first time it is met, and never again.
pub proof fn a_hardlinked_file_counts_once(
    seen: Set<(u64, u64)>,
    dev: u64,
    ino: u64,
    nlink: u64,
    again: u64,
)
    requires
        nlink > 1,
        again > 1,
    ensures
        !claims(claimed(seen, dev, ino, nlink), dev, ino, again),
        seen.contains((dev, ino)) ==> !claims(seen, dev, ino, nlink),
        !seen.contains((dev, ino)) ==> claims(seen, dev, ino, nlink),
{
}

/// What has counted stays counted, whatever is measured next.
pub proof fn measuring_forgets_no_link(
    walked: (Option<Stat>, Seq<WalkEntry>),
    same_device: bool,
    seen: Set<(u64, u64)>,
)
    ensures
        seen.subset_of(measured(walked, same_device, seen).1),
{
    if let Some(root) = walked.0 {
        if root.is_dir {
            lemma_tallied_keeps(walked.1, root.dev, same_device, seen);
        }
    }
}

proof fn lemma_tallied_keeps(
    entries: Seq<WalkEntry>,
    device: u64,
    same_device: bool,
    seen: Set<(u64, u64)>,
)
    ensures
        seen.subset_of(tallied(entries, device, same_device, seen).seen),
    decreases entries.len(),
{
    if entries.len() > 0 {
        lemma_tallied_keeps(entries.drop_last(), device, same_device, seen);
    }
}

/// Anything that could not be read, or lies on another device, makes the figure a floor.
pub proof fn an_unreadable_entry_makes_a_partial_size(
    entries: Seq<WalkEntry>,
    device: u64,
    seen: Set<(u64, u64)>,
    i: int,
)
    requires
        0 <= i < entries.len(),
        entries[i] is Unreadable || (
            entries[i] matches WalkEntry::Seen(stat) && stat.dev != device
        ),
    ensures
        tallied(entries, device, true, seen).size.partial,
    decreases entries.len(),
{
    if i < entries.len() - 1 {
        assert(entries.drop_last()[i] == entries[i]);
        an_unreadable_entry_makes_a_partial_size(entries.drop_last(), device, seen, i);
    }
}

/// The number of threads that walk changes nothing that is measured of what was walked.
pub proof fn the_thread_count_changes_no_size(
    walked: (Option<Stat>, Seq<WalkEntry>),
    a: WalkOptions,
    b: WalkOptions,
    seen: Set<(u64, u64)>,
)
    requires
        a == (WalkOptions { threads: a.threads, ..b }),
    ensures
        measured(walked, a.same_device, seen) == measured(walked, b.same_device, seen),
{
}

/// An entry counts unless it could not be read or stands on another device that is not to be
/// entered.
pub open spec fn entry_counts(entry: WalkEntry, device: u64, same_device: bool) -> bool {
    entry matches WalkEntry::Seen(stat) && (same_device ==> stat.dev == device)
}

/// A size is a floor exactly where some entry did not count, and such an entry adds nothing: the
/// rest is what the others add up to.
pub proof fn what_does_not_count_adds_nothing(
    entries: Seq<WalkEntry>,
    device: u64,
    same_device: bool,
    seen: Set<(u64, u64)>,
)
    ensures
        tallied(entries, device, same_device, seen).size.partial == (exists|i: int|
            0 <= i < entries.len() && !entry_counts(#[trigger] entries[i], device, same_device)),
        ({
            let all = tallied(entries, device, same_device, seen);
            let counted = tallied(
                entries.filter(|e: WalkEntry| entry_counts(e, device, same_device)),
                device,
                same_device,
                seen,
            );
            &&& all.size == (Size { partial: all.size.partial, ..counted.size })
            &&& all.mtime == counted.mtime && all.atime == counted.atime
            &&& all.seen == counted.seen
        }),
    decreases entries.len(),
{
    let keep = |e: WalkEntry| entry_counts(e, device, same_device);
    reveal(Seq::filter);
    if entries.len() > 0 {
        let fewer = entries.drop_last();
        let last = entries.last();
        what_does_not_count_adds_nothing(fewer, device, same_device, seen);
        if keep(last) {
            assert(fewer.filter(keep).push(last).drop_last() =~= fewer.filter(keep));
        }
        if exists|i: int|
            0 <= i < fewer.len() && !entry_counts(#[trigger] fewer[i], device, same_device) {
            let i = choose|i: int|
                0 <= i < fewer.len() && !entry_counts(#[trigger] fewer[i], device, same_device);
            assert(!entry_counts(entries[i], device, same_device));
        }
        if exists|i: int|
            0 <= i < entries.len() && !entry_counts(#[trigger] entries[i], device, same_device) {
            let i = choose|i: int|
                0 <= i < entries.len() && !entry_counts(#[trigger] entries[i], device, same_device);
            if i < fewer.len() {
                assert(!entry_counts(fewer[i], device, same_device));
            }
        }
        if !keep(last) {
            assert(!entry_counts(entries[entries.len() - 1], device, same_device));
        }
    } else {
        assert(entries.filter(keep) =~= entries);
    }
}

/// The times that an entry tells, in whole seconds.
proof fn lemma_tallied_times(
    entries: Seq<WalkEntry>,
    device: u64,
    same_device: bool,
    seen: Set<(u64, u64)>,
)
    ensures
        ({
            let t = tallied(entries, device, same_device, seen);
            &&& forall|i: int|
                0 <= i < entries.len() && entry_counts(#[trigger] entries[i], device, same_device)
                    ==> t.mtime >= seconds_of(entries[i]->Seen_0.modified) && t.atime >= seconds_of(
                    entries[i]->Seen_0.accessed,
                )
            &&& t.mtime > 0 ==> exists|i: int|
                0 <= i < entries.len() && entry_counts(#[trigger] entries[i], device, same_device)
                    && t.mtime == seconds_of(entries[i]->Seen_0.modified)
            &&& t.atime > 0 ==> exists|i: int|
                0 <= i < entries.len() && entry_counts(#[trigger] entries[i], device, same_device)
                    && t.atime == seconds_of(entries[i]->Seen_0.accessed)
        }),
    decreases entries.len(),
{
    if entries.len() > 0 {
        let fewer = entries.drop_last();
        let last = entries.len() - 1;
        lemma_tallied_times(fewer, device, same_device, seen);
        let before = tallied(fewer, device, same_device, seen);
        let now = tallied(entries, device, same_device, seen);
        assert forall|i: int|
            0 <= i < entries.len() && entry_counts(
                #[trigger] entries[i],
                device,
                same_device,
            ) implies now.mtime >= seconds_of(entries[i]->Seen_0.modified) && now.atime
            >= seconds_of(entries[i]->Seen_0.accessed) by {
            if i < last {
                assert(entry_counts(fewer[i], device, same_device));
            }
        }
        if now.mtime > 0 {
            if now.mtime == before.mtime {
                let i = choose|i: int|
                    0 <= i < fewer.len() && entry_counts(#[trigger] fewer[i], device, same_device)
                        && before.mtime == seconds_of(fewer[i]->Seen_0.modified);
                assert(entry_counts(entries[i], device, same_device));
            } else {
                assert(entry_counts(entries[last], device, same_device));
            }
        }
        if now.atime > 0 {
            if now.atime == before.atime {
                let i = choose|i: int|
                    0 <= i < fewer.len() && entry_counts(#[trigger] fewer[i], device, same_device)
                        && before.atime == seconds_of(fewer[i]->Seen_0.accessed);
                assert(entry_counts(entries[i], device, same_device));
            } else {
                assert(entry_counts(entries[last], device, same_device));
            }
        }
    }
}

proof fn lemma_seconds(t: Moment)
    ensures
        t <= 0 ==> seconds_of(Some(t)) == 0,
        0 < t < u64::MAX * NANOS_PER_SECOND ==> seconds_of(Some(t)) * NANOS_PER_SECOND <= t < (
        seconds_of(Some(t)) + 1) * NANOS_PER_SECOND,
        seconds_of(Some(t)) > 0 ==> seconds_of(Some(t)) * NANOS_PER_SECOND <= t,
        t >= NANOS_PER_SECOND ==> seconds_of(Some(t)) > 0,
{
}

/// A tree was modified when the newest of its entries was, to the second: no entry that counts is
/// newer by a second or more, and one of them is as new. Likewise for the last access.
pub proof fn a_tree_is_as_new_as_its_newest_entry(
    root: Stat,
    entries: Seq<WalkEntry>,
    same_device: bool,
    seen: Set<(u64, u64)>,
)
    requires
        root.is_dir,
    ensures
        ({
            let m = measured((Some(root), entries), same_device, seen).0;
            &&& forall|i: int, t: Moment|
                0 <= i < entries.len() && entry_counts(
                    #[trigger] entries[i],
                    root.dev,
                    same_device,
                ) && #[trigger] is_moment(entries[i]->Seen_0.modified, t) ==> match m.newest_mtime {
                    Some(newest) => t < newest + NANOS_PER_SECOND,
                    None => t < NANOS_PER_SECOND,
                }
            &&& m.newest_mtime matches Some(newest) ==> newest > 0 && exists|i: int, t: Moment|
                0 <= i < entries.len() && entry_counts(
                    #[trigger] entries[i],
                    root.dev,
                    same_device,
                ) && entries[i]->Seen_0.modified == Some(t) && #[trigger] at_most(newest, t)
            &&& forall|i: int, t: Moment|
                0 <= i < entries.len() && entry_counts(
                    #[trigger] entries[i],
                    root.dev,
                    same_device,
                ) && #[trigger] is_moment(entries[i]->Seen_0.accessed, t) ==> match m.newest_atime {
                    Some(newest) => t < newest + NANOS_PER_SECOND,
                    None => t < NANOS_PER_SECOND,
                }
            &&& m.newest_atime matches Some(newest) ==> newest > 0 && exists|i: int, t: Moment|
                0 <= i < entries.len() && entry_counts(
                    #[trigger] entries[i],
                    root.dev,
                    same_device,
                ) && entries[i]->Seen_0.accessed == Some(t) && #[trigger] at_most(newest, t)
        }),
{
    lemma_tallied_times(entries, root.dev, same_device, seen);
    let t = tallied(entries, root.dev, same_device, seen);
    let m = measured((Some(root), entries), same_device, seen).0;
    lemma_times_fit(entries, root.dev, same_device, seen);
    assert forall|i: int, t: Moment|
        0 <= i < entries.len() && entry_counts(#[trigger] entries[i], root.dev, same_device)
            && #[trigger] is_moment(entries[i]->Seen_0.modified, t) implies match m.newest_mtime {
        Some(newest) => t < newest + NANOS_PER_SECOND,
        None => t < NANOS_PER_SECOND,
    } by {
        lemma_seconds(t);
    }
    assert forall|i: int, t: Moment|
        0 <= i < entries.len() && entry_counts(#[trigger] entries[i], root.dev, same_device)
            && #[trigger] is_moment(entries[i]->Seen_0.accessed, t) implies match m.newest_atime {
        Some(newest) => t < newest + NANOS_PER_SECOND,
        None => t < NANOS_PER_SECOND,
    } by {
        lemma_seconds(t);
    }
    if let Some(newest) = m.newest_mtime {
        let i = choose|i: int|
            0 <= i < entries.len() && entry_counts(#[trigger] entries[i], root.dev, same_device)
                && t.mtime == seconds_of(entries[i]->Seen_0.modified);
        let then = entries[i]->Seen_0.modified->0;
        lemma_seconds(then);
        assert(at_most(newest, then));
    }
    if let Some(newest) = m.newest_atime {
        let i = choose|i: int|
            0 <= i < entries.len() && entry_counts(#[trigger] entries[i], root.dev, same_device)
                && t.atime == seconds_of(entries[i]->Seen_0.accessed);
        let then = entries[i]->Seen_0.accessed->0;
        lemma_seconds(then);
        assert(at_most(newest, then));
    }
}

/// A known time, of which the seconds fit in 64 bits.
pub open spec fn is_moment(moment: Option<Moment>, t: Moment) -> bool {
    moment == Some(t) && t < u64::MAX * NANOS_PER_SECOND
}

pub open spec fn at_most(a: Moment, b: Moment) -> bool {
    a <= b
}

proof fn lemma_times_fit(
    entries: Seq<WalkEntry>,
    device: u64,
    same_device: bool,
    seen: Set<(u64, u64)>,
)
    ensures
        tallied(entries, device, same_device, seen).mtime <= u64::MAX,
        tallied(entries, device, same_device, seen).atime <= u64::MAX,
    decreases entries.len(),
{
    if entries.len() > 0 {
        lemma_times_fit(entries.drop_last(), device, same_device, seen);
    }
}

/// A single file is measured as itself: held on disk, or shared where it was met before.
pub proof fn a_file_is_measured_as_itself(
    root: Stat,
    entries: Seq<WalkEntry>,
    same_device: bool,
    seen: Set<(u64, u64)>,
)
    requires
        !root.is_dir,
    ensures
        ({
            let (m, after) = measured((Some(root), entries), same_device, seen);
            let repeated = root.nlink > 1 && seen.contains((root.dev, root.ino));
            &&& m.size.logical == root.len && m.size.files == 1 && m.size.dirs == 0
            &&& !m.size.partial
            &&& m.size.on_disk == if repeated {
                0
            } else {
                root.allocated
            }
            &&& m.size.shared == if repeated {
                root.allocated
            } else {
                0
            }
            &&& m.newest_mtime == root.modified && m.newest_atime == root.accessed
            &&& after == if root.nlink > 1 {
                seen.insert((root.dev, root.ino))
            } else {
                seen
            }
        }),
        measured((None, entries), same_device, seen).0.size == Size::zero(),
        measured((None, entries), same_device, seen).0.newest_mtime is None,
        measured((None, entries), same_device, seen).1 == seen,
{
}

/// The files that count as met after a tree are those that did before and those of several names
/// among its entries.
pub proof fn what_was_met_is_remembered(
    root: Stat,
    entries: Seq<WalkEntry>,
    same_device: bool,
    seen: Set<(u64, u64)>,
    file: (u64, u64),
)
    requires
        root.is_dir,
        is_readable(entries, root.dev),
    ensures
        measured((Some(root), entries), same_device, seen).1.contains(file) == (seen.contains(file)
            || exists|j: int| 0 <= j < entries.len() && links_to(#[trigger] entries[j], file)),
{
    lemma_met(entries, root.dev, same_device, seen, entries.len(), file);
    assert(entries.take(entries.len() as int) =~= entries);
}

/// The paths of a candidate add up in each figure, later ones counting what earlier ones met as
/// shared; the newest time of all is the newest of theirs.
pub proof fn the_paths_of_a_candidate_add_up(
    walked: Seq<(Option<Stat>, Seq<WalkEntry>)>,
    more: (Option<Stat>, Seq<WalkEntry>),
    same_device: bool,
    seen: Set<(u64, u64)>,
)
    requires
        addable_all(walked.push(more), same_device, seen),
    ensures
        measured_all(Seq::empty(), same_device, seen) == (Measurement::nothing(), seen),
        ({
            let (all, after) = measured_all(walked.push(more), same_device, seen);
            let (a, met) = measured_all(walked, same_device, seen);
            let (b, last) = measured(more, same_device, met);
            &&& after == last
            &&& all.size.logical == a.size.logical + b.size.logical
            &&& all.size.on_disk == a.size.on_disk + b.size.on_disk
            &&& all.size.shared == a.size.shared + b.size.shared
            &&& all.size.files == a.size.files + b.size.files
            &&& all.size.dirs == a.size.dirs + b.size.dirs
            &&& all.size.partial == (a.size.partial || b.size.partial)
            &&& all.newest_mtime == a.newest_mtime || all.newest_mtime == b.newest_mtime
            &&& a.newest_mtime is Some ==> all.newest_mtime is Some && all.newest_mtime->0
                >= a.newest_mtime->0
            &&& b.newest_mtime is Some ==> all.newest_mtime is Some && all.newest_mtime->0
                >= b.newest_mtime->0
            &&& all.newest_atime == a.newest_atime || all.newest_atime == b.newest_atime
            &&& a.newest_atime is Some ==> all.newest_atime is Some && all.newest_atime->0
                >= a.newest_atime->0
            &&& b.newest_atime is Some ==> all.newest_atime is Some && all.newest_atime->0
                >= b.newest_atime->0
        }),
{
    assert(walked.push(more).drop_last() =~= walked);
}

/// The activity of a repository is the newest time that is known of its directory or of one of its
/// markers.
pub proof fn git_activity_is_the_newest_marker(first: Option<Moment>, rest: Seq<Option<Moment>>)
    ensures
        first is Some ==> newest_among(first, rest) is Some && newest_among(first, rest)->0
            >= first->0,
        forall|i: int|
            0 <= i < rest.len() && (#[trigger] rest[i]) is Some ==> newest_among(
                first,
                rest,
            ) is Some && newest_among(first, rest)->0 >= rest[i]->0,
        newest_among(first, rest) == first || exists|i: int|
            0 <= i < rest.len() && #[trigger] rest[i] == newest_among(first, rest),
    decreases rest.len(),
{
    if rest.len() > 0 {
        let fewer = rest.drop_last();
        git_activity_is_the_newest_marker(first, fewer);
        let before = newest_among(first, fewer);
        assert forall|i: int| 0 <= i < rest.len() && (#[trigger] rest[i]) is Some implies
            newest_among(first, rest) is Some && newest_among(first, rest)->0 >= rest[i]->0 by {
            if i < fewer.len() {
                assert(fewer[i] == rest[i]);
            }
        }
        if newest_among(first, rest) == before && before != first {
            let i = choose|i: int| 0 <= i < fewer.len() && #[trigger] fewer[i] == before;
            assert(rest[i] == before);
        } else if newest_among(first, rest) != before {
            assert(rest[rest.len() - 1] == newest_among(first, rest));
        }
    }
}

/// The sources of a project are as new as the newest of its files, to the second.
pub proof fn sources_are_as_new_as_the_newest_file(modified: Seq<Option<Moment>>)
    ensures
        forall|i: int, t: Moment|
            0 <= i < modified.len() && is_moment(#[trigger] modified[i], t)
                && #[trigger] at_most(0, t) ==> match moment_of(newest_seconds(modified)) {
                Some(newest) => t < newest + NANOS_PER_SECOND,
                None => t < NANOS_PER_SECOND,
            },
        moment_of(newest_seconds(modified)) matches Some(newest) ==> exists|i: int|
            0 <= i < modified.len() && (#[trigger] modified[i]) is Some && newest <= modified[i]->0,
{
    lemma_newest_seconds(modified);
    let n = newest_seconds(modified);
    assert forall|i: int, t: Moment|
        0 <= i < modified.len() && is_moment(#[trigger] modified[i], t) && #[trigger] at_most(
            0,
            t,
        ) implies match moment_of(n) {
        Some(newest) => t < newest + NANOS_PER_SECOND,
        None => t < NANOS_PER_SECOND,
    } by {
        lemma_seconds(t);
        assert(n >= seconds_of(modified[i]));
    }
    if n > 0 {
        let i = choose|i: int| 0 <= i < modified.len() && seconds_of(#[trigger] modified[i]) == n;
        lemma_seconds(modified[i]->0);
    }
}

proof fn lemma_newest_seconds(modified: Seq<Option<Moment>>)
    ensures
        newest_seconds(modified) <= u64::MAX,
        forall|i: int|
            0 <= i < modified.len() ==> newest_seconds(modified) >= seconds_of(
                #[trigger] modified[i],
            ),
        newest_seconds(modified) > 0 ==> exists|i: int|
            0 <= i < modified.len() && seconds_of(#[trigger] modified[i]) == newest_seconds(
                modified,
            ),
    decreases modified.len(),
{
    if modified.len() > 0 {
        let fewer = modified.drop_last();
        lemma_newest_seconds(fewer);
        let n = newest_seconds(modified);
        assert forall|i: int| 0 <= i < modified.len() implies n >= seconds_of(
            #[trigger] modified[i],
        ) by {
            if i < fewer.len() {
                assert(fewer[i] == modified[i]);
            }
        }
        if n > 0 {
            if n == newest_seconds(fewer) {
                let i = choose|i: int| 0 <= i < fewer.len() && seconds_of(#[trigger] fewer[i]) == n;
                assert(seconds_of(modified[i]) == n);
            } else {
                assert(seconds_of(modified[modified.len() - 1]) == n);
            }
        }
    }
}

} // verus!
