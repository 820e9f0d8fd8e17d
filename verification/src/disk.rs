//! What the filesystem and the machine look like to a scan: the entries that
//! were found where a provider looks, as plain values.
use vstd::prelude::*;
use vstd::string::*;
use crate::sort::{
    Ranked, arranged, is_stable_order, lemma_order_exists, lemma_sorted_pairs, order_of, pick,
    positions, sorting_keeps_every_item, stably_sorted,
};
use crate::text::{
    Dup, contains_text, dup_all, lemma_text_le_total, lemma_text_le_transitive, same,
    text_at_most, text_le, views,
};

verus! {

broadcast use crate::text::lemma_views_push;

/// One entry of a directory. A symlink to a directory is no directory here.
#[derive(Debug, Clone, PartialEq, Eq)]
pub struct Child {
    pub name: String,
    pub is_dir: bool,
}

impl View for Child {
    type V = (Seq<char>, bool);

    open spec fn view(&self) -> (Seq<char>, bool) {
        (self.name@, self.is_dir)
    }
}

impl Dup for Child {
    fn dup(&self) -> (copy: Self) {
        Child { name: self.name.clone(), is_dir: self.is_dir }
    }
}

/// Something that exists, symlinks followed.
#[derive(Debug, Clone, PartialEq, Eq)]
pub struct Entry {
    pub path: String,
    pub is_dir: bool,
    pub is_file: bool,
    /// What the directory holds, as far as it could be read.
    pub children: Vec<Child>,
}

pub struct EntryModel {
    pub path: Seq<char>,
    pub is_dir: bool,
    pub is_file: bool,
    pub children: Seq<(Seq<char>, bool)>,
}

impl View for Entry {
    type V = EntryModel;

    open spec fn view(&self) -> EntryModel {
        EntryModel {
            path: self.path@,
            is_dir: self.is_dir,
            is_file: self.is_file,
            children: views(self.children@),
        }
    }
}

/// A directory with everything below it, as far as it could be read.
#[derive(Debug)]
pub struct DirTree {
    /// The names of all entries, or `None` where the directory could not be read.
    pub names: Option<Vec<String>>,
    /// The subdirectories, in the order the directory lists them.
    pub subdirs: Vec<DirTree>,
}

/// The entries that exist where a scan looks, and what the machine can run.
#[derive(Debug)]
pub struct Disk {
    pub entries: Vec<Entry>,
    /// Executables found on `PATH`.
    pub commands: Vec<String>,
    /// Container daemons that answer.
    pub daemons: Vec<String>,
    /// Local ports that something listens on.
    pub ports: Vec<u16>,
    /// The local Maven repository.
    pub maven: DirTree,
}

pub struct DiskModel {
    pub entries: Seq<EntryModel>,
    pub commands: Seq<Seq<char>>,
    pub daemons: Seq<Seq<char>>,
    pub ports: Seq<u16>,
    pub maven: DirTree,
}

impl View for Disk {
    type V = DiskModel;

    open spec fn view(&self) -> DiskModel {
        DiskModel {
            entries: views(self.entries@),
            commands: views(self.commands@),
            daemons: views(self.daemons@),
            ports: self.ports@,
            maven: self.maven,
        }
    }
}

/// The entry at a path.
pub open spec fn entry_at(entries: Seq<EntryModel>, path: Seq<char>) -> Option<EntryModel>
    decreases entries.len(),
{
    if entries.len() == 0 {
        None
    } else if entries[0].path == path {
        Some(entries[0])
    } else {
        entry_at(entries.skip(1), path)
    }
}

/// The names of the subdirectories, in the order of the listing.
pub open spec fn dir_names(children: Seq<(Seq<char>, bool)>) -> Seq<Seq<char>>
    decreases children.len(),
{
    if children.len() == 0 {
        Seq::empty()
    } else if children.last().1 {
        dir_names(children.drop_last()).push(children.last().0)
    } else {
        dir_names(children.drop_last())
    }
}

/// `names` in text order.
pub open spec fn in_text_order(names: Seq<Seq<char>>, sorted: Seq<Seq<char>>) -> bool {
    stably_sorted(names, sorted, |a: Seq<char>, b: Seq<char>| text_le(a, b))
}

impl DiskModel {
    pub open spec fn present(self, path: Seq<char>) -> bool {
        entry_at(self.entries, path) is Some
    }

    pub open spec fn is_dir(self, path: Seq<char>) -> bool {
        entry_at(self.entries, path) matches Some(e) && e.is_dir
    }

    pub open spec fn is_file(self, path: Seq<char>) -> bool {
        entry_at(self.entries, path) matches Some(e) && e.is_file
    }

    pub open spec fn children(self, path: Seq<char>) -> Seq<(Seq<char>, bool)> {
        match entry_at(self.entries, path) {
            Some(e) => e.children,
            None => Seq::empty(),
        }
    }

    /// The names of the subdirectories of a directory, in text order.
    pub open spec fn subdir_names(self, dir: Seq<char>) -> Seq<Seq<char>> {
        choose|sorted: Seq<Seq<char>>| in_text_order(dir_names(self.children(dir)), sorted)
    }
}

impl Ranked for String {
    open spec fn le(a: Seq<char>, b: Seq<char>) -> bool {
        text_le(a, b)
    }

    proof fn le_total(a: Seq<char>, b: Seq<char>) {
        lemma_text_le_total(a, b);
    }

    proof fn le_transitive(a: Seq<char>, b: Seq<char>, c: Seq<char>) {
        lemma_text_le_transitive(a, b, c);
    }

    fn at_most(&self, other: &Self) -> (r: bool) {
        text_at_most(self.as_str(), other.as_str())
    }
}

/// Texts can be put in order.
pub proof fn lemma_text_order_exists(names: Seq<Seq<char>>) -> (sorted: Seq<Seq<char>>)
    ensures
        in_text_order(names, sorted),
{
    let order = lemma_order_exists::<String>(names);
    let le = |a: Seq<char>, b: Seq<char>| text_le(a, b);
    assert((|a: Seq<char>, b: Seq<char>| <String as Ranked>::le(a, b)) =~= le);
    assert(is_stable_order(names, le, order));
    arranged(names, order)
}

/// Texts have one order only.
pub proof fn lemma_text_order_unique(
    names: Seq<Seq<char>>,
    a: Seq<Seq<char>>,
    b: Seq<Seq<char>>,
)
    requires
        in_text_order(names, a),
        in_text_order(names, b),
    ensures
        a == b,
{
    let le = |x: Seq<char>, y: Seq<char>| text_le(x, y);
    sorting_keeps_every_item(names, a, le);
    sorting_keeps_every_item(names, b, le);
    assert forall|x: Seq<char>, y: Seq<char>| #[trigger] le(x, y) && #[trigger] le(y, x) implies x
        == y by {
        lemma_text_le_total(x, y);
    }
    lemma_sorted_pairs(names, a, le);
    lemma_sorted_pairs(names, b, le);
    lemma_sorted_unique(a, b);
}

proof fn lemma_sorted_unique(a: Seq<Seq<char>>, b: Seq<Seq<char>>)
    requires
        a.to_multiset() == b.to_multiset(),
        forall|i: int, j: int| 0 <= i < j < a.len() ==> text_le(a[i], a[j]),
        forall|i: int, j: int| 0 <= i < j < b.len() ==> text_le(b[i], b[j]),
    ensures
        a == b,
    decreases a.len(),
{
    broadcast use vstd::seq_lib::group_to_multiset_ensures;

    a.to_multiset_ensures();
    b.to_multiset_ensures();
    assert(a.len() == b.len());
    if a.len() == 0 {
        assert(a =~= b);
    } else {
        let x = a.last();
        let y = b.last();
        assert(a.contains(a[a.len() - 1]));
        assert(b.contains(b[b.len() - 1]));
        assert(b.to_multiset().count(x) > 0 && a.to_multiset().count(y) > 0);
        assert(b.contains(x) && a.contains(y));
        let i = choose|i: int| 0 <= i < b.len() && b[i] == x;
        let j = choose|j: int| 0 <= j < a.len() && a[j] == y;
        lemma_text_le_total(x, y);
        if i < b.len() - 1 {
            assert(text_le(b[i], b[b.len() - 1]));
        }
        if j < a.len() - 1 {
            assert(text_le(a[j], a[a.len() - 1]));
        }
        assert(x == y);
        let fewer_a = a.drop_last();
        let fewer_b = b.drop_last();
        fewer_a.to_multiset_ensures();
        fewer_b.to_multiset_ensures();
        assert(a =~= fewer_a.push(x));
        assert(b =~= fewer_b.push(y));
        assert(fewer_a.to_multiset() =~= a.to_multiset().remove(x));
        assert(fewer_b.to_multiset() =~= b.to_multiset().remove(y));
        lemma_sorted_unique(fewer_a, fewer_b);
    }
}

impl Disk {
    fn find(&self, path: &str) -> (found: Option<&Entry>)
        ensures
            match found {
                Some(e) => entry_at(self@.entries, path@) == Some(e@),
                None => entry_at(self@.entries, path@) is None,
            },
    {
        let ghost all = self@.entries;
        let mut i: usize = 0;
        assert(all.skip(0) =~= all);
        while i < self.entries.len()
            invariant
                i <= self.entries@.len(),
                all == views(self.entries@),
                entry_at(all, path@) == entry_at(all.skip(i as int), path@),
            decreases self.entries@.len() - i,
        {
            assert(all.skip(i as int)[0] == self.entries@[i as int]@);
            if same(self.entries[i].path.as_str(), path) {
                return Some(&self.entries[i]);
            }
            assert(all.skip(i as int).skip(1) =~= all.skip(i + 1));
            i += 1;
        }
        None
    }

    pub fn has(&self, path: &str) -> (r: bool)
        ensures
            r == self@.present(path@),
    {
        self.find(path).is_some()
    }

    pub fn is_dir(&self, path: &str) -> (r: bool)
        ensures
            r == self@.is_dir(path@),
    {
        match self.find(path) {
            Some(e) => e.is_dir,
            None => false,
        }
    }

    pub fn is_file(&self, path: &str) -> (r: bool)
        ensures
            r == self@.is_file(path@),
    {
        match self.find(path) {
            Some(e) => e.is_file,
            None => false,
        }
    }

    /// What a directory holds.
    pub fn listing(&self, dir: &str) -> (children: Vec<Child>)
        ensures
            views(children@) == self@.children(dir@),
    {
        match self.find(dir) {
            Some(e) => dup_all(&e.children),
            None => {
                let none: Vec<Child> = Vec::new();
                assert(views(none@) =~= Seq::empty());
                none
            },
        }
    }

    /// How many entries a directory holds.
    pub fn count_entries(&self, dir: &str) -> (n: usize)
        ensures
            n == self@.children(dir@).len(),
    {
        match self.find(dir) {
            Some(e) => e.children.len(),
            None => 0,
        }
    }

    /// The names of the immediate subdirectories, sorted for stable output.
    pub fn subdirs(&self, dir: &str) -> (names: Vec<String>)
        ensures
            views(names@) == self@.subdir_names(dir@),
            in_text_order(dir_names(self@.children(dir@)), views(names@)),
    {
        let mut found: Vec<String> = Vec::new();
        let ghost children = self@.children(dir@);
        match self.find(dir) {
            Some(e) => {
                let mut i: usize = 0;
                assert(views(found@) =~= dir_names(children.take(0)));
                while i < e.children.len()
                    invariant
                        i <= e.children@.len(),
                        children == views(e.children@),
                        views(found@) == dir_names(children.take(i as int)),
                    decreases e.children@.len() - i,
                {
                    assert(children.take(i + 1).drop_last() =~= children.take(i as int));
                    assert(children.take(i + 1).last() == e.children@[i as int]@);
                    if e.children[i].is_dir {
                        found.push(e.children[i].name.clone());
                    }
                    i += 1;
                }
                assert(children.take(children.len() as int) =~= children);
            },
            None => {
                assert(views(found@) =~= dir_names(children));
            },
        }
        let order = order_of(&found);
        assert forall|i: int| 0 <= i < order@.len() implies (#[trigger] order@[i]) < found@.len() by {
            assert(positions(order@)[i] < views(found@).len());
        }
        let names = pick(&found, &order);
        proof {
            let le = |a: Seq<char>, b: Seq<char>| text_le(a, b);
            let string_le = |a: Seq<char>, b: Seq<char>| <String as Ranked>::le(a, b);
            assert(string_le =~= le);
            assert(is_stable_order(views(found@), le, positions(order@)));
            assert(in_text_order(dir_names(children), views(names@)));
            lemma_text_order_unique(
                dir_names(children),
                views(names@),
                self@.subdir_names(dir@),
            );
        }
        names
    }

    /// Whether an executable is on `PATH`.
    pub fn has_command(&self, program: &str) -> (r: bool)
        ensures
            r == self@.commands.contains(program@),
    {
        contains_text(&self.commands, program)
    }

    /// Whether a container daemon answers.
    pub fn daemon_running(&self, program: &str) -> (r: bool)
        ensures
            r == self@.daemons.contains(program@),
    {
        contains_text(&self.daemons, program)
    }

    /// Whether something listens on a local port.
    pub fn port_is_open(&self, port: u16) -> (r: bool)
        ensures
            r == self@.ports.contains(port),
    {
        let mut i: usize = 0;
        while i < self.ports.len()
            invariant
                i <= self.ports@.len(),
                forall|k: int| 0 <= k < i ==> self.ports@[k] != port,
            decreases self.ports@.len() - i,
        {
            if self.ports[i] == port {
                return true;
            }
            i += 1;
        }
        false
    }
}

/// A path is there exactly where it is listed, and the first listing tells what it is.
pub proof fn a_path_is_there_where_it_is_listed(disk: DiskModel, path: Seq<char>)
    ensures
        disk.present(path) == (exists|i: int|
            0 <= i < disk.entries.len() && (#[trigger] disk.entries[i]).path == path),
        forall|i: int|
            0 <= i < disk.entries.len() && (#[trigger] disk.entries[i]).path == path && (forall|
                k: int,
            |
                0 <= k < i ==> (#[trigger] disk.entries[k]).path != path) ==> disk.is_dir(path)
                == disk.entries[i].is_dir && disk.is_file(path) == disk.entries[i].is_file
                && disk.children(path) == disk.entries[i].children,
        !disk.present(path) ==> !disk.is_dir(path) && !disk.is_file(path) && disk.children(
            path,
        ).len() == 0,
{
    lemma_entry_at(disk.entries, path);
    assert forall|i: int|
        0 <= i < disk.entries.len() && (#[trigger] disk.entries[i]).path == path && (forall|k: int|
            0 <= k < i ==> (#[trigger] disk.entries[k]).path != path) implies disk.is_dir(path)
        == disk.entries[i].is_dir && disk.is_file(path) == disk.entries[i].is_file && disk.children(
        path,
    ) == disk.entries[i].children by {
        let n = choose|n: int|
            0 <= n < disk.entries.len() && #[trigger] disk.entries[n] == entry_at(
                disk.entries,
                path,
            )->0 && forall|k: int| 0 <= k < n ==> (#[trigger] disk.entries[k]).path != path;
        assert(disk.entries[n].path == path);
        assert(n == i);
    }
}

proof fn lemma_entry_at(entries: Seq<EntryModel>, path: Seq<char>)
    ensures
        entry_at(entries, path) is None <==> forall|i: int|
            0 <= i < entries.len() ==> (#[trigger] entries[i]).path != path,
        entry_at(entries, path) matches Some(e) ==> e.path == path && exists|i: int|
            0 <= i < entries.len() && #[trigger] entries[i] == e && forall|k: int|
                0 <= k < i ==> (#[trigger] entries[k]).path != path,
    decreases entries.len(),
{
    if entries.len() > 0 {
        let rest = entries.skip(1);
        lemma_entry_at(rest, path);
        if entries[0].path != path {
            if let Some(e) = entry_at(rest, path) {
                let i = choose|i: int|
                    0 <= i < rest.len() && #[trigger] rest[i] == e && forall|k: int|
                        0 <= k < i ==> (#[trigger] rest[k]).path != path;
                assert(entries[i + 1] == e);
                assert forall|k: int| 0 <= k < i + 1 implies (#[trigger] entries[k]).path != path by {
                    if k > 0 {
                        assert(entries[k] == rest[k - 1]);
                    }
                }
            } else {
                assert forall|i: int| 0 <= i < entries.len() implies (#[trigger] entries[i]).path
                    != path by {
                    if i > 0 {
                        assert(entries[i] == rest[i - 1]);
                    }
                }
            }
        }
    }
}

/// The directories in a directory are those among its children, in text order.
pub proof fn every_directory_below_is_named(disk: DiskModel, dir: Seq<char>)
    ensures
        disk.subdir_names(dir).to_multiset() == disk.children(dir).filter(
            |child: (Seq<char>, bool)| child.1,
        ).map_values(|child: (Seq<char>, bool)| child.0).to_multiset(),
        forall|i: int, j: int|
            0 <= i < j < disk.subdir_names(dir).len() ==> text_le(
                #[trigger] disk.subdir_names(dir)[i],
                #[trigger] disk.subdir_names(dir)[j],
            ),
{
    let names = dir_names(disk.children(dir));
    let order = lemma_text_order_exists(names);
    assert(in_text_order(names, order));
    let sorted = disk.subdir_names(dir);
    assert(in_text_order(names, sorted));
    let le = |a: Seq<char>, b: Seq<char>| text_le(a, b);
    sorting_keeps_every_item(names, sorted, le);
    lemma_sorted_pairs(names, sorted, le);
    assert forall|i: int, j: int| 0 <= i < j < sorted.len() implies text_le(
        #[trigger] sorted[i],
        #[trigger] sorted[j],
    ) by {
        assert(le(sorted[i], sorted[j]));
    }
    lemma_dir_names(disk.children(dir));
}

proof fn lemma_dir_names(children: Seq<(Seq<char>, bool)>)
    ensures
        dir_names(children) == children.filter(|child: (Seq<char>, bool)| child.1).map_values(
            |child: (Seq<char>, bool)| child.0,
        ),
    decreases children.len(),
{
    let is_dir = |child: (Seq<char>, bool)| child.1;
    let name = |child: (Seq<char>, bool)| child.0;
    reveal(Seq::filter);
    if children.len() > 0 {
        let fewer = children.drop_last();
        lemma_dir_names(fewer);
        let before = fewer.filter(is_dir);
        assert(before.push(children.last()).map_values(name) =~= before.map_values(name).push(
            children.last().0,
        ));
    } else {
        assert(children.filter(is_dir).map_values(name) =~= Seq::empty());
    }
}

} // verus!
