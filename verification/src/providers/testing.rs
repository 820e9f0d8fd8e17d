//! A synthetic home directory for provider tests.
//!
//! `TestHome` lays out files and projects in memory, so that a test can hand a provider the very
//! values that a scan of such a machine would.
use vstd::prelude::*;
use vstd::string::*;
use crate::config::Config;
use crate::disk::{Child, DirTree, Disk, DiskModel, Entry, EntryModel, dir_names, entry_at};
use crate::model::{Candidate, ProjectModel, ProjectRoot};
use crate::path::{join, join_path};
use crate::pipeline::{Provider, ScanContext, offered};
use crate::platform::{Base, Os, Paths, redirected, under_home};
use crate::text::{Dup, nonempty, nonempty_texts, pieces, same, split_text, views};

verus! {

broadcast use crate::text::lemma_views_push;

/// A home directory with what was put into it, as a scan would see it.
pub struct TestHome {
    pub ctx: ScanContext,
}

/// The entries with one more, where none is at that path.
pub open spec fn with_entry(entries: Seq<EntryModel>, path: Seq<char>, is_dir: bool) -> Seq<
    EntryModel,
> {
    if entry_at(entries, path) is Some {
        entries
    } else {
        entries.push(EntryModel { path, is_dir, is_file: !is_dir, children: Seq::empty() })
    }
}

/// A listing names an entry.
pub open spec fn lists(children: Seq<(Seq<char>, bool)>, name: Seq<char>) -> bool {
    exists|i: int| 0 <= i < children.len() && (#[trigger] children[i]).0 == name
}

/// An entry whose listing holds one more child, where none has that name.
pub open spec fn listing(entry: EntryModel, name: Seq<char>, is_dir: bool) -> EntryModel {
    if lists(entry.children, name) {
        entry
    } else {
        EntryModel { children: entry.children.push((name, is_dir)), ..entry }
    }
}

/// The entries, with one more child in the listing of the first one at that path.
pub open spec fn with_child(
    entries: Seq<EntryModel>,
    dir: Seq<char>,
    name: Seq<char>,
    is_dir: bool,
) -> Seq<EntryModel>
    decreases entries.len(),
{
    if entries.len() == 0 {
        entries
    } else if entries[0].path == dir {
        entries.update(0, listing(entries[0], name, is_dir))
    } else {
        seq![entries[0]] + with_child(entries.skip(1), dir, name, is_dir)
    }
}

/// The entries with a path laid out below a directory, one name after the other.
pub open spec fn laid_out(
    entries: Seq<EntryModel>,
    base: Seq<char>,
    names: Seq<Seq<char>>,
    ends_in_dir: bool,
) -> Seq<EntryModel>
    decreases names.len(),
{
    if names.len() == 0 {
        entries
    } else {
        let is_dir = names.len() > 1 || ends_in_dir;
        let path = join(base, names[0]);
        laid_out(
            with_entry(with_child(entries, base, names[0], is_dir), path, is_dir),
            path,
            names.skip(1),
            ends_in_dir,
        )
    }
}

/// The names on a path, as they are written.
pub open spec fn steps(rel: Seq<char>) -> Seq<Seq<char>> {
    nonempty(pieces(rel, '/'))
}

/// The entries with the marker files of a project laid out.
pub open spec fn marked_out(
    entries: Seq<EntryModel>,
    home: Seq<char>,
    rel: Seq<char>,
    markers: Seq<Seq<char>>,
) -> Seq<EntryModel>
    decreases markers.len(),
{
    if markers.len() == 0 {
        entries
    } else {
        laid_out(
            marked_out(entries, home, rel, markers.drop_last()),
            home,
            steps(rel + "/"@ + markers.last()),
            false,
        )
    }
}

/// What a directory holds.
pub open spec fn children_in(entries: Seq<EntryModel>, dir: Seq<char>) -> Seq<(Seq<char>, bool)> {
    match entry_at(entries, dir) {
        Some(e) => e.children,
        None => Seq::empty(),
    }
}

/// A tree holds what the entries say is below a directory, as deep as asked for.
pub open spec fn mirrors(
    tree: DirTree,
    entries: Seq<EntryModel>,
    dir: Seq<char>,
    depth: nat,
) -> bool
    decreases depth,
{
    let children = children_in(entries, dir);
    let dirs = dir_names(children);
    match tree.names {
        Some(names) => {
            &&& views(names@) == child_names(children)
            &&& depth == 0 ==> tree.subdirs@.len() == 0
            &&& depth > 0 ==> {
                &&& tree.subdirs@.len() == dirs.len()
                &&& forall|i: int|
                    0 <= i < dirs.len() ==> mirrors(
                        #[trigger] tree.subdirs@[i],
                        entries,
                        join(dir, dirs[i]),
                        (depth - 1) as nat,
                    )
            }
        },
        None => false,
    }
}

/// The names in a listing.
pub open spec fn child_names(children: Seq<(Seq<char>, bool)>) -> Seq<Seq<char>> {
    Seq::new(children.len(), |i: int| children[i].0)
}

/// Adds an entry where none is at that path.
fn add_entry(disk: &mut Disk, path: &str, is_dir: bool)
    ensures
        final(disk)@ == (DiskModel {
            entries: with_entry(old(disk)@.entries, path@, is_dir),
            ..old(disk)@
        }),
{
    if !disk.has(path) {
        let ghost before = views(disk.entries@);
        let entry = Entry {
            path: path.to_owned(),
            is_dir,
            is_file: !is_dir,
            children: Vec::new(),
        };
        proof {
            assert(views(entry.children@) =~= Seq::empty());
        }
        disk.entries.push(entry);
        assert(views(disk.entries@) =~= before.push(entry@));
    }
}

fn is_listed_in(children: &Vec<Child>, name: &str) -> (r: bool)
    ensures
        r == lists(views(children@), name@),
{
    let mut i: usize = 0;
    while i < children.len()
        invariant
            i <= children@.len(),
            forall|k: int| 0 <= k < i ==> (#[trigger] views(children@)[k]).0 != name@,
        decreases children@.len() - i,
    {
        assert(views(children@)[i as int] == children@[i as int]@);
        if same(children[i].name.as_str(), name) {
            return true;
        }
        i += 1;
    }
    false
}

proof fn lemma_with_child_at(
    entries: Seq<EntryModel>,
    at: int,
    dir: Seq<char>,
    name: Seq<char>,
    is_dir: bool,
)
    requires
        0 <= at <= entries.len(),
        forall|k: int| 0 <= k < at ==> (#[trigger] entries[k]).path != dir,
        at < entries.len() ==> entries[at].path == dir,
    ensures
        with_child(entries, dir, name, is_dir) == if at < entries.len() {
            entries.update(at, listing(entries[at], name, is_dir))
        } else {
            entries
        },
    decreases at,
{
    if at > 0 {
        let rest = entries.skip(1);
        assert forall|k: int| 0 <= k < at - 1 implies (#[trigger] rest[k]).path != dir by {
            assert(entries[k + 1].path != dir);
        }
        assert(entries[0].path != dir);
        lemma_with_child_at(rest, at - 1, dir, name, is_dir);
        if at < entries.len() {
            assert(seq![entries[0]] + rest.update(
                at - 1,
                listing(entries[at], name, is_dir),
            ) =~= entries.update(at, listing(entries[at], name, is_dir)));
        } else {
            assert(seq![entries[0]] + rest =~= entries);
        }
    }
}

/// Adds a child to the listing of a directory.
fn add_child(disk: &mut Disk, dir: &str, name: &str, is_dir: bool)
    ensures
        final(disk)@ == (DiskModel {
            entries: with_child(old(disk)@.entries, dir@, name@, is_dir),
            ..old(disk)@
        }),
{
    let ghost before = views(disk.entries@);
    let total: usize = disk.entries.len();
    let mut i: usize = 0;
    while i < total && !same(disk.entries[i].path.as_str(), dir)
        invariant
            i <= total,
            total == disk.entries@.len(),
            before == views(disk.entries@),
            forall|k: int| 0 <= k < i ==> (#[trigger] before[k]).path != dir@,
        decreases total - i,
    {
        assert(before[i as int] == disk.entries@[i as int]@);
        i += 1;
    }
    if i < total {
        assert(before[i as int] == disk.entries@[i as int]@);
        if !is_listed_in(&disk.entries[i].children, name) {
            let ghost listed = views(disk.entries@[i as int].children@);
            let child = Child { name: name.to_owned(), is_dir };
            disk.entries[i].children.push(child);
            proof {
                assert(views(disk.entries@[i as int].children@) =~= listed.push((name@, is_dir)));
                assert(views(disk.entries@) =~= before.update(
                    i as int,
                    listing(before[i as int], name@, is_dir),
                ));
            }
        } else {
            assert(before.update(i as int, before[i as int]) =~= before);
        }
    }
    proof {
        lemma_with_child_at(before, i as int, dir@, name@, is_dir);
    }
}

/// Lays out a path below a directory.
fn lay_out(disk: &mut Disk, base: &str, rel: &str, ends_in_dir: bool)
    ensures
        final(disk)@ == (DiskModel {
            entries: laid_out(old(disk)@.entries, base@, steps(rel@), ends_in_dir),
            ..old(disk)@
        }),
{
    let parts = split_text(rel, '/');
    let names = nonempty_texts(&parts);
    let ghost all = views(names@);
    let ghost whole = laid_out(disk@.entries, base@, all, ends_in_dir);
    let ghost rest = disk@;
    let mut at = base.to_owned();
    let mut i: usize = 0;
    assert(all.skip(0) =~= all);
    while i < names.len()
        invariant
            i <= names@.len(),
            all == views(names@),
            whole == laid_out(disk@.entries, at@, all.skip(i as int), ends_in_dir),
            disk@ == (DiskModel { entries: disk@.entries, ..rest }),
        decreases names@.len() - i,
    {
        assert(all.skip(i as int)[0] == names@[i as int]@);
        assert(all.skip(i as int).skip(1) =~= all.skip(i + 1));
        let is_dir = i + 1 < names.len() || ends_in_dir;
        let path = join_path(at.as_str(), names[i].as_str());
        add_child(disk, at.as_str(), names[i].as_str(), is_dir);
        add_entry(disk, path.as_str(), is_dir);
        at = path;
        i += 1;
    }
}

/// The tree below a directory, a few levels deep.
fn tree_of(disk: &Disk, dir: &str, depth: u8) -> (tree: DirTree)
    ensures
        mirrors(tree, disk@.entries, dir@, depth as nat),
    decreases depth,
{
    let children = disk.listing(dir);
    let ghost all = disk@.children(dir@);
    let mut names: Vec<String> = Vec::new();
    let mut subdirs: Vec<DirTree> = Vec::new();
    let mut i: usize = 0;
    assert(all.take(0) =~= Seq::empty());
    assert(views(names@) =~= child_names(all.take(0)));
    while i < children.len()
        invariant
            i <= children@.len(),
            all == views(children@),
            views(names@) == child_names(all.take(i as int)),
            depth == 0 ==> subdirs@.len() == 0,
            depth > 0 ==> subdirs@.len() == dir_names(all.take(i as int)).len(),
            depth > 0 ==> forall|k: int|
                0 <= k < subdirs@.len() ==> mirrors(
                    #[trigger] subdirs@[k],
                    disk@.entries,
                    join(dir@, dir_names(all.take(i as int))[k]),
                    (depth - 1) as nat,
                ),
        decreases children@.len() - i,
    {
        let ghost so_far = dir_names(all.take(i as int));
        assert(all.take(i + 1).drop_last() =~= all.take(i as int));
        assert(all.take(i + 1).last() == children@[i as int]@);
        assert(child_names(all.take(i + 1)) =~= child_names(all.take(i as int)).push(
            all[i as int].0,
        ));
        names.push(children[i].name.clone());
        if children[i].is_dir && depth > 0 {
            let below = join_path(dir, children[i].name.as_str());
            let tree = tree_of(disk, below.as_str(), depth - 1);
            let ghost earlier = subdirs@;
            subdirs.push(tree);
            assert forall|k: int| 0 <= k < subdirs@.len() implies mirrors(
                #[trigger] subdirs@[k],
                disk@.entries,
                join(dir@, dir_names(all.take(i + 1))[k]),
                (depth - 1) as nat,
            ) by {
                if k < earlier.len() {
                    assert(subdirs@[k] == earlier[k]);
                    assert(dir_names(all.take(i + 1))[k] == so_far[k]);
                }
            }
        }
        i += 1;
    }
    assert(all.take(all.len() as int) =~= all);
    DirTree { names: Some(names), subdirs }
}

impl TestHome {
    pub open spec fn view(&self) -> DiskModel {
        self.ctx.disk@
    }

    /// A path in the home directory was laid out, and nothing else changed.
    pub open spec fn holds_more(self, before: TestHome, rel: Seq<char>, ends_in_dir: bool) -> bool {
        &&& self.ctx.paths@ == before.ctx.paths@
        &&& self.ctx.config == before.ctx.config
        &&& self.ctx.projects == before.ctx.projects
        &&& self@.entries == laid_out(
            before@.entries,
            before.ctx.paths@.home,
            steps(rel),
            ends_in_dir,
        )
        &&& self@.commands == before@.commands
        &&& self@.daemons == before@.daemons
        &&& self@.ports == before@.ports
        &&& mirrors(
            self@.maven,
            self@.entries,
            join(before.ctx.paths@.home, ".m2/repository"@),
            8,
        )
    }

    /// An empty home directory on a Linux machine.
    pub fn new() -> (home: TestHome)
        ensures
            home.ctx.paths@ == under_home("/home/tester"@, Os::Linux),
            home.ctx.config.is_default(),
            home.ctx.projects@.len() == 0,
            home@.entries.len() == 0,
            home@.commands.len() == 0,
            home@.daemons.len() == 0,
            home@.ports.len() == 0,
    {
        TestHome::on(Os::Linux)
    }

    /// An empty home directory.
    pub fn on(os: Os) -> (home: TestHome)
        ensures
            home.ctx.paths@ == under_home("/home/tester"@, os),
            home.ctx.config.is_default(),
            home.ctx.projects@.len() == 0,
            home@.entries.len() == 0,
            home@.commands.len() == 0,
            home@.daemons.len() == 0,
            home@.ports.len() == 0,
    {
        let disk = Disk {
            entries: Vec::new(),
            commands: Vec::new(),
            daemons: Vec::new(),
            ports: Vec::new(),
            maven: DirTree { names: None, subdirs: Vec::new() },
        };
        TestHome {
            ctx: ScanContext::new(
                Paths::with_home("/home/tester", os),
                Config::default(),
                Vec::new(),
                disk,
            ),
        }
    }

    pub fn home(&self) -> (p: &str)
        ensures
            p@ == self.ctx.paths@.home,
    {
        self.ctx.paths.home()
    }

    /// Absolute path for a home-relative fragment.
    pub fn path(&self, rel: &str) -> (p: String)
        ensures
            p@ == join(self.ctx.paths@.home, rel@),
    {
        self.ctx.paths.home_join(rel)
    }

    /// Redirect a toolchain base directory into the home directory.
    pub fn redirect(&mut self, base: Base, rel: &str)
        ensures
            final(self).ctx.paths@ == redirected(
                old(self).ctx.paths@,
                base,
                join(old(self).ctx.paths@.home, rel@),
            ),
            final(self).ctx.config == old(self).ctx.config,
            final(self).ctx.projects == old(self).ctx.projects,
            final(self).ctx.disk == old(self).ctx.disk,
    {
        let path = self.ctx.paths.home_join(rel);
        self.ctx.paths = self.ctx.paths.dup().with_override(base, path.as_str());
    }

    fn lay_out(&mut self, rel: &str, ends_in_dir: bool)
        ensures
            final(self).holds_more(*old(self), rel@, ends_in_dir),
    {
        let home = self.ctx.paths.home().to_owned();
        lay_out(&mut self.ctx.disk, home.as_str(), rel, ends_in_dir);
        let repository = self.ctx.paths.home_join(".m2/repository");
        self.ctx.disk.maven = tree_of(&self.ctx.disk, repository.as_str(), 8);
    }

    /// Create a directory.
    pub fn dir(&mut self, rel: &str)
        ensures
            final(self).holds_more(*old(self), rel@, true),
    {
        self.lay_out(rel, true)
    }

    /// Create a file, with the directories above it.
    pub fn file(&mut self, rel: &str)
        ensures
            final(self).holds_more(*old(self), rel@, false),
    {
        self.lay_out(rel, false)
    }

    /// Create a project directory with the given marker files, and register it as the walk that
    /// finds projects would.
    pub fn project(&mut self, rel: &str, markers: &[&str])
        ensures
            final(self).ctx.paths@ == old(self).ctx.paths@,
            final(self).ctx.config == old(self).ctx.config,
            final(self)@.entries == marked_out(
                laid_out(old(self)@.entries, old(self).ctx.paths@.home, steps(rel@), true),
                old(self).ctx.paths@.home,
                rel@,
                views(markers@),
            ),
            final(self)@.commands == old(self)@.commands,
            final(self)@.daemons == old(self)@.daemons,
            final(self)@.ports == old(self)@.ports,
            views(final(self).ctx.projects@) == views(old(self).ctx.projects@).push(
                ProjectModel {
                    path: join(old(self).ctx.paths@.home, rel@),
                    markers: views(markers@),
                },
            ),
    {
        let ghost before = *self;
        let ghost home = self.ctx.paths@.home;
        let ghost all = views(markers@);
        self.dir(rel);
        let ghost first = self@.entries;
        let mut names: Vec<String> = Vec::new();
        let mut i: usize = 0;
        assert(views(names@) =~= all.take(0));
        assert(all.take(0) =~= Seq::empty());
        while i < markers.len()
            invariant
                i <= markers@.len(),
                all == views(markers@),
                home == before.ctx.paths@.home,
                views(names@) == all.take(i as int),
                self.ctx.paths@ == before.ctx.paths@,
                self.ctx.config == before.ctx.config,
                self.ctx.projects == before.ctx.projects,
                self@.entries == marked_out(first, home, rel@, all.take(i as int)),
                self@.commands == before@.commands,
                self@.daemons == before@.daemons,
                self@.ports == before@.ports,
            decreases markers@.len() - i,
        {
            assert(all.take(i + 1).drop_last() =~= all.take(i as int));
            assert(all.take(i + 1) =~= all.take(i as int).push(markers@[i as int]@));
            self.file(rel.to_owned().concat("/").concat(markers[i]).as_str());
            names.push(markers[i].to_owned());
            i += 1;
        }
        assert(all.take(all.len() as int) =~= all);
        let path = self.ctx.paths.home_join(rel);
        self.ctx.projects.push(ProjectRoot { path, markers: names });
    }

    /// The context a provider is handed during a scan.
    pub fn context(&self) -> (ctx: &ScanContext)
        ensures
            *ctx == self.ctx,
    {
        &self.ctx
    }

    /// Run one provider against this home and return what it offers.
    pub fn discover<P: Provider>(&self, provider: &P) -> (out: Vec<Candidate>)
        ensures
            views(out@) == provider.offers(&self.ctx),
    {
        provider.discover(&self.ctx)
    }

    /// Run several providers, as a scan would.
    pub fn discover_all<P: Provider>(&self, providers: &Vec<P>) -> (out: Vec<Candidate>)
        ensures
            views(out@) == offered(providers@, &self.ctx),
    {
        crate::pipeline::discover_all(providers, &self.ctx)
    }
}

/// The first candidate of that provider.
pub fn expect_candidate<'a>(candidates: &'a Vec<Candidate>, provider: &str) -> (c: &'a Candidate)
    requires
        exists|i: int| 0 <= i < candidates@.len() && (#[trigger] candidates@[i])@.provider == provider@,
    ensures
        exists|i: int|
            {
                &&& 0 <= i < candidates@.len()
                &&& *c == #[trigger] candidates@[i]
                &&& c@.provider == provider@
                &&& forall|j: int|
                    0 <= j < i ==> (#[trigger] candidates@[j])@.provider != provider@
            },
{
    let count: usize = candidates.len();
    let mut i: usize = 0;
    while !same(candidates[i].provider.as_str(), provider)
        invariant
            0 <= i < candidates@.len(),
            count == candidates@.len(),
            forall|j: int| 0 <= j < i ==> (#[trigger] candidates@[j])@.provider != provider@,
            exists|k: int|
                0 <= k < candidates@.len() && (#[trigger] candidates@[k])@.provider == provider@,
        decreases candidates@.len() - i,
    {
        assert(candidates@[i as int]@.provider != provider@);
        i += 1;
    }
    assert(candidates@[i as int]@.provider == provider@);
    &candidates[i]
}

} // verus!
