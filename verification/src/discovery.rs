//! Finding the user's projects with one pruned walk.
//!
//! The walk itself reads directories; what it descends into, which directory
//! is a project, and the list that every provider shares are decided here.
use vstd::prelude::*;
use vstd::string::*;
use crate::disk::{in_text_order, lemma_text_order_exists, lemma_text_order_unique};
use crate::globbing::{any_glob_hits, any_matches, glob_hits, pattern_matches, pattern_problem};
use crate::model::{ProjectModel, ProjectRoot};
use crate::path::{components, components_of, extension, extension_of, same_path};
use crate::sort::{
    Ranked, is_stable_order, lemma_filtered_from, lemma_order_by_key, lemma_sorted_pairs, order_of,
    pick, positions, sorting_keeps_every_item, stably_sorted,
};
use crate::text::{
    Dup, chars_of, has_prefix, lemma_text_le_total, lemma_text_le_transitive, same, starts_with,
    text_at_most, text_le, views,
};

verus! {

broadcast use crate::text::lemma_views_push;

/// Marker files that identify a project root.
pub open spec fn project_markers() -> Seq<Seq<char>> {
    seq![
        "package.json"@,
        "Cargo.toml"@,
        "pyproject.toml"@,
        "requirements.txt"@,
        "Pipfile"@,
        "setup.py"@,
        "environment.yml"@,
        "pom.xml"@,
        "build.gradle"@,
        "build.gradle.kts"@,
        "settings.gradle"@,
        "settings.gradle.kts"@,
        "build.sbt"@,
        "go.mod"@,
        "Podfile"@,
        "Package.swift"@,
        "Cartfile"@,
        "Directory.Build.props"@,
        "Gemfile"@,
        "composer.json"@,
        "pubspec.yaml"@,
        "CMakeLists.txt"@,
        "WORKSPACE"@,
        "MODULE.bazel"@,
    ]
}

/// Marker files that identify a project root.
pub fn marker_names() -> (v: Vec<&'static str>)
    ensures
        views(v@) == project_markers(),
{
    let v = vec![
        "package.json",
        "Cargo.toml",
        "pyproject.toml",
        "requirements.txt",
        "Pipfile",
        "setup.py",
        "environment.yml",
        "pom.xml",
        "build.gradle",
        "build.gradle.kts",
        "settings.gradle",
        "settings.gradle.kts",
        "build.sbt",
        "go.mod",
        "Podfile",
        "Package.swift",
        "Cartfile",
        "Directory.Build.props",
        "Gemfile",
        "composer.json",
        "pubspec.yaml",
        "CMakeLists.txt",
        "WORKSPACE",
        "MODULE.bazel",
    ];
    assert(views(v@) =~= project_markers());
    v
}

/// Directory names never descended into: artifact and dependency trees.
pub open spec fn never_descend() -> Seq<Seq<char>> {
    seq![
        "node_modules"@,
        "target"@,
        "build"@,
        "dist"@,
        "out"@,
        "vendor"@,
        "Pods"@,
        "Carthage"@,
        ".git"@,
        ".hg"@,
        ".svn"@,
        ".venv"@,
        "venv"@,
        ".tox"@,
        "__pycache__"@,
        ".mypy_cache"@,
        ".pytest_cache"@,
        ".ruff_cache"@,
        ".next"@,
        ".nuxt"@,
        ".turbo"@,
        ".parcel-cache"@,
        ".gradle"@,
        ".dart_tool"@,
        ".terraform"@,
        "DerivedData"@,
        ".Trash"@,
        "Library"@,
        ".cache"@,
        "obj"@,
        "bin"@,
    ]
}

fn pruned_names() -> (v: Vec<&'static str>)
    ensures
        views(v@) == never_descend(),
{
    let v = vec![
        "node_modules",
        "target",
        "build",
        "dist",
        "out",
        "vendor",
        "Pods",
        "Carthage",
        ".git",
        ".hg",
        ".svn",
        ".venv",
        "venv",
        ".tox",
        "__pycache__",
        ".mypy_cache",
        ".pytest_cache",
        ".ruff_cache",
        ".next",
        ".nuxt",
        ".turbo",
        ".parcel-cache",
        ".gradle",
        ".dart_tool",
        ".terraform",
        "DerivedData",
        ".Trash",
        "Library",
        ".cache",
        "obj",
        "bin",
    ];
    assert(views(v@) =~= never_descend());
    v
}

/// Whether a text is one of the listed ones.
pub fn is_listed(list: &Vec<&'static str>, text: &str) -> (r: bool)
    ensures
        r == views(list@).contains(text@),
{
    let mut i: usize = 0;
    while i < list.len()
        invariant
            i <= list@.len(),
            forall|k: int| 0 <= k < i ==> (#[trigger] list@[k])@ != text@,
        decreases list@.len() - i,
    {
        if same(list[i], text) {
            assert(views(list@)[i as int] == text@);
            return true;
        }
        i += 1;
    }
    assert forall|k: int| 0 <= k < views(list@).len() implies views(list@)[k] != text@ by {
        assert(list@[k]@ != text@);
    }
    false
}

/// A directory below a root that the walk passes over.
pub open spec fn is_pruned(name: Seq<char>, path: Seq<char>, exclude: Seq<Seq<char>>) -> bool {
    ||| never_descend().contains(name)
    ||| has_prefix(name, "."@) && name != ".config"@
    ||| any_glob_hits(exclude, path)
}

/// Whether the walk keeps an entry of a directory: files always, a directory unless its name
/// is that of an artifact tree, it is hidden, or a pattern excludes it. The root of a walk is
/// no entry of the walk, and is never asked about.
pub fn keeps_child(is_dir: bool, name: &str, path: &str, exclude: &Vec<String>) -> (r: bool)
    ensures
        r == (is_dir ==> !is_pruned(name@, path@, views(exclude@))),
{
    if !is_dir {
        return true;
    }
    if is_listed(&pruned_names(), name) {
        return false;
    }
    if starts_with(name, ".") && !same(name, ".config") {
        return false;
    }
    !is_excluded(path, exclude)
}

/// Whether a configured pattern excludes a path. Patterns that do not compile are passed over.
pub fn is_excluded(path: &str, exclude: &Vec<String>) -> (r: bool)
    ensures
        r == any_glob_hits(views(exclude@), path@),
{
    any_matches(exclude, path)
}

/// A name that marks a project: a listed one, or a project bundle of Xcode or .NET.
pub open spec fn is_marker(name: Seq<char>) -> bool {
    ||| project_markers().contains(name)
    ||| extension(name) == Some("xcodeproj"@)
    ||| extension(name) == Some("xcworkspace"@)
    ||| extension(name) == Some("csproj"@)
    ||| extension(name) == Some("sln"@)
}

fn marks_project(name: &str) -> (r: bool)
    ensures
        r == is_marker(name@),
{
    if is_listed(&marker_names(), name) {
        return true;
    }
    match extension_of(name) {
        Some(ext) => same(ext.as_str(), "xcodeproj") || same(ext.as_str(), "xcworkspace") || same(
            ext.as_str(),
            "csproj",
        ) || same(ext.as_str(), "sln"),
        None => false,
    }
}

/// The names that mark a project, in the order of the listing.
pub open spec fn markers_among(names: Seq<Seq<char>>) -> Seq<Seq<char>>
    decreases names.len(),
{
    if names.len() == 0 {
        Seq::empty()
    } else if is_marker(names.last()) {
        markers_among(names.drop_last()).push(names.last())
    } else {
        markers_among(names.drop_last())
    }
}

/// Without an item that equals its predecessor.
pub open spec fn without_repeats(s: Seq<Seq<char>>) -> Seq<Seq<char>>
    decreases s.len(),
{
    if s.len() == 0 {
        Seq::empty()
    } else {
        let before = without_repeats(s.drop_last());
        if s.len() > 1 && s[s.len() - 2] == s.last() {
            before
        } else {
            before.push(s.last())
        }
    }
}

/// The texts in text order.
pub open spec fn text_sorted(names: Seq<Seq<char>>) -> Seq<Seq<char>> {
    choose|sorted: Seq<Seq<char>>| in_text_order(names, sorted)
}

/// Which marker files a directory of those names contains: sorted, each once.
pub open spec fn markers_of(names: Seq<Seq<char>>) -> Seq<Seq<char>> {
    without_repeats(text_sorted(markers_among(names)))
}

/// Copies in text order.
pub fn sort_texts(found: &Vec<String>) -> (names: Vec<String>)
    ensures
        views(names@) == text_sorted(views(found@)),
        in_text_order(views(found@), views(names@)),
{
    let order = order_of(found);
    assert forall|i: int| 0 <= i < order@.len() implies (#[trigger] order@[i]) < found@.len() by {
        assert(positions(order@)[i] < views(found@).len());
    }
    let names = pick(found, &order);
    proof {
        let le = |a: Seq<char>, b: Seq<char>| text_le(a, b);
        let string_le = |a: Seq<char>, b: Seq<char>| <String as Ranked>::le(a, b);
        assert(string_le =~= le);
        assert(is_stable_order(views(found@), le, positions(order@)));
        assert(in_text_order(views(found@), views(names@)));
        lemma_text_order_unique(views(found@), views(names@), text_sorted(views(found@)));
    }
    names
}

/// Sorted texts without repeats hold each of the texts once.
pub proof fn lemma_sorted_once(names: Seq<Seq<char>>, sorted: Seq<Seq<char>>)
    requires
        in_text_order(names, sorted),
    ensures
        without_repeats(sorted).no_duplicates(),
        forall|x: Seq<char>| without_repeats(sorted).contains(x) == names.contains(x),
{
    let le = |a: Seq<char>, b: Seq<char>| text_le(a, b);
    sorting_keeps_every_item(names, sorted, le);
    lemma_sorted_pairs(names, sorted, le);
    assert forall|i: int, j: int| 0 <= i < j < sorted.len() implies text_le(sorted[i], sorted[j]) by {
        assert(le(sorted[i], sorted[j]));
    }
    lemma_repeats_dropped(sorted);
    names.to_multiset_ensures();
    sorted.to_multiset_ensures();
    assert forall|x: Seq<char>| without_repeats(sorted).contains(x) == names.contains(x) by {
        assert(names.contains(x) <==> names.to_multiset().count(x) > 0);
        assert(sorted.contains(x) <==> sorted.to_multiset().count(x) > 0);
        assert(without_repeats(sorted).contains(x) == sorted.contains(x));
    }
}

proof fn lemma_repeats_dropped(sorted: Seq<Seq<char>>)
    requires
        forall|i: int, j: int| 0 <= i < j < sorted.len() ==> text_le(sorted[i], sorted[j]),
    ensures
        without_repeats(sorted).no_duplicates(),
        forall|x: Seq<char>| #[trigger] without_repeats(sorted).contains(x) == sorted.contains(x),
    decreases sorted.len(),
{
    if sorted.len() > 0 {
        let fewer = sorted.drop_last();
        let last = sorted.last();
        let before = without_repeats(fewer);
        lemma_repeats_dropped(fewer);
        assert(sorted =~= fewer.push(last));
        assert forall|x: Seq<char>| sorted.contains(x) == (fewer.contains(x) || x == last) by {
            if fewer.contains(x) {
                let k = choose|k: int| 0 <= k < fewer.len() && fewer[k] == x;
                assert(sorted[k] == x);
            }
            if x == last {
                assert(sorted[sorted.len() - 1] == x);
            }
        }
        if sorted.len() > 1 && sorted[sorted.len() - 2] == last {
            assert(fewer[fewer.len() - 1] == last);
            assert(fewer.contains(last));
        } else {
            let after = before.push(last);
            if fewer.contains(last) {
                let k = choose|k: int| 0 <= k < fewer.len() && fewer[k] == last;
                let m = fewer.len() - 1;
                assert(text_le(sorted[m], sorted[sorted.len() - 1]));
                if k < m {
                    assert(text_le(sorted[k], sorted[m]));
                }
                lemma_text_le_total(sorted[m], last);
            }
            assert(!before.contains(last));
            assert forall|x: Seq<char>| #[trigger] after.contains(x) == (before.contains(x) || x
                == last) by {
                if before.contains(x) {
                    let k = choose|k: int| 0 <= k < before.len() && before[k] == x;
                    assert(after[k] == x);
                }
                if x == last {
                    assert(after[after.len() - 1] == x);
                }
            }
        }
    } else {
        assert(without_repeats(sorted) =~= sorted);
    }
}

/// Copies without an item that equals its predecessor.
pub fn drop_repeats(sorted: &Vec<String>) -> (out: Vec<String>)
    ensures
        views(out@) == without_repeats(views(sorted@)),
{
    let ghost all = views(sorted@);
    let mut out: Vec<String> = Vec::new();
    let mut i: usize = 0;
    assert(views(out@) =~= without_repeats(all.take(0)));
    while i < sorted.len()
        invariant
            i <= sorted@.len(),
            all == views(sorted@),
            views(out@) == without_repeats(all.take(i as int)),
        decreases sorted@.len() - i,
    {
        let ghost now = all.take(i + 1);
        assert(now.drop_last() =~= all.take(i as int));
        assert(now.last() == sorted@[i as int]@);
        if i == 0 || !same(sorted[i - 1].as_str(), sorted[i].as_str()) {
            out.push(sorted[i].clone());
        }
        if i > 0 {
            assert(now[now.len() - 2] == sorted@[i - 1]@);
        }
        i += 1;
    }
    assert(all.take(all.len() as int) =~= all);
    out
}

/// Which marker files a directory of those names contains.
pub fn markers_in(names: &Vec<String>) -> (markers: Vec<String>)
    ensures
        views(markers@) == markers_of(views(names@)),
{
    let ghost all = views(names@);
    let mut found: Vec<String> = Vec::new();
    let mut i: usize = 0;
    assert(views(found@) =~= markers_among(all.take(0)));
    while i < names.len()
        invariant
            i <= names@.len(),
            all == views(names@),
            views(found@) == markers_among(all.take(i as int)),
        decreases names@.len() - i,
    {
        assert(all.take(i + 1).drop_last() =~= all.take(i as int));
        assert(all.take(i + 1).last() == names@[i as int]@);
        if marks_project(names[i].as_str()) {
            found.push(names[i].clone());
        }
        i += 1;
    }
    assert(all.take(all.len() as int) =~= all);
    drop_repeats(&sort_texts(&found))
}

/// A directory that the walk reached, with the names in it.
#[derive(Debug, Clone, PartialEq, Eq)]
pub struct VisitedDir {
    pub path: String,
    pub names: Vec<String>,
}

impl View for VisitedDir {
    type V = (Seq<char>, Seq<Seq<char>>);

    open spec fn view(&self) -> (Seq<char>, Seq<Seq<char>>) {
        (self.path@, views(self.names@))
    }
}

/// Result of the project walk.
#[derive(Debug, Clone, PartialEq, Eq)]
pub struct Discovery {
    pub projects: Vec<ProjectRoot>,
    /// Directories that could not be read, so the list may be incomplete.
    pub unreadable: Vec<String>,
}

/// How the components of a path rank: a root, `.`, `..`, and then the names in text order.
pub open spec fn component_rank(c: Seq<char>) -> int {
    if c == seq!['/'] {
        0
    } else if c == seq!['.'] {
        1
    } else if c == seq!['.', '.'] {
        2
    } else {
        3
    }
}

pub open spec fn component_le(a: Seq<char>, b: Seq<char>) -> bool {
    component_rank(a) < component_rank(b) || (component_rank(a) == component_rank(b) && text_le(
        a,
        b,
    ))
}

/// The order of paths: component by component.
pub open spec fn components_le(a: Seq<Seq<char>>, b: Seq<Seq<char>>) -> bool
    decreases a.len(),
{
    if a.len() == 0 {
        true
    } else if b.len() == 0 {
        false
    } else if a[0] != b[0] {
        component_le(a[0], b[0])
    } else {
        components_le(a.skip(1), b.skip(1))
    }
}

pub open spec fn path_le(a: Seq<char>, b: Seq<char>) -> bool {
    components_le(components(a), components(b))
}

/// The components of a path, to order paths by.
pub struct PathKey {
    pub components: Vec<String>,
}

impl View for PathKey {
    type V = Seq<Seq<char>>;

    open spec fn view(&self) -> Seq<Seq<char>> {
        views(self.components@)
    }
}

proof fn lemma_component_le_total(a: Seq<char>, b: Seq<char>)
    ensures
        component_le(a, b) || component_le(b, a),
        component_le(a, b) && component_le(b, a) ==> a == b,
{
    lemma_text_le_total(a, b);
}

proof fn lemma_components_le_transitive(a: Seq<Seq<char>>, b: Seq<Seq<char>>, c: Seq<Seq<char>>)
    requires
        components_le(a, b),
        components_le(b, c),
    ensures
        components_le(a, c),
    decreases a.len(),
{
    if a.len() > 0 && b.len() > 0 && c.len() > 0 {
        if a[0] == b[0] && b[0] == c[0] {
            lemma_components_le_transitive(a.skip(1), b.skip(1), c.skip(1));
        } else if a[0] != b[0] && b[0] != c[0] {
            if component_rank(a[0]) == component_rank(b[0]) && component_rank(b[0])
                == component_rank(c[0]) {
                lemma_text_le_transitive(a[0], b[0], c[0]);
            }
            if a[0] == c[0] {
                lemma_component_le_total(a[0], b[0]);
            }
        }
    }
}

proof fn lemma_components_le_total(a: Seq<Seq<char>>, b: Seq<Seq<char>>)
    ensures
        components_le(a, b) || components_le(b, a),
        components_le(a, b) && components_le(b, a) ==> a == b,
    decreases a.len(),
{
    if a.len() > 0 && b.len() > 0 {
        lemma_component_le_total(a[0], b[0]);
        if a[0] == b[0] {
            lemma_components_le_total(a.skip(1), b.skip(1));
            if components_le(a, b) && components_le(b, a) {
                assert(a =~= seq![a[0]] + a.skip(1));
                assert(b =~= seq![b[0]] + b.skip(1));
            }
        }
    } else if a.len() == 0 && b.len() == 0 {
        assert(a =~= b);
    }
}

fn rank_of(c: &str) -> (n: u8)
    ensures
        n == component_rank(c@),
{
    let chars = chars_of(c);
    proof {
        assert(c@ == seq!['/'] <==> (c@.len() == 1 && c@[0] == '/')) by {
            if c@.len() == 1 && c@[0] == '/' {
                assert(c@ =~= seq!['/']);
            }
        }
        assert(c@ == seq!['.'] <==> (c@.len() == 1 && c@[0] == '.')) by {
            if c@.len() == 1 && c@[0] == '.' {
                assert(c@ =~= seq!['.']);
            }
        }
        assert(c@ == seq!['.', '.'] <==> (c@.len() == 2 && c@[0] == '.' && c@[1] == '.')) by {
            if c@.len() == 2 && c@[0] == '.' && c@[1] == '.' {
                assert(c@ =~= seq!['.', '.']);
            }
        }
    }
    if chars.len() == 1 && chars[0] == '/' {
        0
    } else if chars.len() == 1 && chars[0] == '.' {
        1
    } else if chars.len() == 2 && chars[0] == '.' && chars[1] == '.' {
        2
    } else {
        3
    }
}

impl Ranked for PathKey {
    open spec fn le(a: Seq<Seq<char>>, b: Seq<Seq<char>>) -> bool {
        components_le(a, b)
    }

    proof fn le_total(a: Seq<Seq<char>>, b: Seq<Seq<char>>) {
        lemma_components_le_total(a, b);
    }

    proof fn le_transitive(a: Seq<Seq<char>>, b: Seq<Seq<char>>, c: Seq<Seq<char>>) {
        lemma_components_le_transitive(a, b, c);
    }

    fn at_most(&self, other: &Self) -> (r: bool) {
        let ghost a = self@;
        let ghost b = other@;
        let mut i: usize = 0;
        assert(a.skip(0) =~= a && b.skip(0) =~= b);
        while i < self.components.len() && i < other.components.len()
            invariant
                i <= self.components@.len(),
                i <= other.components@.len(),
                a == views(self.components@),
                b == views(other.components@),
                components_le(a, b) == components_le(a.skip(i as int), b.skip(i as int)),
            decreases self.components@.len() - i,
        {
            let x = self.components[i].as_str();
            let y = other.components[i].as_str();
            assert(a.skip(i as int)[0] == x@ && b.skip(i as int)[0] == y@);
            if !same(x, y) {
                let m = rank_of(x);
                let n = rank_of(y);
                return m < n || (m == n && text_at_most(x, y));
            }
            assert(a.skip(i as int).skip(1) =~= a.skip(i + 1));
            assert(b.skip(i as int).skip(1) =~= b.skip(i + 1));
            i += 1;
        }
        i >= self.components.len()
    }
}

/// The visited directories that carry a marker, as projects, in the order of the walk.
pub open spec fn marked_dirs(visited: Seq<(Seq<char>, Seq<Seq<char>>)>) -> Seq<ProjectModel>
    decreases visited.len(),
{
    if visited.len() == 0 {
        Seq::empty()
    } else {
        let before = marked_dirs(visited.drop_last());
        let markers = markers_of(visited.last().1);
        if markers.len() > 0 {
            before.push(ProjectModel { path: visited.last().0, markers })
        } else {
            before
        }
    }
}

/// Without a project whose path is that of its predecessor.
pub open spec fn distinct_projects(sorted: Seq<ProjectModel>) -> Seq<ProjectModel>
    decreases sorted.len(),
{
    if sorted.len() == 0 {
        Seq::empty()
    } else {
        let before = distinct_projects(sorted.drop_last());
        if before.len() > 0 && components(before.last().path) == components(sorted.last().path) {
            before
        } else {
            before.push(sorted.last())
        }
    }
}

pub open spec fn project_le(a: ProjectModel, b: ProjectModel) -> bool {
    path_le(a.path, b.path)
}

/// Projects in the order of their paths.
pub open spec fn sorted_projects(found: Seq<ProjectModel>, sorted: Seq<ProjectModel>) -> bool {
    stably_sorted(found, sorted, |a: ProjectModel, b: ProjectModel| project_le(a, b))
}

/// Gather the projects among the directories that a walk reached: ordered by path, each once.
///
/// A directory with a marker is a project and was still descended into, because monorepos
/// nest real projects under a root that is one itself.
pub fn find_projects(visited: &Vec<VisitedDir>, unreadable: Vec<String>) -> (found: Discovery)
    ensures
        exists|sorted: Seq<ProjectModel>|
            #[trigger] sorted_projects(marked_dirs(views(visited@)), sorted) && views(
                found.projects@,
            ) == distinct_projects(sorted),
        found.unreadable == unreadable,
{
    let ghost all = views(visited@);
    let mut projects: Vec<ProjectRoot> = Vec::new();
    let mut keys: Vec<PathKey> = Vec::new();
    let mut i: usize = 0;
    assert(views(projects@) =~= marked_dirs(all.take(0)));
    while i < visited.len()
        invariant
            i <= visited@.len(),
            all == views(visited@),
            views(projects@) == marked_dirs(all.take(i as int)),
            keys@.len() == projects@.len(),
            forall|k: int|
                0 <= k < keys@.len() ==> (#[trigger] keys@[k])@ == components(projects@[k].path@),
        decreases visited@.len() - i,
    {
        assert(all.take(i + 1).drop_last() =~= all.take(i as int));
        assert(all.take(i + 1).last() == visited@[i as int]@);
        let markers = markers_in(&visited[i].names);
        assert(views(markers@).len() == markers@.len());
        if markers.len() > 0 {
            keys.push(PathKey { components: components_of(visited[i].path.as_str()) });
            projects.push(ProjectRoot { path: visited[i].path.clone(), markers });
        }
        i += 1;
    }
    assert(all.take(all.len() as int) =~= all);
    let order = order_of(&keys);
    assert forall|k: int| 0 <= k < order@.len() implies (#[trigger] order@[k]) < projects@.len() by {
        assert(positions(order@)[k] < views(keys@).len());
    }
    let sorted = pick(&projects, &order);
    proof {
        let key = |p: ProjectModel| components(p.path);
        let le = |a: Seq<Seq<char>>, b: Seq<Seq<char>>| <PathKey as Ranked>::le(a, b);
        assert forall|k: int| 0 <= k < projects@.len() implies views(keys@)[k] == #[trigger] key(
            views(projects@)[k],
        ) by {
            assert(keys@[k]@ == components(projects@[k].path@));
        }
        lemma_order_by_key(views(projects@), views(keys@), key, le, positions(order@));
        let by_path = |a: ProjectModel, b: ProjectModel| project_le(a, b);
        assert((|a: ProjectModel, b: ProjectModel| le(key(a), key(b))) =~= by_path);
        assert(is_stable_order(views(projects@), by_path, positions(order@)));
        assert(sorted_projects(marked_dirs(all), views(sorted@)));
    }
    let ghost in_order = views(sorted@);
    let mut out: Vec<ProjectRoot> = Vec::new();
    let mut n: usize = 0;
    assert(views(out@) =~= distinct_projects(in_order.take(0)));
    while n < sorted.len()
        invariant
            n <= sorted@.len(),
            in_order == views(sorted@),
            views(out@) == distinct_projects(in_order.take(n as int)),
        decreases sorted@.len() - n,
    {
        assert(in_order.take(n + 1).drop_last() =~= in_order.take(n as int));
        assert(in_order.take(n + 1).last() == sorted@[n as int]@);
        if out.len() > 0 {
            assert(views(out@).last() == out@[out@.len() - 1]@);
        }
        if out.len() == 0 || !same_path(
            out[out.len() - 1].path.as_str(),
            sorted[n].path.as_str(),
        ) {
            out.push(sorted[n].dup());
        }
        n += 1;
    }
    assert(in_order.take(in_order.len() as int) =~= in_order);
    Discovery { projects: out, unreadable }
}

/// The projects that carry any of the markers, in order.
pub open spec fn marked_with(projects: Seq<ProjectModel>, markers: Seq<Seq<char>>) -> Seq<
    ProjectModel,
>
    decreases projects.len(),
{
    if projects.len() == 0 {
        Seq::empty()
    } else {
        let before = marked_with(projects.drop_last(), markers);
        if projects.last().marked_any(markers) {
            before.push(projects.last())
        } else {
            before
        }
    }
}

/// Project roots that carry any of the given markers.
pub fn projects_with(projects: &Vec<ProjectRoot>, markers: &[&str]) -> (out: Vec<ProjectRoot>)
    ensures
        views(out@) == marked_with(views(projects@), views(markers@)),
{
    let ghost all = views(projects@);
    let mut out: Vec<ProjectRoot> = Vec::new();
    let mut i: usize = 0;
    assert(views(out@) =~= marked_with(all.take(0), views(markers@)));
    while i < projects.len()
        invariant
            i <= projects@.len(),
            all == views(projects@),
            views(out@) == marked_with(all.take(i as int), views(markers@)),
        decreases projects@.len() - i,
    {
        assert(all.take(i + 1).drop_last() =~= all.take(i as int));
        assert(all.take(i + 1).last() == projects@[i as int]@);
        if projects[i].has_any_marker(markers) {
            out.push(projects[i].dup());
        }
        i += 1;
    }
    assert(all.take(all.len() as int) =~= all);
    out
}

/// `a` stands before `b`, and is another path.
pub open spec fn strictly_before(a: ProjectModel, b: ProjectModel) -> bool {
    components(a.path) != components(b.path) && project_le(a, b)
}

/// No path is listed twice, and the list is ordered by path.
pub proof fn projects_are_listed_once(found: Seq<ProjectModel>, sorted: Seq<ProjectModel>)
    requires
        sorted_projects(found, sorted),
    ensures
        forall|i: int, j: int|
            0 <= i < j < distinct_projects(sorted).len() ==> #[trigger] strictly_before(
                distinct_projects(sorted)[i],
                distinct_projects(sorted)[j],
            ),
{
    let le = |a: ProjectModel, b: ProjectModel| project_le(a, b);
    lemma_sorted_pairs(found, sorted, le);
    assert forall|i: int, j: int| 0 <= i < j < sorted.len() implies #[trigger] project_le(
        sorted[i],
        sorted[j],
    ) by {
        assert(le(sorted[i], sorted[j]));
    }
    lemma_distinct_projects(sorted);
}

proof fn lemma_distinct_projects(sorted: Seq<ProjectModel>)
    requires
        forall|i: int, j: int|
            0 <= i < j < sorted.len() ==> #[trigger] project_le(sorted[i], sorted[j]),
    ensures
        forall|i: int|
            0 <= i < distinct_projects(sorted).len() ==> sorted.contains(
                #[trigger] distinct_projects(sorted)[i],
            ),
        sorted.len() > 0 ==> distinct_projects(sorted).len() > 0 && components(
            distinct_projects(sorted).last().path,
        ) == components(sorted.last().path),
        forall|i: int, j: int|
            0 <= i < j < distinct_projects(sorted).len() ==> #[trigger] strictly_before(
                distinct_projects(sorted)[i],
                distinct_projects(sorted)[j],
            ),
    decreases sorted.len(),
{
    if sorted.len() > 0 {
        let rest = sorted.drop_last();
        let last = sorted.last();
        assert forall|i: int, j: int| 0 <= i < j < rest.len() implies #[trigger] project_le(
            rest[i],
            rest[j],
        ) by {
            assert(project_le(sorted[i], sorted[j]));
        }
        lemma_distinct_projects(rest);
        let before = distinct_projects(rest);
        let now = distinct_projects(sorted);
        assert forall|i: int| 0 <= i < now.len() implies sorted.contains(#[trigger] now[i]) by {
            if i < before.len() {
                assert(rest.contains(before[i]));
                let k = choose|k: int| 0 <= k < rest.len() && rest[k] == before[i];
                assert(sorted[k] == now[i]);
            } else {
                assert(sorted[sorted.len() - 1] == now[i]);
            }
        }
        assert forall|i: int, j: int| 0 <= i < j < now.len() implies #[trigger] strictly_before(
            now[i],
            now[j],
        ) by {
            assert(now[i] == before[i]);
            if j < before.len() {
                assert(strictly_before(before[i], before[j]));
            } else {
                assert(now[j] == last);
                assert(rest.contains(before[i]));
                let k = choose|k: int| 0 <= k < rest.len() && rest[k] == before[i];
                assert(project_le(sorted[k], sorted[sorted.len() - 1]));
                if components(now[i].path) == components(last.path) {
                    // between two equal paths everything is equal, so `last` repeats
                    if i < before.len() - 1 {
                        assert(strictly_before(before[i], before[before.len() - 1]));
                        assert(project_le(sorted[rest.len() - 1], sorted[sorted.len() - 1]));
                        lemma_components_le_total(
                            components(before[i].path),
                            components(before.last().path),
                        );
                    }
                }
            }
        }
    }
}

/// The walk never enters an artifact tree or a hidden directory other than `.config`.
pub proof fn artifact_trees_are_pruned(name: Seq<char>, path: Seq<char>, exclude: Seq<Seq<char>>)
    requires
        never_descend().contains(name) || (has_prefix(name, "."@) && name != ".config"@),
    ensures
        is_pruned(name, path, exclude),
{
}

/// The names of files that mark a project.
pub proof fn these_names_mark_a_project(name: Seq<char>)
    ensures
        project_markers().contains(name) == (name == "package.json"@ || name == "Cargo.toml"@
            || name == "pyproject.toml"@ || name == "requirements.txt"@ || name == "Pipfile"@
            || name == "setup.py"@ || name == "environment.yml"@ || name == "pom.xml"@
            || name == "build.gradle"@ || name == "build.gradle.kts"@
            || name == "settings.gradle"@ || name == "settings.gradle.kts"@
            || name == "build.sbt"@ || name == "go.mod"@ || name == "Podfile"@
            || name == "Package.swift"@ || name == "Cartfile"@
            || name == "Directory.Build.props"@ || name == "Gemfile"@ || name == "composer.json"@
            || name == "pubspec.yaml"@ || name == "CMakeLists.txt"@ || name == "WORKSPACE"@
            || name == "MODULE.bazel"@),
{
    assert(project_markers()[0] == "package.json"@);
    assert(project_markers()[1] == "Cargo.toml"@);
    assert(project_markers()[2] == "pyproject.toml"@);
    assert(project_markers()[3] == "requirements.txt"@);
    assert(project_markers()[4] == "Pipfile"@);
    assert(project_markers()[5] == "setup.py"@);
    assert(project_markers()[6] == "environment.yml"@);
    assert(project_markers()[7] == "pom.xml"@);
    assert(project_markers()[8] == "build.gradle"@);
    assert(project_markers()[9] == "build.gradle.kts"@);
    assert(project_markers()[10] == "settings.gradle"@);
    assert(project_markers()[11] == "settings.gradle.kts"@);
    assert(project_markers()[12] == "build.sbt"@);
    assert(project_markers()[13] == "go.mod"@);
    assert(project_markers()[14] == "Podfile"@);
    assert(project_markers()[15] == "Package.swift"@);
    assert(project_markers()[16] == "Cartfile"@);
    assert(project_markers()[17] == "Directory.Build.props"@);
    assert(project_markers()[18] == "Gemfile"@);
    assert(project_markers()[19] == "composer.json"@);
    assert(project_markers()[20] == "pubspec.yaml"@);
    assert(project_markers()[21] == "CMakeLists.txt"@);
    assert(project_markers()[22] == "WORKSPACE"@);
    assert(project_markers()[23] == "MODULE.bazel"@);
}

/// The names of directories that are never entered.
pub proof fn these_trees_are_never_entered(name: Seq<char>)
    ensures
        never_descend().contains(name) == (name == "node_modules"@ || name == "target"@
            || name == "build"@ || name == "dist"@ || name == "out"@ || name == "vendor"@
            || name == "Pods"@ || name == "Carthage"@ || name == ".git"@ || name == ".hg"@
            || name == ".svn"@ || name == ".venv"@ || name == "venv"@ || name == ".tox"@
            || name == "__pycache__"@ || name == ".mypy_cache"@ || name == ".pytest_cache"@
            || name == ".ruff_cache"@ || name == ".next"@ || name == ".nuxt"@
            || name == ".turbo"@ || name == ".parcel-cache"@ || name == ".gradle"@
            || name == ".dart_tool"@ || name == ".terraform"@ || name == "DerivedData"@
            || name == ".Trash"@ || name == "Library"@ || name == ".cache"@ || name == "obj"@
            || name == "bin"@),
{
    assert(never_descend()[0] == "node_modules"@);
    assert(never_descend()[1] == "target"@);
    assert(never_descend()[2] == "build"@);
    assert(never_descend()[3] == "dist"@);
    assert(never_descend()[4] == "out"@);
    assert(never_descend()[5] == "vendor"@);
    assert(never_descend()[6] == "Pods"@);
    assert(never_descend()[7] == "Carthage"@);
    assert(never_descend()[8] == ".git"@);
    assert(never_descend()[9] == ".hg"@);
    assert(never_descend()[10] == ".svn"@);
    assert(never_descend()[11] == ".venv"@);
    assert(never_descend()[12] == "venv"@);
    assert(never_descend()[13] == ".tox"@);
    assert(never_descend()[14] == "__pycache__"@);
    assert(never_descend()[15] == ".mypy_cache"@);
    assert(never_descend()[16] == ".pytest_cache"@);
    assert(never_descend()[17] == ".ruff_cache"@);
    assert(never_descend()[18] == ".next"@);
    assert(never_descend()[19] == ".nuxt"@);
    assert(never_descend()[20] == ".turbo"@);
    assert(never_descend()[21] == ".parcel-cache"@);
    assert(never_descend()[22] == ".gradle"@);
    assert(never_descend()[23] == ".dart_tool"@);
    assert(never_descend()[24] == ".terraform"@);
    assert(never_descend()[25] == "DerivedData"@);
    assert(never_descend()[26] == ".Trash"@);
    assert(never_descend()[27] == "Library"@);
    assert(never_descend()[28] == ".cache"@);
    assert(never_descend()[29] == "obj"@);
    assert(never_descend()[30] == "bin"@);
}

proof fn lemma_markers_among(names: Seq<Seq<char>>)
    ensures
        markers_among(names) == names.filter(|name: Seq<char>| is_marker(name)),
    decreases names.len(),
{
    reveal(Seq::filter);
    if names.len() > 0 {
        lemma_markers_among(names.drop_last());
    } else {
        assert(markers_among(names) =~= names);
    }
}

proof fn lemma_repeats_sorted(sorted: Seq<Seq<char>>)
    requires
        forall|i: int, j: int| 0 <= i < j < sorted.len() ==> text_le(sorted[i], sorted[j]),
    ensures
        forall|i: int, j: int|
            0 <= i < j < without_repeats(sorted).len() ==> text_le(
                #[trigger] without_repeats(sorted)[i],
                #[trigger] without_repeats(sorted)[j],
            ),
    decreases sorted.len(),
{
    if sorted.len() > 0 {
        let fewer = sorted.drop_last();
        lemma_repeats_sorted(fewer);
        lemma_repeats_dropped(fewer);
        let before = without_repeats(fewer);
        let now = without_repeats(sorted);
        assert forall|i: int, j: int| 0 <= i < j < now.len() implies text_le(
            #[trigger] now[i],
            #[trigger] now[j],
        ) by {
            if j == before.len() {
                assert(before.contains(before[i]));
                assert(fewer.contains(before[i]));
                let k = choose|k: int| 0 <= k < fewer.len() && fewer[k] == before[i];
                assert(text_le(sorted[k], sorted[sorted.len() - 1]));
            } else {
                assert(now[i] == before[i] && now[j] == before[j]);
            }
        }
    }
}

/// The markers of a directory are all the names in it that mark a project, each once and in text
/// order: a listed name, or one that ends in the extension of a project of Xcode or .NET.
pub proof fn every_marker_is_found(names: Seq<Seq<char>>)
    ensures
        forall|x: Seq<char>|
            #[trigger] markers_of(names).contains(x) == (names.contains(x) && (
            project_markers().contains(x) || extension(x) == Some("xcodeproj"@) || extension(x)
                == Some("xcworkspace"@) || extension(x) == Some("csproj"@) || extension(x) == Some(
                "sln"@,
            ))),
        markers_of(names).no_duplicates(),
        forall|i: int, j: int|
            0 <= i < j < markers_of(names).len() ==> text_le(
                #[trigger] markers_of(names)[i],
                #[trigger] markers_of(names)[j],
            ),
{
    let found = markers_among(names);
    let marks = |name: Seq<char>| is_marker(name);
    lemma_markers_among(names);
    let order = lemma_text_order_exists(found);
    assert(in_text_order(found, order));
    let sorted = text_sorted(found);
    assert(in_text_order(found, sorted));
    lemma_sorted_once(found, sorted);
    let le = |a: Seq<char>, b: Seq<char>| text_le(a, b);
    lemma_sorted_pairs(found, sorted, le);
    assert forall|i: int, j: int| 0 <= i < j < sorted.len() implies text_le(
        sorted[i],
        sorted[j],
    ) by {
        assert(le(sorted[i], sorted[j]));
    }
    lemma_repeats_sorted(sorted);
    assert forall|x: Seq<char>| #[trigger] found.contains(x) == (names.contains(x) && is_marker(x))
        by {
        if names.contains(x) && is_marker(x) {
            let i = choose|i: int| 0 <= i < names.len() && names[i] == x;
            names.lemma_filter_contains(marks, i);
        }
        if found.contains(x) {
            let i = choose|i: int| 0 <= i < found.len() && found[i] == x;
            names.lemma_filter_pred(marks, i);
            lemma_filtered_from(names, marks, i);
        }
    }
    assert forall|x: Seq<char>| #[trigger] markers_of(names).contains(x) == (names.contains(x) && (
    project_markers().contains(x) || extension(x) == Some("xcodeproj"@) || extension(x) == Some(
        "xcworkspace"@,
    ) || extension(x) == Some("csproj"@) || extension(x) == Some("sln"@))) by {
        assert(found.contains(x) == (names.contains(x) && is_marker(x)));
    }
}

proof fn lemma_marked_dirs(visited: Seq<(Seq<char>, Seq<Seq<char>>)>, p: ProjectModel)
    ensures
        marked_dirs(visited).contains(p) == (exists|i: int|
            0 <= i < visited.len() && (#[trigger] visited[i]).0 == p.path && p.markers
                == markers_of(visited[i].1) && p.markers.len() > 0),
    decreases visited.len(),
{
    if visited.len() > 0 {
        let fewer = visited.drop_last();
        let last = visited.last();
        lemma_marked_dirs(fewer, p);
        let before = marked_dirs(fewer);
        let now = marked_dirs(visited);
        let own = ProjectModel { path: last.0, markers: markers_of(last.1) };
        assert(now.contains(p) == (before.contains(p) || (own.markers.len() > 0 && p == own))) by {
            if before.contains(p) {
                let k = choose|k: int| 0 <= k < before.len() && before[k] == p;
                assert(now[k] == p);
            }
            if own.markers.len() > 0 {
                assert(now[now.len() - 1] == own);
            }
        }
        if exists|i: int|
            0 <= i < fewer.len() && (#[trigger] fewer[i]).0 == p.path && p.markers == markers_of(
                fewer[i].1,
            ) && p.markers.len() > 0 {
            let i = choose|i: int|
                0 <= i < fewer.len() && (#[trigger] fewer[i]).0 == p.path && p.markers
                    == markers_of(fewer[i].1) && p.markers.len() > 0;
            assert(visited[i].0 == p.path);
        }
        if exists|i: int|
            0 <= i < visited.len() && (#[trigger] visited[i]).0 == p.path && p.markers
                == markers_of(visited[i].1) && p.markers.len() > 0 {
            let i = choose|i: int|
                0 <= i < visited.len() && (#[trigger] visited[i]).0 == p.path && p.markers
                    == markers_of(visited[i].1) && p.markers.len() > 0;
            if i < fewer.len() {
                assert(fewer[i].0 == p.path);
            } else {
                assert(p == own);
            }
        }
        if own.markers.len() > 0 && p == own {
            assert(visited[visited.len() - 1].0 == p.path);
        }
    }
}

proof fn lemma_paths_kept(sorted: Seq<ProjectModel>, i: int)
    requires
        0 <= i < sorted.len(),
    ensures
        exists|j: int|
            0 <= j < distinct_projects(sorted).len() && components(
                (#[trigger] distinct_projects(sorted)[j]).path,
            ) == components(sorted[i].path),
    decreases sorted.len(),
{
    let fewer = sorted.drop_last();
    let before = distinct_projects(fewer);
    let now = distinct_projects(sorted);
    if i < fewer.len() {
        lemma_paths_kept(fewer, i);
        let j = choose|j: int|
            0 <= j < before.len() && components((#[trigger] before[j]).path) == components(
                fewer[i].path,
            );
        assert(now[j] == before[j]);
    } else {
        assert(components(now[now.len() - 1].path) == components(sorted[i].path));
    }
}

/// Every visited directory with a marker among its names is a project, and every project is such a
/// directory with all of its markers.
pub proof fn every_marked_directory_is_a_project(
    visited: Seq<(Seq<char>, Seq<Seq<char>>)>,
    sorted: Seq<ProjectModel>,
)
    requires
        sorted_projects(marked_dirs(visited), sorted),
    ensures
        forall|i: int, k: int|
            0 <= i < visited.len() && 0 <= k < visited[i].1.len() && is_marker(
                #[trigger] visited[i].1[k],
            ) ==> exists|j: int|
                0 <= j < distinct_projects(sorted).len() && components(
                    (#[trigger] distinct_projects(sorted)[j]).path,
                ) == components(visited[i].0),
        forall|j: int|
            0 <= j < distinct_projects(sorted).len() ==> exists|i: int|
                0 <= i < visited.len() && (#[trigger] visited[i]).0 == (
                #[trigger] distinct_projects(sorted)[j]).path && distinct_projects(sorted)[j].markers
                    == markers_of(visited[i].1) && distinct_projects(sorted)[j].markers.len() > 0,
{
    let le = |a: ProjectModel, b: ProjectModel| project_le(a, b);
    let found = marked_dirs(visited);
    sorting_keeps_every_item(found, sorted, le);
    lemma_sorted_pairs(found, sorted, le);
    assert forall|i: int, j: int| 0 <= i < j < sorted.len() implies #[trigger] project_le(
        sorted[i],
        sorted[j],
    ) by {
        assert(le(sorted[i], sorted[j]));
    }
    lemma_distinct_projects(sorted);
    found.to_multiset_ensures();
    sorted.to_multiset_ensures();
    assert forall|p: ProjectModel| #[trigger] sorted.contains(p) == found.contains(p) by {
        assert(sorted.contains(p) == (sorted.to_multiset().count(p) > 0));
        assert(found.contains(p) == (found.to_multiset().count(p) > 0));
    }
    assert forall|i: int, k: int|
        0 <= i < visited.len() && 0 <= k < visited[i].1.len() && is_marker(
            #[trigger] visited[i].1[k],
        ) implies exists|j: int|
        0 <= j < distinct_projects(sorted).len() && components(
            (#[trigger] distinct_projects(sorted)[j]).path,
        ) == components(visited[i].0) by {
        let names = visited[i].1;
        every_marker_is_found(names);
        assert(names.contains(names[k]));
        assert(markers_of(names).contains(names[k]));
        let p = ProjectModel { path: visited[i].0, markers: markers_of(names) };
        lemma_marked_dirs(visited, p);
        assert(visited[i].0 == p.path && p.markers.len() > 0);
        assert(sorted.contains(p));
        let m = choose|m: int| 0 <= m < sorted.len() && sorted[m] == p;
        lemma_paths_kept(sorted, m);
    }
    assert forall|j: int| 0 <= j < distinct_projects(sorted).len() implies exists|i: int|
        0 <= i < visited.len() && (#[trigger] visited[i]).0 == (#[trigger] distinct_projects(
            sorted,
        )[j]).path && distinct_projects(sorted)[j].markers == markers_of(visited[i].1)
            && distinct_projects(sorted)[j].markers.len() > 0 by {
        let p = distinct_projects(sorted)[j];
        assert(sorted.contains(p));
        assert(found.contains(p));
        lemma_marked_dirs(visited, p);
    }
}

/// The projects for a provider are those that carry one of its markers, in order.
pub proof fn a_provider_sees_every_project_it_knows(
    projects: Seq<ProjectModel>,
    markers: Seq<Seq<char>>,
)
    ensures
        marked_with(projects, markers) == projects.filter(
            |p: ProjectModel|
                exists|i: int| 0 <= i < markers.len() && p.markers.contains(#[trigger] markers[i]),
        ),
    decreases projects.len(),
{
    reveal(Seq::filter);
    if projects.len() > 0 {
        a_provider_sees_every_project_it_knows(projects.drop_last(), markers);
        let last = projects.last();
        if last.marked_any(markers) {
            let i = choose|i: int| 0 <= i < markers.len() && last.marked(#[trigger] markers[i]);
            assert(last.markers.contains(markers[i]));
        }
        if exists|i: int| 0 <= i < markers.len() && last.markers.contains(#[trigger] markers[i]) {
            let i = choose|i: int|
                0 <= i < markers.len() && last.markers.contains(#[trigger] markers[i]);
            assert(last.marked(markers[i]));
        }
    } else {
        assert(marked_with(projects, markers) =~= projects);
    }
}

/// A directory is passed over exactly where its name is that of an artifact tree, it is hidden and
/// not `.config`, or a pattern excludes it.
pub proof fn nothing_else_is_passed_over(
    name: Seq<char>,
    path: Seq<char>,
    exclude: Seq<Seq<char>>,
)
    requires
        !never_descend().contains(name),
        name.len() == 0 || name[0] != '.' || name == ".config"@,
    ensures
        is_pruned(name, path, exclude) == any_glob_hits(exclude, path),
        any_glob_hits(exclude, path) == (exists|i: int|
            0 <= i < exclude.len() && pattern_problem(#[trigger] exclude[i]) is None
                && pattern_matches(exclude[i], path)),
{
    reveal_strlit(".");
    if has_prefix(name, "."@) {
        assert(name.take(1)[0] == "."@[0]);
    }
    if any_glob_hits(exclude, path) {
        let i = choose|i: int| 0 <= i < exclude.len() && glob_hits(#[trigger] exclude[i], path);
        assert(pattern_matches(exclude[i], path));
    }
    if exists|i: int|
        0 <= i < exclude.len() && pattern_problem(#[trigger] exclude[i]) is None && pattern_matches(
            exclude[i],
            path,
        ) {
        let i = choose|i: int|
            0 <= i < exclude.len() && pattern_problem(#[trigger] exclude[i]) is None
                && pattern_matches(exclude[i], path);
        assert(glob_hits(exclude[i], path));
    }
}

/// Paths are ordered by the first component in which they differ: a shorter path stands before what
/// is below it, a root before `.`, that before `..`, and that before names, which are in text order.
pub proof fn paths_are_ordered_by_their_first_difference(
    shared: Seq<Seq<char>>,
    a: Seq<Seq<char>>,
    b: Seq<Seq<char>>,
)
    ensures
        components_le(shared, shared + b),
        b.len() > 0 ==> !components_le(shared + b, shared),
        a.len() > 0 && b.len() > 0 && a[0] != b[0] ==> components_le(shared + a, shared + b)
            == component_le(a[0], b[0]),
        component_le(seq!['/'], seq!['.']) && !component_le(seq!['.'], seq!['/']),
        component_le(seq!['.'], seq!['.', '.']) && !component_le(seq!['.', '.'], seq!['.']),
        forall|name: Seq<char>|
            #![trigger component_rank(name)]
            name != seq!['/'] && name != seq!['.'] && name != seq!['.', '.'] ==> component_le(
                seq!['.', '.'],
                name,
            ) && !component_le(name, seq!['.', '.']),
        forall|x: Seq<char>, y: Seq<char>|
            x != seq!['/'] && x != seq!['.'] && x != seq!['.', '.'] && y != seq!['/'] && y
                != seq!['.'] && y != seq!['.', '.'] ==> #[trigger] component_le(x, y) == text_le(
                x,
                y,
            ),
    decreases shared.len(),
{
    assert(seq!['/'][0] == '/' && seq!['.'][0] == '.');
    assert(seq!['.'].len() == 1 && seq!['.', '.'].len() == 2);
    if shared.len() > 0 {
        let rest = shared.skip(1);
        paths_are_ordered_by_their_first_difference(rest, a, b);
        assert((shared + a).skip(1) =~= rest + a);
        assert((shared + b).skip(1) =~= rest + b);
        assert((shared + a)[0] == shared[0] && (shared + b)[0] == shared[0]);
    } else {
        assert(shared + a =~= a);
        assert(shared + b =~= b);
    }
}

} // verus!
