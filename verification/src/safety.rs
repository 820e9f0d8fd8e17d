//! The guard every destructive operation must clear.
//!
//! It fails closed: whatever it cannot positively prove safe is refused, and
//! nothing bypasses it. The check runs at scan time and again right before
//! deletion, because a symlink can be swapped in between.
use vstd::prelude::*;
use vstd::string::*;
use crate::error::{Error, ErrorModel};
use crate::path::{
    absolute, components, components_of, is_absolute, is_name, is_under, join, join_path, names,
    same_path, segments, under,
};
use crate::platform::{Paths, PathsModel};
use crate::text::{chars_of, option_text, same, views};

verus! {

broadcast use crate::text::lemma_views_push;

/// Absolute paths that are never deletable, whatever the configuration says.
pub open spec fn always_protected() -> Seq<Seq<char>> {
    seq![
        "/"@,
        "/bin"@,
        "/boot"@,
        "/dev"@,
        "/etc"@,
        "/home"@,
        "/lib"@,
        "/opt"@,
        "/private"@,
        "/proc"@,
        "/root"@,
        "/sbin"@,
        "/srv"@,
        "/sys"@,
        "/usr"@,
        "/var"@,
        "/Applications"@,
        "/Library"@,
        "/System"@,
        "/Users"@,
        "/Volumes"@,
    ]
}

/// Names that are never deletable directly below the home directory.
pub open spec fn protected_home_entries() -> Seq<Seq<char>> {
    seq![
        ".ssh"@,
        ".gnupg"@,
        ".aws"@,
        ".kube"@,
        ".docker"@,
        ".config"@,
        ".password-store"@,
        "Documents"@,
        "Desktop"@,
        "Downloads"@,
        "Movies"@,
        "Music"@,
        "Pictures"@,
        "Public"@,
        "Applications"@,
    ]
}

/// Names that must not occur anywhere in a deletion target.
pub open spec fn forbidden_components() -> Seq<Seq<char>> {
    seq![".git"@, ".hg"@, ".svn"@, ".Trash"@, ".Trashes"@]
}

fn system_directories() -> (v: Vec<&'static str>)
    ensures
        views(v@) == always_protected(),
{
    let v = vec![
        "/",
        "/bin",
        "/boot",
        "/dev",
        "/etc",
        "/home",
        "/lib",
        "/opt",
        "/private",
        "/proc",
        "/root",
        "/sbin",
        "/srv",
        "/sys",
        "/usr",
        "/var",
        "/Applications",
        "/Library",
        "/System",
        "/Users",
        "/Volumes",
    ];
    assert(views(v@) =~= always_protected());
    v
}

fn home_entries() -> (v: Vec<&'static str>)
    ensures
        views(v@) == protected_home_entries(),
{
    let v = vec![
        ".ssh",
        ".gnupg",
        ".aws",
        ".kube",
        ".docker",
        ".config",
        ".password-store",
        "Documents",
        "Desktop",
        "Downloads",
        "Movies",
        "Music",
        "Pictures",
        "Public",
        "Applications",
    ];
    assert(views(v@) =~= protected_home_entries());
    v
}

fn forbidden_names() -> (v: Vec<&'static str>)
    ensures
        views(v@) == forbidden_components(),
{
    let v = vec![".git", ".hg", ".svn", ".Trash", ".Trashes"];
    assert(views(v@) =~= forbidden_components());
    v
}

/// Validates paths before any destructive action.
#[derive(Debug, Clone)]
pub struct PathGuard {
    home: String,
    /// Deletion targets must live under one of these.
    allowed_roots: Vec<String>,
    /// Neither these nor anything below them is deletable, in the order they were added.
    protected: Vec<String>,
    /// Minimum number of path components below the home directory.
    min_depth_below_home: usize,
}

pub struct GuardModel {
    pub home: Seq<char>,
    pub allowed_roots: Seq<Seq<char>>,
    pub protected: Seq<Seq<char>>,
    pub min_depth_below_home: nat,
}

impl View for PathGuard {
    type V = GuardModel;

    closed spec fn view(&self) -> GuardModel {
        GuardModel {
            home: self.home@,
            allowed_roots: views(self.allowed_roots@),
            protected: views(self.protected@),
            min_depth_below_home: self.min_depth_below_home as nat,
        }
    }
}

/// The roots that lie outside the home.
pub open spec fn outside(roots: Seq<Seq<char>>, home: Seq<char>) -> Seq<Seq<char>>
    decreases roots.len(),
{
    if roots.len() == 0 {
        Seq::empty()
    } else if under(roots.last(), home) {
        outside(roots.drop_last(), home)
    } else {
        outside(roots.drop_last(), home).push(roots.last())
    }
}

pub open spec fn option_as_seq(item: Option<Seq<char>>) -> Seq<Seq<char>> {
    match item {
        Some(p) => seq![p],
        None => Seq::empty(),
    }
}

/// The places where caches and SDKs live when the user has moved them.
pub open spec fn relocatable(p: PathsModel) -> Seq<Seq<char>> {
    seq![p.cargo_home, p.gopath, p.go_build_cache, p.android_avd] + option_as_seq(p.android_sdk)
}

/// The guard of a set of base directories: the home, what was moved out of it, and the
/// directory for temporary files.
pub open spec fn guard_of(p: PathsModel) -> GuardModel {
    GuardModel {
        home: p.home,
        allowed_roots: seq![p.home] + outside(relocatable(p), p.home) + option_as_seq(p.tmpdir),
        protected: Seq::new(
            protected_home_entries().len(),
            |i: int| join(p.home, protected_home_entries()[i]),
        ),
        min_depth_below_home: 1,
    }
}

/// Some entry of `roots` holds `path`.
pub open spec fn below_any(path: Seq<char>, roots: Seq<Seq<char>>) -> bool {
    exists|i: int| 0 <= i < roots.len() && under(path, #[trigger] roots[i])
}

/// `path` is one of the listed directories itself.
pub open spec fn is_any(path: Seq<char>, list: Seq<Seq<char>>) -> bool {
    exists|i: int| 0 <= i < list.len() && components(path) == components(#[trigger] list[i])
}

/// A component of the path that must not occur.
pub open spec fn has_forbidden(path: Seq<char>) -> bool {
    exists|i: int|
        0 <= i < components(path).len() && forbidden_components().contains(
            #[trigger] components(path)[i],
        )
}

/// The first component of the path that must not occur.
pub open spec fn first_forbidden(comps: Seq<Seq<char>>) -> Option<Seq<char>>
    decreases comps.len(),
{
    if comps.len() == 0 {
        None
    } else if forbidden_components().contains(comps[0]) {
        Some(comps[0])
    } else {
        first_forbidden(comps.skip(1))
    }
}

/// The outermost protected path that holds `path`; of the same path spelled twice, the first.
pub open spec fn protector(path: Seq<char>, protected: Seq<Seq<char>>) -> Option<Seq<char>>
    decreases protected.len(),
{
    if protected.len() == 0 {
        None
    } else {
        let last = protected.last();
        let before = protector(path, protected.drop_last());
        if under(path, last) && (before matches Some(p) ==> components(last).len() < components(
            p,
        ).len()) {
            Some(last)
        } else {
            before
        }
    }
}

impl GuardModel {
    /// Why a resolved path is refused, or `None` where it is accepted.
    pub open spec fn objection(self, path: Seq<char>) -> Option<Seq<char>> {
        let comps = components(path);
        let depth = comps.len() - components(self.home).len();
        if comps.len() <= 1 {
            Some("refusing to operate on the filesystem root"@)
        } else if is_any(path, always_protected()) {
            Some("system directory"@)
        } else if comps == components(self.home) {
            Some("this is your home directory"@)
        } else if below_any(path, self.protected) {
            Some("inside protected path "@ + protector(path, self.protected)->0)
        } else if has_forbidden(path) {
            Some("path contains a `"@ + first_forbidden(comps)->0 + "` component"@)
        } else if !below_any(path, self.allowed_roots) {
            Some("outside every allowed root (home, cargo/go/android dirs, TMPDIR)"@)
        } else if under(path, self.home) && depth < self.min_depth_below_home {
            Some("too close to the home directory"@)
        } else if under(path, self.home) && depth == 1 && comps.last()[0] != '.' {
            Some("top-level non-hidden directory in your home folder"@)
        } else {
            None
        }
    }

    pub open spec fn accepts(self, path: Seq<char>) -> bool {
        self.objection(path) is None
    }
}

proof fn lemma_protector(path: Seq<char>, protected: Seq<Seq<char>>)
    ensures
        protector(path, protected) is Some <==> below_any(path, protected),
        protector(path, protected) matches Some(p) ==> protected.contains(p) && under(path, p),
    decreases protected.len(),
{
    if protected.len() > 0 {
        let rest = protected.drop_last();
        lemma_protector(path, rest);
        if below_any(path, protected) && !under(path, protected.last()) {
            let i = choose|i: int| 0 <= i < protected.len() && under(path, #[trigger] protected[i]);
            assert(rest[i] == protected[i]);
        }
        if below_any(path, rest) {
            let i = choose|i: int| 0 <= i < rest.len() && under(path, #[trigger] rest[i]);
            assert(protected[i] == rest[i]);
        }
        if under(path, protected.last()) {
            assert(under(path, protected[protected.len() - 1]));
        }
        if let Some(p) = protector(path, rest) {
            let i = choose|i: int| 0 <= i < rest.len() && rest[i] == p;
            assert(protected[i] == p);
        }
        assert(protected[protected.len() - 1] == protected.last());
    }
}

/// Components below the root are names, and names are not empty.
proof fn lemma_names_are_names(segs: Seq<Seq<char>>)
    ensures
        forall|i: int| 0 <= i < names(segs).len() ==> is_name(#[trigger] names(segs)[i]),
    decreases segs.len(),
{
    if segs.len() > 0 {
        let before = names(segs.drop_last());
        lemma_names_are_names(segs.drop_last());
        assert forall|i: int| 0 <= i < names(segs).len() implies is_name(
            #[trigger] names(segs)[i],
        ) by {
            if i < before.len() {
                assert(names(segs)[i] == before[i]);
            }
        }
    }
}

proof fn lemma_last_component_nonempty(path: Seq<char>)
    requires
        components(path).len() > 1,
    ensures
        components(path).last().len() > 0,
{
    lemma_names_are_names(segments(path));
    let found = names(segments(path));
    assert(found.len() > 0);
    assert(is_name(found[found.len() - 1]));
    assert(components(path).last() == found.last());
}

fn any_same_path(path: &str, list: &Vec<&'static str>) -> (r: bool)
    ensures
        r == is_any(path@, views(list@)),
{
    let mut i: usize = 0;
    while i < list.len()
        invariant
            i <= list@.len(),
            forall|k: int|
                0 <= k < i ==> components(path@) != components(#[trigger] views(list@)[k]),
        decreases list@.len() - i,
    {
        if same_path(path, list[i]) {
            assert(components(path@) == components(views(list@)[i as int]));
            return true;
        }
        i += 1;
    }
    false
}

fn any_above(path: &str, roots: &Vec<String>) -> (r: bool)
    ensures
        r == below_any(path@, views(roots@)),
{
    let mut i: usize = 0;
    while i < roots.len()
        invariant
            i <= roots@.len(),
            forall|k: int| 0 <= k < i ==> !under(path@, #[trigger] views(roots@)[k]),
        decreases roots@.len() - i,
    {
        if is_under(path, roots[i].as_str()) {
            assert(under(path@, views(roots@)[i as int]));
            return true;
        }
        i += 1;
    }
    false
}

fn find_protector(path: &str, protected: &Vec<String>) -> (found: Option<String>)
    ensures
        option_text(found) == protector(path@, views(protected@)),
{
    let ghost all = views(protected@);
    let mut found: Option<String> = None;
    let mut depth: usize = 0;
    let mut i: usize = 0;
    assert(all.take(0) =~= Seq::empty());
    while i < protected.len()
        invariant
            i <= protected@.len(),
            all == views(protected@),
            option_text(found) == protector(path@, all.take(i as int)),
            found matches Some(p) ==> depth == components(p@).len(),
        decreases protected@.len() - i,
    {
        assert(all.take(i + 1).drop_last() =~= all.take(i as int));
        assert(all.take(i + 1).last() == protected@[i as int]@);
        if is_under(path, protected[i].as_str()) {
            let n: usize = components_of(protected[i].as_str()).len();
            let outer = match &found {
                Some(p) => n < depth,
                None => true,
            };
            if outer {
                found = Some(protected[i].clone());
                depth = n;
            }
        }
        i += 1;
    }
    assert(all.take(all.len() as int) =~= all);
    found
}

fn find_forbidden(comps: &Vec<String>) -> (found: Option<String>)
    ensures
        option_text(found) == first_forbidden(views(comps@)),
{
    let names = forbidden_names();
    let ghost all = views(comps@);
    let mut i: usize = 0;
    assert(all.skip(0) =~= all);
    while i < comps.len()
        invariant
            i <= comps@.len(),
            all == views(comps@),
            views(names@) == forbidden_components(),
            first_forbidden(all) == first_forbidden(all.skip(i as int)),
        decreases comps@.len() - i,
    {
        assert(all.skip(i as int)[0] == comps@[i as int]@);
        let mut k: usize = 0;
        while k < names.len()
            invariant
                i < comps@.len(),
                k <= names@.len(),
                all == views(comps@),
                views(names@) == forbidden_components(),
                first_forbidden(all) == first_forbidden(all.skip(i as int)),
                all.skip(i as int)[0] == comps@[i as int]@,
                forall|j: int| 0 <= j < k ==> views(names@)[j] != comps@[i as int]@,
            decreases names@.len() - k,
        {
            if same(names[k], comps[i].as_str()) {
                assert(views(names@)[k as int] == comps@[i as int]@);
                return Some(comps[i].clone());
            }
            k += 1;
        }
        assert(!forbidden_components().contains(comps@[i as int]@));
        assert(all.skip(i as int).skip(1) =~= all.skip(i + 1));
        i += 1;
    }
    None
}

proof fn lemma_first_forbidden(comps: Seq<Seq<char>>)
    ensures
        first_forbidden(comps) is Some <==> exists|i: int|
            0 <= i < comps.len() && forbidden_components().contains(#[trigger] comps[i]),
    decreases comps.len(),
{
    if comps.len() > 0 {
        let rest = comps.skip(1);
        lemma_first_forbidden(rest);
        if first_forbidden(rest) is Some && !forbidden_components().contains(comps[0]) {
            let i = choose|i: int|
                0 <= i < rest.len() && forbidden_components().contains(#[trigger] rest[i]);
            assert(comps[i + 1] == rest[i]);
        }
        if exists|i: int|
            0 <= i < comps.len() && forbidden_components().contains(#[trigger] comps[i]) {
            let i = choose|i: int|
                0 <= i < comps.len() && forbidden_components().contains(#[trigger] comps[i]);
            if i > 0 {
                assert(rest[i - 1] == comps[i]);
            }
        }
    }
}

/// What the filesystem says of a path.
#[derive(Debug, PartialEq)]
pub struct PathFacts {
    /// Something is there, links followed.
    pub exists: bool,
    /// Whether the entry itself is a symlink, or why it could not be looked at.
    pub symlink: Result<bool, String>,
    /// The resolved path, or why it could not be resolved.
    pub canonical: Result<String, String>,
}

pub struct FactsModel {
    pub exists: bool,
    pub symlink: Result<bool, Seq<char>>,
    pub canonical: Result<Seq<char>, Seq<char>>,
}

impl View for PathFacts {
    type V = FactsModel;

    open spec fn view(&self) -> FactsModel {
        FactsModel {
            exists: self.exists,
            symlink: match self.symlink {
                Ok(link) => Ok(link),
                Err(e) => Err(e@),
            },
            canonical: match self.canonical {
                Ok(path) => Ok(path@),
                Err(e) => Err(e@),
            },
        }
    }
}

impl GuardModel {
    /// The resolved path where `path` may be deleted, or why not.
    pub open spec fn verdict(self, path: Seq<char>, facts: FactsModel) -> Result<
        Seq<char>,
        ErrorModel,
    > {
        if !is_absolute(path) {
            Err(ErrorModel::Refused { path, reason: "path is not absolute"@ })
        } else {
            match facts.symlink {
                Err(e) => Err(ErrorModel::Refused { path, reason: "cannot stat: "@ + e }),
                Ok(true) => Err(ErrorModel::Refused { path, reason: "path is a symlink"@ }),
                Ok(false) => match facts.canonical {
                    Err(e) => Err(
                        ErrorModel::Refused { path, reason: "cannot canonicalize: "@ + e },
                    ),
                    Ok(canonical) => match self.objection(canonical) {
                        Some(reason) => Err(ErrorModel::Refused { path: canonical, reason }),
                        None => Ok(canonical),
                    },
                },
            }
        }
    }

    /// The resolved paths that pass, and the refusals, in order. Missing paths are neither.
    pub open spec fn verdicts(self, paths: Seq<Seq<char>>, facts: Seq<FactsModel>) -> (
        Seq<Seq<char>>,
        Seq<ErrorModel>,
    )
        decreases paths.len(),
    {
        if paths.len() == 0 {
            (Seq::empty(), Seq::empty())
        } else {
            let (ok, errs) = self.verdicts(paths.drop_last(), facts.drop_last());
            if !facts.last().exists {
                (ok, errs)
            } else {
                match self.verdict(paths.last(), facts.last()) {
                    Ok(canonical) => (ok.push(canonical), errs),
                    Err(e) => (ok, errs.push(e)),
                }
            }
        }
    }
}

impl PathGuard {
    /// Build a guard rooted at the user's home directory.
    pub fn new(paths: &Paths) -> (guard: Self)
        ensures
            guard@ == guard_of(paths@),
    {
        let home = paths.home().to_owned();
        let mut allowed_roots: Vec<String> = Vec::new();
        allowed_roots.push(home.clone());
        let mut external: Vec<String> = Vec::new();
        external.push(paths.cargo_home());
        external.push(paths.gopath());
        external.push(paths.go_build_cache());
        external.push(paths.android_avd());
        assert(views(external@) =~= seq![
            paths@.cargo_home,
            paths@.gopath,
            paths@.go_build_cache,
            paths@.android_avd,
        ]);
        if let Some(sdk) = paths.android_sdk() {
            external.push(sdk);
        }
        assert(views(external@) =~= relocatable(paths@));
        let ghost roots = relocatable(paths@);
        let mut i: usize = 0;
        assert(roots.take(0) =~= Seq::empty());
        assert(views(allowed_roots@) =~= seq![home@] + outside(roots.take(0), home@));
        while i < external.len()
            invariant
                i <= external@.len(),
                roots == views(external@),
                views(allowed_roots@) == seq![home@] + outside(roots.take(i as int), home@),
            decreases external@.len() - i,
        {
            assert(roots.take(i + 1).drop_last() =~= roots.take(i as int));
            assert(roots.take(i + 1).last() == external@[i as int]@);
            if !is_under(external[i].as_str(), home.as_str()) {
                allowed_roots.push(external[i].clone());
            }
            assert(views(allowed_roots@) =~= seq![home@] + outside(roots.take(i + 1), home@));
            i += 1;
        }
        assert(roots.take(roots.len() as int) =~= roots);
        if let Some(tmp) = paths.tmpdir() {
            allowed_roots.push(tmp);
        }
        let entries = home_entries();
        let mut protected: Vec<String> = Vec::new();
        let mut k: usize = 0;
        while k < entries.len()
            invariant
                k <= entries@.len(),
                views(entries@) == protected_home_entries(),
                protected@.len() == k,
                forall|j: int|
                    0 <= j < k ==> (#[trigger] protected@[j])@ == join(
                        home@,
                        protected_home_entries()[j],
                    ),
            decreases entries@.len() - k,
        {
            assert(views(entries@)[k as int] == entries@[k as int]@);
            protected.push(join_path(home.as_str(), entries[k]));
            k += 1;
        }
        let guard = PathGuard { home, allowed_roots, protected, min_depth_below_home: 1 };
        assert(guard@.allowed_roots =~= guard_of(paths@).allowed_roots);
        assert(guard@.protected =~= guard_of(paths@).protected);
        guard
    }

    /// Add protected paths. Additive only.
    pub fn protect(self, paths: Vec<String>) -> (guard: Self)
        ensures
            guard@ == (GuardModel { protected: self@.protected + views(paths@), ..self@ }),
    {
        let mut guard = self;
        let mut more = paths;
        guard.protected.append(&mut more);
        assert(guard@.protected =~= self@.protected + views(paths@));
        guard
    }

    /// Permit deletion under an additional root.
    pub fn allow_root(self, root: &str) -> (guard: Self)
        ensures
            guard@ == (GuardModel { allowed_roots: self@.allowed_roots.push(root@), ..self@ }),
    {
        let mut guard = self;
        guard.allowed_roots.push(root.to_owned());
        guard
    }

    /// The core check. Returns the resolved path on success.
    ///
    /// Everything but the shape of the given path is judged on the resolved one, so that
    /// `~/.npm/../../../etc` cannot slip through by looking well-formed.
    pub fn check(&self, path: &str, facts: &PathFacts) -> (r: Result<String, Error>)
        ensures
            match r {
                Ok(canonical) => self@.verdict(path@, facts@) == Ok::<Seq<char>, ErrorModel>(
                    canonical@,
                ),
                Err(e) => self@.verdict(path@, facts@) == Err::<Seq<char>, ErrorModel>(e@),
            },
    {
        if !absolute(path) {
            return Err(Error::refused(path, "path is not absolute"));
        }
        match &facts.symlink {
            Err(e) => {
                return Err(
                    Error::refused(path, "cannot stat: ".to_owned().concat(e.as_str()).as_str()),
                );
            },
            Ok(link) => {
                if *link {
                    return Err(Error::refused(path, "path is a symlink"));
                }
            },
        }
        match &facts.canonical {
            Err(e) => Err(
                Error::refused(path, "cannot canonicalize: ".to_owned().concat(e.as_str()).as_str()),
            ),
            Ok(canonical) => match self.check_canonical(canonical.as_str()) {
                Ok(_) => Ok(canonical.clone()),
                Err(e) => Err(e),
            },
        }
    }

    /// The rules on the shape of a resolved path.
    pub fn check_canonical(&self, canonical: &str) -> (r: Result<(), Error>)
        ensures
            match r {
                Ok(_) => self@.accepts(canonical@),
                Err(e) => self@.objection(canonical@) matches Some(reason) && e@ == (
                ErrorModel::Refused { path: canonical@, reason }),
            },
    {
        let comps = components_of(canonical);
        assert(views(comps@).len() == comps@.len());
        if comps.len() <= 1 {
            return Err(Error::refused(canonical, "refusing to operate on the filesystem root"));
        }
        if any_same_path(canonical, &system_directories()) {
            return Err(Error::refused(canonical, "system directory"));
        }
        if same_path(canonical, self.home.as_str()) {
            return Err(Error::refused(canonical, "this is your home directory"));
        }
        proof {
            lemma_protector(canonical@, self@.protected);
            lemma_first_forbidden(components(canonical@));
        }
        match find_protector(canonical, &self.protected) {
            Some(protected) => {
                return Err(
                    Error::refused(
                        canonical,
                        "inside protected path ".to_owned().concat(protected.as_str()).as_str(),
                    ),
                );
            },
            None => {},
        }
        match find_forbidden(&comps) {
            Some(name) => {
                return Err(
                    Error::refused(
                        canonical,
                        "path contains a `".to_owned().concat(name.as_str()).concat(
                            "` component",
                        ).as_str(),
                    ),
                );
            },
            None => {},
        }
        if !any_above(canonical, &self.allowed_roots) {
            return Err(
                Error::refused(
                    canonical,
                    "outside every allowed root (home, cargo/go/android dirs, TMPDIR)",
                ),
            );
        }
        if is_under(canonical, self.home.as_str()) {
            let above: usize = components_of(self.home.as_str()).len();
            let depth: usize = comps.len() - above;
            if depth < self.min_depth_below_home {
                return Err(Error::refused(canonical, "too close to the home directory"));
            }
            if depth == 1 {
                proof {
                    lemma_last_component_nonempty(canonical@);
                    assert(views(comps@).last() == comps@[comps@.len() - 1]@);
                }
                let name = chars_of(comps[comps.len() - 1].as_str());
                if name[0] != '.' {
                    return Err(
                        Error::refused(
                            canonical,
                            "top-level non-hidden directory in your home folder",
                        ),
                    );
                }
            }
        }
        Ok(())
    }

    /// Check a batch, returning the resolved paths that passed and the refusals.
    ///
    /// Missing paths are dropped rather than reported: already gone is success.
    pub fn check_all(&self, paths: &Vec<String>, facts: &Vec<PathFacts>) -> (r: (
        Vec<String>,
        Vec<Error>,
    ))
        requires
            paths@.len() == facts@.len(),
        ensures
            (views(r.0@), views(r.1@)) == self@.verdicts(views(paths@), views(facts@)),
    {
        let mut ok: Vec<String> = Vec::new();
        let mut errs: Vec<Error> = Vec::new();
        let ghost p = views(paths@);
        let ghost f = views(facts@);
        let mut i: usize = 0;
        proof {
            assert(p.take(0) =~= Seq::empty());
            assert(views(ok@) =~= Seq::empty());
            assert(views(errs@) =~= Seq::empty());
        }
        while i < paths.len()
            invariant
                i <= paths@.len(),
                paths@.len() == facts@.len(),
                p == views(paths@),
                f == views(facts@),
                (views(ok@), views(errs@)) == self@.verdicts(p.take(i as int), f.take(i as int)),
            decreases paths@.len() - i,
        {
            proof {
                assert(p.take(i + 1).drop_last() =~= p.take(i as int));
                assert(f.take(i + 1).drop_last() =~= f.take(i as int));
                assert(p.take(i + 1).last() == paths@[i as int]@);
                assert(f.take(i + 1).last() == facts@[i as int]@);
            }
            if facts[i].exists {
                match self.check(paths[i].as_str(), &facts[i]) {
                    Ok(canonical) => ok.push(canonical),
                    Err(e) => errs.push(e),
                }
            }
            i += 1;
        }
        proof {
            assert(p.take(p.len() as int) =~= p);
            assert(f.take(f.len() as int) =~= f);
        }
        (ok, errs)
    }

    pub fn home(&self) -> (p: &str)
        ensures
            p@ == self@.home,
    {
        self.home.as_str()
    }
}

/// An accepted path is no system directory and not the home, lies in nothing protected, holds
/// no forbidden name, and lies under an allowed root.
pub proof fn accepted_paths_clear_every_rule(guard: GuardModel, path: Seq<char>)
    requires
        guard.accepts(path),
    ensures
        components(path).len() > 1,
        !is_any(path, always_protected()),
        components(path) != components(guard.home),
        !below_any(path, guard.protected),
        !has_forbidden(path),
        below_any(path, guard.allowed_roots),
{
}

/// Protecting more paths never makes an unacceptable path acceptable.
pub proof fn protecting_only_refuses_more(
    guard: GuardModel,
    more: Seq<Seq<char>>,
    path: Seq<char>,
)
    requires
        (GuardModel { protected: guard.protected + more, ..guard }).accepts(path),
    ensures
        guard.accepts(path),
{
    let stricter = GuardModel { protected: guard.protected + more, ..guard };
    assert(!below_any(path, guard.protected)) by {
        if below_any(path, guard.protected) {
            let i = choose|i: int|
                0 <= i < guard.protected.len() && under(path, #[trigger] guard.protected[i]);
            assert(stricter.protected[i] == guard.protected[i]);
        }
    }
}

/// A protected path and everything below it is refused.
pub proof fn protected_paths_are_refused(guard: GuardModel, protected: Seq<char>, path: Seq<char>)
    requires
        guard.protected.contains(protected),
        under(path, protected),
    ensures
        !guard.accepts(path),
{
    let i = choose|i: int| 0 <= i < guard.protected.len() && guard.protected[i] == protected;
    assert(under(path, guard.protected[i]));
}

/// Allowing another root never lifts a protection.
pub proof fn allowing_a_root_lifts_no_protection(
    guard: GuardModel,
    root: Seq<char>,
    path: Seq<char>,
)
    requires
        below_any(path, guard.protected) || has_forbidden(path) || is_any(path, always_protected())
            || components(path) == components(guard.home),
    ensures
        !(GuardModel { allowed_roots: guard.allowed_roots.push(root), ..guard }).accepts(path),
{
}

/// What passes the check is accepted as it resolves, whatever its spelling: a relative path
/// and a symlink never pass, and the outcome depends on nothing but the present facts, so a
/// path that became a symlink fails the next check.
pub proof fn only_resolved_paths_pass(guard: GuardModel, path: Seq<char>, facts: FactsModel)
    ensures
        guard.verdict(path, facts) matches Ok(canonical) ==> is_absolute(path) && facts.symlink
            == Ok::<bool, Seq<char>>(false) && facts.canonical == Ok::<Seq<char>, Seq<char>>(
            canonical,
        ) && guard.accepts(canonical),
        facts.symlink == Ok::<bool, Seq<char>>(true) ==> guard.verdict(path, facts) is Err,
{
}

/// One refusal does not stop the rest: each path is judged on its own, and a batch splits
/// into the verdicts of its parts.
pub proof fn batches_are_judged_path_by_path(
    guard: GuardModel,
    paths: Seq<Seq<char>>,
    facts: Seq<FactsModel>,
)
    requires
        paths.len() == facts.len(),
    ensures
        forall|c: Seq<char>|
            guard.verdicts(paths, facts).0.contains(c) <==> exists|i: int|
                0 <= i < paths.len() && facts[i].exists && #[trigger] guard.verdict(
                    paths[i],
                    facts[i],
                ) == Ok::<Seq<char>, ErrorModel>(c),
        forall|e: ErrorModel|
            guard.verdicts(paths, facts).1.contains(e) <==> exists|i: int|
                0 <= i < paths.len() && facts[i].exists && #[trigger] guard.verdict(
                    paths[i],
                    facts[i],
                ) == Err::<Seq<char>, ErrorModel>(e),
    decreases paths.len(),
{
    if paths.len() > 0 {
        let p = paths.drop_last();
        let f = facts.drop_last();
        batches_are_judged_path_by_path(guard, p, f);
        let last = guard.verdict(paths.last(), facts.last());
        let (ok, errs) = guard.verdicts(p, f);
        let (all_ok, all_errs) = guard.verdicts(paths, facts);
        let n = paths.len() - 1;
        assert(guard.verdict(paths[n], facts[n]) == last);
        assert forall|c: Seq<char>| all_ok.contains(c) <==> exists|i: int|
            0 <= i < paths.len() && facts[i].exists && #[trigger] guard.verdict(
                paths[i],
                facts[i],
            ) == Ok::<Seq<char>, ErrorModel>(c) by {
            if all_ok.contains(c) {
                let k = choose|k: int| 0 <= k < all_ok.len() && all_ok[k] == c;
                if k < ok.len() {
                    assert(ok[k] == c);
                    assert(ok.contains(c));
                    let i = choose|i: int|
                        0 <= i < p.len() && f[i].exists && #[trigger] guard.verdict(p[i], f[i])
                            == Ok::<Seq<char>, ErrorModel>(c);
                    assert(guard.verdict(paths[i], facts[i]) == Ok::<Seq<char>, ErrorModel>(c));
                }
            }
            if exists|i: int|
                0 <= i < paths.len() && facts[i].exists && #[trigger] guard.verdict(
                    paths[i],
                    facts[i],
                ) == Ok::<Seq<char>, ErrorModel>(c) {
                let i = choose|i: int|
                    0 <= i < paths.len() && facts[i].exists && #[trigger] guard.verdict(
                        paths[i],
                        facts[i],
                    ) == Ok::<Seq<char>, ErrorModel>(c);
                if i < n {
                    assert(guard.verdict(p[i], f[i]) == Ok::<Seq<char>, ErrorModel>(c));
                    assert(ok.contains(c));
                    let k = choose|k: int| 0 <= k < ok.len() && ok[k] == c;
                    assert(all_ok[k] == c);
                } else {
                    assert(all_ok[all_ok.len() - 1] == c);
                }
            }
        }
        assert forall|e: ErrorModel| all_errs.contains(e) <==> exists|i: int|
            0 <= i < paths.len() && facts[i].exists && #[trigger] guard.verdict(
                paths[i],
                facts[i],
            ) == Err::<Seq<char>, ErrorModel>(e) by {
            if all_errs.contains(e) {
                let k = choose|k: int| 0 <= k < all_errs.len() && all_errs[k] == e;
                if k < errs.len() {
                    assert(errs[k] == e);
                    assert(errs.contains(e));
                    let i = choose|i: int|
                        0 <= i < p.len() && f[i].exists && #[trigger] guard.verdict(p[i], f[i])
                            == Err::<Seq<char>, ErrorModel>(e);
                    assert(guard.verdict(paths[i], facts[i]) == Err::<Seq<char>, ErrorModel>(e));
                }
            }
            if exists|i: int|
                0 <= i < paths.len() && facts[i].exists && #[trigger] guard.verdict(
                    paths[i],
                    facts[i],
                ) == Err::<Seq<char>, ErrorModel>(e) {
                let i = choose|i: int|
                    0 <= i < paths.len() && facts[i].exists && #[trigger] guard.verdict(
                        paths[i],
                        facts[i],
                    ) == Err::<Seq<char>, ErrorModel>(e);
                if i < n {
                    assert(guard.verdict(p[i], f[i]) == Err::<Seq<char>, ErrorModel>(e));
                    assert(errs.contains(e));
                    let k = choose|k: int| 0 <= k < errs.len() && errs[k] == e;
                    assert(all_errs[k] == e);
                } else {
                    assert(all_errs[all_errs.len() - 1] == e);
                }
            }
        }
    } else {
        assert(guard.verdicts(paths, facts).0.len() == 0);
        assert(guard.verdicts(paths, facts).1.len() == 0);
    }
}

/// The directories that are never removed themselves.
pub proof fn these_directories_belong_to_the_system(name: Seq<char>)
    ensures
        always_protected().contains(name) == (name == "/"@ || name == "/bin"@ || name == "/boot"@
            || name == "/dev"@ || name == "/etc"@ || name == "/home"@ || name == "/lib"@
            || name == "/opt"@ || name == "/private"@ || name == "/proc"@ || name == "/root"@
            || name == "/sbin"@ || name == "/srv"@ || name == "/sys"@ || name == "/usr"@
            || name == "/var"@ || name == "/Applications"@ || name == "/Library"@
            || name == "/System"@ || name == "/Users"@ || name == "/Volumes"@),
{
    assert(always_protected()[0] == "/"@);
    assert(always_protected()[1] == "/bin"@);
    assert(always_protected()[2] == "/boot"@);
    assert(always_protected()[3] == "/dev"@);
    assert(always_protected()[4] == "/etc"@);
    assert(always_protected()[5] == "/home"@);
    assert(always_protected()[6] == "/lib"@);
    assert(always_protected()[7] == "/opt"@);
    assert(always_protected()[8] == "/private"@);
    assert(always_protected()[9] == "/proc"@);
    assert(always_protected()[10] == "/root"@);
    assert(always_protected()[11] == "/sbin"@);
    assert(always_protected()[12] == "/srv"@);
    assert(always_protected()[13] == "/sys"@);
    assert(always_protected()[14] == "/usr"@);
    assert(always_protected()[15] == "/var"@);
    assert(always_protected()[16] == "/Applications"@);
    assert(always_protected()[17] == "/Library"@);
    assert(always_protected()[18] == "/System"@);
    assert(always_protected()[19] == "/Users"@);
    assert(always_protected()[20] == "/Volumes"@);
}

/// The entries of a home directory that are protected with all they hold.
pub proof fn these_entries_of_a_home_are_protected(name: Seq<char>)
    ensures
        protected_home_entries().contains(name) == (name == ".ssh"@ || name == ".gnupg"@
            || name == ".aws"@ || name == ".kube"@ || name == ".docker"@ || name == ".config"@
            || name == ".password-store"@ || name == "Documents"@ || name == "Desktop"@
            || name == "Downloads"@ || name == "Movies"@ || name == "Music"@
            || name == "Pictures"@ || name == "Public"@ || name == "Applications"@),
{
    assert(protected_home_entries()[0] == ".ssh"@);
    assert(protected_home_entries()[1] == ".gnupg"@);
    assert(protected_home_entries()[2] == ".aws"@);
    assert(protected_home_entries()[3] == ".kube"@);
    assert(protected_home_entries()[4] == ".docker"@);
    assert(protected_home_entries()[5] == ".config"@);
    assert(protected_home_entries()[6] == ".password-store"@);
    assert(protected_home_entries()[7] == "Documents"@);
    assert(protected_home_entries()[8] == "Desktop"@);
    assert(protected_home_entries()[9] == "Downloads"@);
    assert(protected_home_entries()[10] == "Movies"@);
    assert(protected_home_entries()[11] == "Music"@);
    assert(protected_home_entries()[12] == "Pictures"@);
    assert(protected_home_entries()[13] == "Public"@);
    assert(protected_home_entries()[14] == "Applications"@);
}

/// The components that no removed path may have.
pub proof fn these_components_are_forbidden(name: Seq<char>)
    ensures
        forbidden_components().contains(name) == (name == ".git"@ || name == ".hg"@
            || name == ".svn"@ || name == ".Trash"@ || name == ".Trashes"@),
{
    assert(forbidden_components()[0] == ".git"@);
    assert(forbidden_components()[1] == ".hg"@);
    assert(forbidden_components()[2] == ".svn"@);
    assert(forbidden_components()[3] == ".Trash"@);
    assert(forbidden_components()[4] == ".Trashes"@);
}


/// A path passes the guard exactly where it clears every rule: it is no root, no system directory
/// and not the home directory, nothing protected is above it, none of its components is forbidden,
/// an allowed root is above it, and in the home directory it is deep enough, and hidden where it
/// stands right below.
pub proof fn a_path_passes_where_it_clears_every_rule(guard: GuardModel, path: Seq<char>)
    ensures
        guard.accepts(path) == {
            let comps = components(path);
            let depth = comps.len() - components(guard.home).len();
            &&& comps.len() > 1
            &&& forall|i: int|
                0 <= i < always_protected().len() ==> comps != components(
                    #[trigger] always_protected()[i],
                )
            &&& comps != components(guard.home)
            &&& forall|i: int|
                0 <= i < guard.protected.len() ==> !under(path, #[trigger] guard.protected[i])
            &&& forall|i: int|
                0 <= i < comps.len() ==> !forbidden_components().contains(#[trigger] comps[i])
            &&& exists|i: int|
                0 <= i < guard.allowed_roots.len() && under(path, #[trigger] guard.allowed_roots[i])
            &&& under(path, guard.home) ==> depth >= guard.min_depth_below_home
            &&& under(path, guard.home) && depth == 1 ==> comps.last()[0] == '.'
        },
{
}

/// A path is below another exactly where it starts with all the components of that.
pub proof fn below_means_all_components(path: Seq<char>, base: Seq<char>)
    ensures
        under(path, base) == (components(base).len() <= components(path).len() && forall|i: int|
            0 <= i < components(base).len() ==> #[trigger] components(path)[i] == components(
                base,
            )[i]),
{
    let n = components(base).len() as int;
    if components(base).len() <= components(path).len() {
        if forall|i: int| 0 <= i < n ==> #[trigger] components(path)[i] == components(base)[i] {
            assert(components(path).take(n) =~= components(base));
        }
        if under(path, base) {
            assert forall|i: int| 0 <= i < n implies #[trigger] components(path)[i] == components(
                base,
            )[i] by {
                assert(components(path).take(n)[i] == components(path)[i]);
            }
        }
    }
}

/// A path is cleared exactly where it is absolute, no symlink, resolves, and resolves to what the
/// guard accepts: then it is that. A refusal names the path, as it was given or as it resolved.
pub proof fn a_path_is_cleared_as_it_resolves(guard: GuardModel, path: Seq<char>, facts: FactsModel)
    ensures
        guard.verdict(path, facts) is Ok <==> is_absolute(path) && facts.symlink == Ok::<
            bool,
            Seq<char>,
        >(false) && facts.canonical is Ok && guard.accepts(facts.canonical->Ok_0),
        guard.verdict(path, facts) matches Ok(cleared) ==> facts.canonical == Ok::<
            Seq<char>,
            Seq<char>,
        >(cleared),
        guard.verdict(path, facts) matches Err(e) ==> e matches ErrorModel::Refused {
            path: named,
            reason,
        } && (named == path || facts.canonical == Ok::<Seq<char>, Seq<char>>(named)),
{
}

/// The guard of a machine allows the home directory, the directories that were moved out of it and
/// the temporary directory, and nothing else. It protects the personal entries of the home.
pub proof fn a_guard_allows_the_home_and_what_was_moved(p: PathsModel, path: Seq<char>)
    ensures
        guard_of(p).home == p.home,
        guard_of(p).min_depth_below_home == 1,
        guard_of(p).allowed_roots.contains(path) <==> path == p.home || p.tmpdir == Some(path) || (
        !under(path, p.home) && (path == p.cargo_home || path == p.gopath || path
            == p.go_build_cache || path == p.android_avd || p.android_sdk == Some(path))),
        guard_of(p).protected.contains(path) <==> exists|i: int|
            0 <= i < protected_home_entries().len() && path == join(
                p.home,
                #[trigger] protected_home_entries()[i],
            ),
{
    let moved = outside(relocatable(p), p.home);
    let roots = guard_of(p).allowed_roots;
    lemma_outside(relocatable(p), p.home, path);
    let first = seq![p.home];
    let last = option_as_seq(p.tmpdir);
    assert(roots.contains(path) == (path == p.home || moved.contains(path) || last.contains(path)))
        by {
        if path == p.home {
            assert(roots[0] == path);
        }
        if moved.contains(path) {
            let i = choose|i: int| 0 <= i < moved.len() && moved[i] == path;
            assert(roots[1 + i] == path);
        }
        if last.contains(path) {
            let i = choose|i: int| 0 <= i < last.len() && last[i] == path;
            assert(roots[1 + moved.len() + i] == path);
        }
        if roots.contains(path) {
            let i = choose|i: int| 0 <= i < roots.len() && roots[i] == path;
            if 1 <= i < 1 + moved.len() {
                assert(moved[i - 1] == path);
            } else if i >= 1 + moved.len() {
                assert(last[i - 1 - moved.len()] == path);
            }
        }
    }
    assert(last.contains(path) == (p.tmpdir == Some(path))) by {
        if p.tmpdir == Some(path) {
            assert(last[0] == path);
        }
    }
    let all = relocatable(p);
    let sdk = option_as_seq(p.android_sdk);
    let fixed = seq![p.cargo_home, p.gopath, p.go_build_cache, p.android_avd];
    assert(all.contains(path) == (path == p.cargo_home || path == p.gopath || path
        == p.go_build_cache || path == p.android_avd || p.android_sdk == Some(path))) by {
        assert(all =~= fixed + sdk);
        assert(all[0] == p.cargo_home && all[1] == p.gopath && all[2] == p.go_build_cache && all[3]
            == p.android_avd);
        if p.android_sdk == Some(path) {
            assert(all[4] == path);
        }
        if all.contains(path) {
            let i = choose|i: int| 0 <= i < all.len() && all[i] == path;
            if i >= 4 {
                assert(sdk[i - 4] == path);
            }
        }
    }
    let protected = guard_of(p).protected;
    if protected.contains(path) {
        let i = choose|i: int| 0 <= i < protected.len() && protected[i] == path;
        assert(path == join(p.home, protected_home_entries()[i]));
    }
    if exists|i: int|
        0 <= i < protected_home_entries().len() && path == join(
            p.home,
            #[trigger] protected_home_entries()[i],
        ) {
        let i = choose|i: int|
            0 <= i < protected_home_entries().len() && path == join(
                p.home,
                #[trigger] protected_home_entries()[i],
            );
        assert(protected[i] == path);
    }
}

proof fn lemma_outside(roots: Seq<Seq<char>>, home: Seq<char>, path: Seq<char>)
    ensures
        outside(roots, home).contains(path) == (roots.contains(path) && !under(path, home)),
    decreases roots.len(),
{
    if roots.len() > 0 {
        let fewer = roots.drop_last();
        let last = roots.last();
        lemma_outside(fewer, home, path);
        let before = outside(fewer, home);
        let now = outside(roots, home);
        assert(roots.contains(path) == (fewer.contains(path) || path == last)) by {
            if fewer.contains(path) {
                let i = choose|i: int| 0 <= i < fewer.len() && fewer[i] == path;
                assert(roots[i] == path);
            }
            assert(roots[roots.len() - 1] == last);
            if roots.contains(path) {
                let i = choose|i: int| 0 <= i < roots.len() && roots[i] == path;
                if i < fewer.len() {
                    assert(fewer[i] == path);
                }
            }
        }
        if !under(last, home) {
            assert(now.contains(path) == (before.contains(path) || path == last)) by {
                if before.contains(path) {
                    let i = choose|i: int| 0 <= i < before.len() && before[i] == path;
                    assert(now[i] == path);
                }
                assert(now[now.len() - 1] == last);
            }
        }
    }
}

/// The protected path that is named in a refusal is above the refused one, and none above it has
/// fewer components.
pub proof fn the_outermost_protection_is_named(path: Seq<char>, protected: Seq<Seq<char>>)
    ensures
        protector(path, protected) is Some <==> exists|i: int|
            0 <= i < protected.len() && under(path, #[trigger] protected[i]),
        protector(path, protected) matches Some(p) ==> protected.contains(p) && under(path, p)
            && forall|i: int|
            0 <= i < protected.len() && under(path, #[trigger] protected[i]) ==> components(p).len()
                <= components(protected[i]).len(),
    decreases protected.len(),
{
    lemma_protector(path, protected);
    if protected.len() > 0 {
        let fewer = protected.drop_last();
        the_outermost_protection_is_named(path, fewer);
        if let Some(p) = protector(path, protected) {
            assert forall|i: int|
                0 <= i < protected.len() && under(path, #[trigger] protected[i]) implies components(
                p,
            ).len() <= components(protected[i]).len() by {
                if i < fewer.len() {
                    assert(fewer[i] == protected[i]);
                }
            }
        }
    }
}

} // verus!
