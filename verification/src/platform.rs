//! Platform-specific path resolution.
//!
//! Every base directory is resolved once, at construction: [`Paths::from_env`]
//! reads the override variables it is handed, [`Paths::with_home`] reads none
//! and derives everything from the home it is given.
use vstd::prelude::*;
use vstd::string::*;
use crate::error::{Error, ErrorModel};
use crate::path::{
    components, is_name, join, join_path, lemma_first_segment_two, lemma_join_under,
    lemma_segments_nonempty, lemma_text_below_itself, lemma_text_below_join,
    lemma_under_transitive, segments, spans_names, strip_base, text_below, under,
};
use crate::text::{Dup, chars_of, dup_option, has_prefix, option_text, same, slice_text, views};

verus! {

/// The operating systems that lay out a home differently.
#[derive(Debug, Clone, Copy, PartialEq, Eq, Structural)]
pub enum Os {
    MacOs,
    Linux,
    Other,
}

/// One environment variable.
#[derive(Debug, Clone, PartialEq, Eq)]
pub struct Variable {
    pub name: String,
    pub value: String,
}

impl View for Variable {
    type V = (Seq<char>, Seq<char>);

    open spec fn view(&self) -> (Seq<char>, Seq<char>) {
        (self.name@, self.value@)
    }
}

/// The value of the first variable of that name.
pub open spec fn value_of(env: Seq<(Seq<char>, Seq<char>)>, name: Seq<char>) -> Option<Seq<char>>
    decreases env.len(),
{
    if env.len() == 0 {
        None
    } else if env[0].0 == name {
        Some(env[0].1)
    } else {
        value_of(env.skip(1), name)
    }
}

/// The value of an environment variable.
pub fn variable(env: &Vec<Variable>, name: &str) -> (value: Option<String>)
    ensures
        option_text(value) == value_of(views(env@), name@),
{
    let mut i: usize = 0;
    assert(views(env@).skip(0) =~= views(env@));
    while i < env.len()
        invariant
            i <= env@.len(),
            value_of(views(env@), name@) == value_of(views(env@).skip(i as int), name@),
        decreases env@.len() - i,
    {
        assert(views(env@).skip(i as int)[0] == env@[i as int]@);
        if same(env[i].name.as_str(), name) {
            return Some(env[i].value.clone());
        }
        assert(views(env@).skip(i as int).skip(1) =~= views(env@).skip(i + 1));
        i += 1;
    }
    None
}

/// The value, or what stands in for it.
pub open spec fn or_else(value: Option<Seq<char>>, fallback: Seq<char>) -> Seq<char> {
    match value {
        Some(v) => v,
        None => fallback,
    }
}

fn text_or(value: Option<String>, fallback: String) -> (s: String)
    ensures
        s@ == or_else(option_text(value), fallback@),
{
    match value {
        Some(v) => v,
        None => fallback,
    }
}

/// Resolved base directories for one user and platform.
#[derive(Debug, Clone, PartialEq, Eq)]
pub struct Paths {
    home: String,
    cache_dir: String,
    config_dir: String,
    state_dir: String,
    cargo_home: String,
    gopath: String,
    go_mod_cache: String,
    go_build_cache: String,
    android_sdk: Option<String>,
    android_avd: String,
    tmpdir: Option<String>,
    sandboxed: bool,
    os: Os,
}

pub struct PathsModel {
    pub home: Seq<char>,
    pub cache_dir: Seq<char>,
    pub config_dir: Seq<char>,
    pub state_dir: Seq<char>,
    pub cargo_home: Seq<char>,
    pub gopath: Seq<char>,
    pub go_mod_cache: Seq<char>,
    pub go_build_cache: Seq<char>,
    pub android_sdk: Option<Seq<char>>,
    pub android_avd: Seq<char>,
    pub tmpdir: Option<Seq<char>>,
    pub sandboxed: bool,
    pub os: Os,
}

impl View for Paths {
    type V = PathsModel;

    closed spec fn view(&self) -> PathsModel {
        PathsModel {
            home: self.home@,
            cache_dir: self.cache_dir@,
            config_dir: self.config_dir@,
            state_dir: self.state_dir@,
            cargo_home: self.cargo_home@,
            gopath: self.gopath@,
            go_mod_cache: self.go_mod_cache@,
            go_build_cache: self.go_build_cache@,
            android_sdk: option_text(self.android_sdk),
            android_avd: self.android_avd@,
            tmpdir: option_text(self.tmpdir),
            sandboxed: self.sandboxed,
            os: self.os,
        }
    }
}

impl Dup for Paths {
    fn dup(&self) -> (copy: Self) {
        Paths {
            home: self.home.clone(),
            cache_dir: self.cache_dir.clone(),
            config_dir: self.config_dir.clone(),
            state_dir: self.state_dir.clone(),
            cargo_home: self.cargo_home.clone(),
            gopath: self.gopath.clone(),
            go_mod_cache: self.go_mod_cache.clone(),
            go_build_cache: self.go_build_cache.clone(),
            android_sdk: dup_option(&self.android_sdk),
            android_avd: self.android_avd.clone(),
            tmpdir: dup_option(&self.tmpdir),
            sandboxed: self.sandboxed,
            os: self.os,
        }
    }
}

pub open spec fn cache_of(home: Seq<char>, os: Os) -> Seq<char> {
    if os == Os::MacOs {
        join(home, "Library/Caches"@)
    } else {
        join(home, ".cache"@)
    }
}

pub open spec fn sdk_of(home: Seq<char>, os: Os) -> Option<Seq<char>> {
    match os {
        Os::MacOs => Some(join(home, "Library/Android/sdk"@)),
        Os::Linux => Some(join(home, "Android/Sdk"@)),
        Os::Other => None,
    }
}

/// Every directory derived from a home alone.
pub open spec fn under_home(home: Seq<char>, os: Os) -> PathsModel {
    PathsModel {
        home,
        cache_dir: cache_of(home, os),
        config_dir: join(home, ".config"@),
        state_dir: join(home, ".local/state"@),
        cargo_home: join(home, ".cargo"@),
        gopath: join(home, "go"@),
        go_mod_cache: join(join(home, "go"@), "pkg/mod"@),
        go_build_cache: join(cache_of(home, os), "go-build"@),
        android_sdk: sdk_of(home, os),
        android_avd: join(home, ".android/avd"@),
        tmpdir: None,
        sandboxed: true,
        os,
    }
}

/// The home, with every directory a variable overrides moved to where the variable says.
pub open spec fn overridden(
    home: Seq<char>,
    env: Seq<(Seq<char>, Seq<char>)>,
    os: Os,
) -> PathsModel {
    let base = under_home(home, os);
    let cache_dir = or_else(value_of(env, "XDG_CACHE_HOME"@), base.cache_dir);
    let gopath = or_else(value_of(env, "GOPATH"@), base.gopath);
    PathsModel {
        home,
        cache_dir,
        config_dir: or_else(value_of(env, "XDG_CONFIG_HOME"@), base.config_dir),
        state_dir: or_else(value_of(env, "XDG_STATE_HOME"@), base.state_dir),
        cargo_home: or_else(value_of(env, "CARGO_HOME"@), base.cargo_home),
        gopath,
        go_mod_cache: or_else(value_of(env, "GOMODCACHE"@), join(gopath, "pkg/mod"@)),
        go_build_cache: or_else(value_of(env, "GOCACHE"@), join(cache_dir, "go-build"@)),
        android_sdk: match value_of(env, "ANDROID_HOME"@) {
            Some(sdk) => Some(sdk),
            None => match value_of(env, "ANDROID_SDK_ROOT"@) {
                Some(sdk) => Some(sdk),
                None => base.android_sdk,
            },
        },
        android_avd: or_else(value_of(env, "ANDROID_AVD_HOME"@), base.android_avd),
        tmpdir: value_of(env, "TMPDIR"@),
        sandboxed: false,
        os,
    }
}

impl Paths {
    /// Resolve from the environment, honouring the standard override variables. The home is
    /// `$HOME`, or what the system names where that is not set.
    pub fn from_env(env: &Vec<Variable>, system_home: Option<String>, os: Os) -> (r: Result<
        Self,
        Error,
    >)
        ensures
            match r {
                Ok(paths) => match value_of(views(env@), "HOME"@) {
                    Some(home) => paths@ == overridden(home, views(env@), os),
                    None => option_text(system_home) matches Some(home) && paths@ == overridden(
                        home,
                        views(env@),
                        os,
                    ),
                },
                Err(e) => value_of(views(env@), "HOME"@) is None && system_home is None && e@
                    == ErrorModel::NoHome,
            },
    {
        let home: String = match variable(env, "HOME") {
            Some(home) => home,
            None => match system_home {
                Some(home) => home,
                None => {
                    return Err(Error::NoHome);
                },
            },
        };
        let base = Self::with_home(home.as_str(), os);
        let cache_dir = text_or(variable(env, "XDG_CACHE_HOME"), base.cache_dir);
        let gopath = text_or(variable(env, "GOPATH"), base.gopath);
        let go_mod_cache = text_or(
            variable(env, "GOMODCACHE"),
            join_path(gopath.as_str(), "pkg/mod"),
        );
        let go_build_cache = text_or(
            variable(env, "GOCACHE"),
            join_path(cache_dir.as_str(), "go-build"),
        );
        let android_sdk = match variable(env, "ANDROID_HOME") {
            Some(sdk) => Some(sdk),
            None => match variable(env, "ANDROID_SDK_ROOT") {
                Some(sdk) => Some(sdk),
                None => base.android_sdk,
            },
        };
        Ok(
            Paths {
                cache_dir,
                config_dir: text_or(variable(env, "XDG_CONFIG_HOME"), base.config_dir),
                state_dir: text_or(variable(env, "XDG_STATE_HOME"), base.state_dir),
                cargo_home: text_or(variable(env, "CARGO_HOME"), base.cargo_home),
                go_mod_cache,
                go_build_cache,
                gopath,
                android_sdk,
                android_avd: text_or(variable(env, "ANDROID_AVD_HOME"), base.android_avd),
                tmpdir: variable(env, "TMPDIR"),
                sandboxed: false,
                home,
                os,
            },
        )
    }

    /// Derive every directory from an explicit home, consulting no environment variables.
    ///
    /// The result is marked as sandboxed: whatever acts on machine-global state rather than
    /// on paths must be suppressed.
    pub fn with_home(home: &str, os: Os) -> (paths: Self)
        ensures
            paths@ == under_home(home@, os),
    {
        let cache_dir = match os {
            Os::MacOs => join_path(home, "Library/Caches"),
            _ => join_path(home, ".cache"),
        };
        let gopath = join_path(home, "go");
        let android_sdk = match os {
            Os::MacOs => Some(join_path(home, "Library/Android/sdk")),
            Os::Linux => Some(join_path(home, "Android/Sdk")),
            Os::Other => None,
        };
        Paths {
            config_dir: join_path(home, ".config"),
            state_dir: join_path(home, ".local/state"),
            cargo_home: join_path(home, ".cargo"),
            go_mod_cache: join_path(gopath.as_str(), "pkg/mod"),
            go_build_cache: join_path(cache_dir.as_str(), "go-build"),
            android_avd: join_path(home, ".android/avd"),
            android_sdk,
            gopath,
            cache_dir,
            tmpdir: None,
            sandboxed: true,
            home: home.to_owned(),
            os,
        }
    }

    /// True when these paths were pointed at an explicit home rather than the real one.
    pub fn is_sandboxed(&self) -> (r: bool)
        ensures
            r == self@.sandboxed,
    {
        self.sandboxed
    }

    pub fn os(&self) -> (os: Os)
        ensures
            os == self@.os,
    {
        self.os
    }

    pub fn home(&self) -> (p: &str)
        ensures
            p@ == self@.home,
    {
        self.home.as_str()
    }

    /// `~/<rest>`
    pub fn home_join(&self, rest: &str) -> (p: String)
        ensures
            p@ == join(self@.home, rest@),
    {
        join_path(self.home.as_str(), rest)
    }

    /// `~/Library/Caches` on macOS, `$XDG_CACHE_HOME` or `~/.cache` elsewhere.
    pub fn cache_dir(&self) -> (p: String)
        ensures
            p@ == self@.cache_dir,
    {
        self.cache_dir.clone()
    }

    pub fn config_dir(&self) -> (p: String)
        ensures
            p@ == self@.config_dir,
    {
        self.config_dir.clone()
    }

    pub fn state_dir(&self) -> (p: String)
        ensures
            p@ == self@.state_dir,
    {
        self.state_dir.clone()
    }

    /// The configuration file, `~/.config/reclaim/config.toml`.
    pub fn config_file(&self) -> (p: String)
        ensures
            p@ == join(self@.config_dir, "reclaim/config.toml"@),
    {
        join_path(self.config_dir.as_str(), "reclaim/config.toml")
    }

    /// The journal directory, `~/.local/state/reclaim/history`.
    pub fn journal_dir(&self) -> (p: String)
        ensures
            p@ == join(self@.state_dir, "reclaim/history"@),
    {
        join_path(self.state_dir.as_str(), "reclaim/history")
    }

    /// macOS `~/Library/Developer`. `None` on other platforms.
    pub fn xcode_dir(&self) -> (p: Option<String>)
        ensures
            option_text(p) == if self@.os == Os::MacOs {
                Some(join(self@.home, "Library/Developer"@))
            } else {
                None
            },
    {
        match self.os {
            Os::MacOs => Some(join_path(self.home.as_str(), "Library/Developer")),
            _ => None,
        }
    }

    pub fn android_sdk(&self) -> (p: Option<String>)
        ensures
            option_text(p) == self@.android_sdk,
    {
        dup_option(&self.android_sdk)
    }

    pub fn android_avd(&self) -> (p: String)
        ensures
            p@ == self@.android_avd,
    {
        self.android_avd.clone()
    }

    pub fn cargo_home(&self) -> (p: String)
        ensures
            p@ == self@.cargo_home,
    {
        self.cargo_home.clone()
    }

    pub fn gopath(&self) -> (p: String)
        ensures
            p@ == self@.gopath,
    {
        self.gopath.clone()
    }

    pub fn go_mod_cache(&self) -> (p: String)
        ensures
            p@ == self@.go_mod_cache,
    {
        self.go_mod_cache.clone()
    }

    pub fn go_build_cache(&self) -> (p: String)
        ensures
            p@ == self@.go_build_cache,
    {
        self.go_build_cache.clone()
    }

    pub fn tmpdir(&self) -> (p: Option<String>)
        ensures
            option_text(p) == self@.tmpdir,
    {
        dup_option(&self.tmpdir)
    }

    /// Point one base directory elsewhere. Moving the Go path moves its module cache too.
    pub fn with_override(self, which: Base, path: &str) -> (paths: Self)
        ensures
            paths@ == redirected(self@, which, path@),
    {
        let mut paths = self;
        let path = path.to_owned();
        match which {
            Base::CargoHome => {
                paths.cargo_home = path;
            },
            Base::GoPath => {
                paths.go_mod_cache = join_path(path.as_str(), "pkg/mod");
                paths.gopath = path;
            },
            Base::GoBuildCache => {
                paths.go_build_cache = path;
            },
            Base::AndroidSdk => {
                paths.android_sdk = Some(path);
            },
            Base::AndroidAvd => {
                paths.android_avd = path;
            },
            Base::CacheDir => {
                paths.cache_dir = path;
            },
        }
        paths
    }

    /// Expand a leading `~` and any `$VAR` references in a configured path.
    pub fn expand(&self, raw: &str, env: &Vec<Variable>) -> (p: String)
        ensures
            p@ == expanded_path(self@.home, raw@, views(env@)),
    {
        let expanded = expand_env_vars(raw, env);
        let chars = chars_of(expanded.as_str());
        if chars.len() == 1 && chars[0] == '~' {
            assert(chars@ =~= seq!['~']);
            return self.home.clone();
        }
        assert(expanded@ != seq!['~']);
        if chars.len() >= 2 && chars[0] == '~' && chars[1] == '/' {
            assert(chars@.take(2) =~= seq!['~', '/']);
            assert(chars@.subrange(2, chars@.len() as int) =~= chars@.skip(2));
            let rest = slice_text(&chars, 2, chars.len());
            return join_path(self.home.as_str(), rest.as_str());
        }
        assert(!has_prefix(expanded@, seq!['~', '/'])) by {
            if has_prefix(expanded@, seq!['~', '/']) {
                assert(expanded@.take(2)[0] == '~' && expanded@.take(2)[1] == '/');
            }
        }
        expanded
    }

    /// The inverse of [`Self::expand`], for display: `/home/x/.npm` becomes `~/.npm`.
    pub fn contract(&self, path: &str) -> (s: String)
        ensures
            s@ == contracted(self@.home, path@),
    {
        match strip_base(path, self.home.as_str()) {
            Some(rest) => {
                if rest.as_str().is_empty() {
                    "~".to_owned()
                } else {
                    "~/".to_owned().concat(rest.as_str())
                }
            },
            None => path.to_owned(),
        }
    }
}

/// Which base directory an override targets.
#[derive(Debug, Clone, Copy, PartialEq, Eq, Structural)]
pub enum Base {
    CargoHome,
    GoPath,
    GoBuildCache,
    AndroidSdk,
    AndroidAvd,
    CacheDir,
}

pub open spec fn redirected(p: PathsModel, which: Base, path: Seq<char>) -> PathsModel {
    match which {
        Base::CargoHome => PathsModel { cargo_home: path, ..p },
        Base::GoPath => PathsModel { gopath: path, go_mod_cache: join(path, "pkg/mod"@), ..p },
        Base::GoBuildCache => PathsModel { go_build_cache: path, ..p },
        Base::AndroidSdk => PathsModel { android_sdk: Some(path), ..p },
        Base::AndroidAvd => PathsModel { android_avd: path, ..p },
        Base::CacheDir => PathsModel { cache_dir: path, ..p },
    }
}

pub open spec fn expanded_path(
    home: Seq<char>,
    raw: Seq<char>,
    env: Seq<(Seq<char>, Seq<char>)>,
) -> Seq<char> {
    let text = substituted(raw, env);
    if text == seq!['~'] {
        home
    } else if has_prefix(text, seq!['~', '/']) {
        join(home, text.skip(2))
    } else {
        text
    }
}

pub open spec fn contracted(home: Seq<char>, path: Seq<char>) -> Seq<char> {
    if under(path, home) {
        let rest = text_below(path, components(home).len());
        if rest.len() == 0 {
            "~"@
        } else {
            "~/"@ + rest
        }
    } else {
        path
    }
}

pub open spec fn in_variable_name(c: char) -> bool {
    ('a' <= c <= 'z') || ('A' <= c <= 'Z') || ('0' <= c <= '9') || c == '_'
}

/// How many characters of a variable name `s` starts with.
pub open spec fn name_length(s: Seq<char>) -> nat
    decreases s.len(),
{
    if s.len() > 0 && in_variable_name(s[0]) {
        1 + name_length(s.skip(1))
    } else {
        0
    }
}

pub proof fn lemma_name_length(s: Seq<char>)
    ensures
        name_length(s) <= s.len(),
    decreases s.len(),
{
    if s.len() > 0 && in_variable_name(s[0]) {
        lemma_name_length(s.skip(1));
    }
}

/// What a reference takes up: `$NAME` or `${NAME}`, with the closing brace where it is there.
pub open spec fn reference(s: Seq<char>) -> (Seq<char>, int) {
    let braced = s.len() > 1 && s[1] == '{';
    let start: int = if braced {
        2
    } else {
        1
    };
    let end = start + name_length(s.skip(start));
    let name = s.subrange(start, end);
    if braced && end < s.len() && s[end] == '}' {
        (name, end + 1)
    } else {
        (name, end)
    }
}

/// `s` with each `$NAME` and `${NAME}` replaced by the variable's value, or by nothing where
/// there is no such variable. A `$` without a name stays.
pub open spec fn substituted(s: Seq<char>, env: Seq<(Seq<char>, Seq<char>)>) -> Seq<char>
    decreases s.len(),
    via substituted_decreases
{
    if s.len() == 0 {
        Seq::empty()
    } else if s[0] != '$' {
        seq![s[0]] + substituted(s.skip(1), env)
    } else {
        let (name, end) = reference(s);
        let value = if name.len() == 0 {
            seq!['$']
        } else {
            or_else(value_of(env, name), Seq::empty())
        };
        value + substituted(s.skip(end), env)
    }
}

#[via_fn]
proof fn substituted_decreases(s: Seq<char>, env: Seq<(Seq<char>, Seq<char>)>) {
    if s.len() > 0 && s[0] == '$' {
        lemma_reference(s);
    }
}

pub proof fn lemma_reference(s: Seq<char>)
    requires
        s.len() > 0,
        s[0] == '$',
    ensures
        1 <= reference(s).1 <= s.len(),
{
    let start: int = if s.len() > 1 && s[1] == '{' {
        2
    } else {
        1
    };
    lemma_name_length(s.skip(start));
}

/// Substitute `$VAR` and `${VAR}`. Unknown variables expand to nothing, as in a shell.
pub fn expand_env_vars(input: &str, env: &Vec<Variable>) -> (out: String)
    ensures
        out@ == substituted(input@, views(env@)),
{
    let s = chars_of(input);
    let ghost e = views(env@);
    let mut out = String::new();
    let mut i: usize = 0;
    assert(s@.skip(0) =~= s@);
    assert(out@ + substituted(s@, e) =~= substituted(s@, e));
    while i < s.len()
        invariant
            i <= s@.len(),
            s@ == input@,
            e == views(env@),
            out@ + substituted(s@.skip(i as int), e) == substituted(s@, e),
        decreases s@.len() - i,
    {
        let ghost rest = s@.skip(i as int);
        let ghost before = out@;
        assert(rest[0] == s@[i as int]);
        if s[i] != '$' {
            out.push(s[i]);
            i += 1;
            proof {
                assert(rest.skip(1) =~= s@.skip(i as int));
                assert(out@ + substituted(s@.skip(i as int), e) =~= before + (seq![rest[0]]
                    + substituted(rest.skip(1), e)));
            }
        } else {
            let total: usize = s.len();
            let braced = i + 1 < total && s[i + 1] == '{';
            let start: usize = if braced {
                i + 2
            } else {
                i + 1
            };
            let mut end: usize = start;
            proof {
                assert(rest.skip(start - i) =~= s@.skip(start as int));
            }
            while end < s.len() && (('a' <= s[end] && s[end] <= 'z') || ('A' <= s[end] && s[end]
                <= 'Z') || ('0' <= s[end] && s[end] <= '9') || s[end] == '_')
                invariant
                    start <= end <= s@.len(),
                    name_length(s@.skip(start as int)) == (end - start) + name_length(
                        s@.skip(end as int),
                    ),
                decreases s@.len() - end,
            {
                assert(s@.skip(end as int).skip(1) =~= s@.skip(end + 1));
                assert(s@.skip(end as int)[0] == s@[end as int]);
                end += 1;
            }
            if end < s.len() {
                assert(s@.skip(end as int)[0] == s@[end as int]);
            }
            let name = slice_text(&s, start, end);
            let after: usize = if braced && end < s.len() && s[end] == '}' {
                end + 1
            } else {
                end
            };
            proof {
                assert(rest.subrange(start - i, end - i) =~= s@.subrange(start as int, end as int));
                assert(reference(rest) == (name@, after - i));
                assert(rest.skip(after - i) =~= s@.skip(after as int));
            }
            if name.as_str().is_empty() {
                out.push('$');
                assert(out@ =~= before + seq!['$']);
            } else {
                match variable(env, name.as_str()) {
                    Some(value) => {
                        out.append(value.as_str());
                    },
                    None => {
                        assert(before + Seq::<char>::empty() =~= before);
                    },
                }
            }
            i = after;
            proof {
                let value = if name@.len() == 0 {
                    seq!['$']
                } else {
                    or_else(value_of(e, name@), Seq::empty())
                };
                assert(out@ =~= before + value);
                assert(out@ + substituted(s@.skip(i as int), e) =~= before + (value + substituted(
                    s@.skip(i as int),
                    e,
                )));
            }
        }
    }
    assert(s@.skip(s@.len() as int) =~= Seq::empty());
    assert(out@ + Seq::<char>::empty() =~= out@);
    out
}

/// Text without a `$` stays as it is, whatever the environment holds.
pub proof fn text_without_references_is_kept(s: Seq<char>, env: Seq<(Seq<char>, Seq<char>)>)
    requires
        !s.contains('$'),
    ensures
        substituted(s, env) == s,
    decreases s.len(),
{
    if s.len() > 0 {
        assert(s[0] != '$') by {
            assert(s.contains(s[0]));
        }
        assert(!s.skip(1).contains('$')) by {
            if s.skip(1).contains('$') {
                let i = choose|i: int| 0 <= i < s.skip(1).len() && s.skip(1)[i] == '$';
                assert(s[i + 1] == '$');
            }
        }
        text_without_references_is_kept(s.skip(1), env);
        assert(seq![s[0]] + s.skip(1) =~= s);
    } else {
        assert(substituted(s, env) =~= s);
    }
}

/// The home directory, or a path below it that starts and ends in a name, as it is written.
pub open spec fn is_home_path(raw: Seq<char>) -> bool {
    raw == "~"@ || (has_prefix(raw, "~/"@) && spans_names(raw.skip(2)))
}

/// Contracting what was expanded gives the text back, for `~` and for a path below it, unless a
/// variable was replaced in it.
pub proof fn contract_is_the_inverse_of_expand(
    home: Seq<char>,
    raw: Seq<char>,
    env: Seq<(Seq<char>, Seq<char>)>,
)
    requires
        is_home_path(raw),
        substituted(raw, env) == raw,
    ensures
        contracted(home, expanded_path(home, raw, env)) == raw,
{
    reveal_strlit("~/");
    reveal_strlit("~");
    assert("~"@ =~= seq!['~']);
    if raw == "~"@ {
        assert(components(home).take(components(home).len() as int) =~= components(home));
        lemma_text_below_itself(home);
    } else {
        let rel = raw.skip(2);
        lemma_segments_nonempty(rel);
        assert(is_name(segments(rel)[0]));
        assert(rel.len() > 0) by {
            if rel.len() == 0 {
                assert(segments(rel) =~= seq![Seq::<char>::empty()]);
            }
        }
        assert(raw != seq!['~']) by {
            assert(raw.len() != 1);
        }
        assert("~/"@ =~= seq!['~', '/']);
        assert(raw =~= "~/"@ + rel);
        lemma_text_below_join(home, rel);
    }
}

/// A path that is not below the home directory is shown as it is.
pub proof fn paths_elsewhere_are_shown_as_they_are(home: Seq<char>, path: Seq<char>)
    requires
        !under(path, home),
    ensures
        contracted(home, path) == path,
{
}

/// Every directory derived from a home lies under it.
pub proof fn derived_paths_stay_under_the_home(home: Seq<char>, os: Os)
    ensures
        under(under_home(home, os).cache_dir, home),
        under(under_home(home, os).config_dir, home),
        under(under_home(home, os).state_dir, home),
        under(join(under_home(home, os).config_dir, "reclaim/config.toml"@), home),
        under(join(under_home(home, os).state_dir, "reclaim/history"@), home),
        under(under_home(home, os).cargo_home, home),
        under(under_home(home, os).gopath, home),
        under(under_home(home, os).go_mod_cache, home),
        under(under_home(home, os).go_build_cache, home),
        under(under_home(home, os).android_avd, home),
        under_home(home, os).android_sdk matches Some(sdk) ==> under(sdk, home),
        under_home(home, os).tmpdir is None,
{
    reveal_strlit("Library/Caches");
    reveal_strlit(".cache");
    reveal_strlit(".config");
    reveal_strlit(".local/state");
    reveal_strlit("reclaim/config.toml");
    reveal_strlit("reclaim/history");
    reveal_strlit(".cargo");
    reveal_strlit("go");
    reveal_strlit("pkg/mod");
    reveal_strlit("go-build");
    reveal_strlit(".android/avd");
    reveal_strlit("Library/Android/sdk");
    reveal_strlit("Android/Sdk");
    let p = under_home(home, os);
    lemma_join_under_named(home, "Library/Caches"@);
    lemma_join_under_named(home, ".cache"@);
    lemma_join_under_named(home, ".config"@);
    lemma_join_under_named(home, ".local/state"@);
    lemma_join_under_named(p.config_dir, "reclaim/config.toml"@);
    lemma_under_transitive(join(p.config_dir, "reclaim/config.toml"@), p.config_dir, home);
    lemma_join_under_named(p.state_dir, "reclaim/history"@);
    lemma_under_transitive(join(p.state_dir, "reclaim/history"@), p.state_dir, home);
    lemma_join_under_named(home, ".cargo"@);
    lemma_join_under_named(home, "go"@);
    lemma_join_under_named(p.gopath, "pkg/mod"@);
    lemma_under_transitive(p.go_mod_cache, p.gopath, home);
    lemma_join_under_named(p.cache_dir, "go-build"@);
    lemma_under_transitive(p.go_build_cache, p.cache_dir, home);
    lemma_join_under_named(home, ".android/avd"@);
    lemma_join_under_named(home, "Library/Android/sdk"@);
    lemma_join_under_named(home, "Android/Sdk"@);
}

/// Joining a text whose second character is not a separator keeps the result below the base.
proof fn lemma_join_under_named(base: Seq<char>, rel: Seq<char>)
    requires
        rel.len() >= 2,
        rel[0] != '/',
        rel[1] != '/',
    ensures
        under(join(base, rel), base),
{
    lemma_first_segment_two(rel);
    assert(segments(rel)[0] != seq!['.']) by {
        assert(seq!['.'].len() == 1);
    }
    lemma_join_under(base, rel);
}

/// A variable has the value of its first binding, and none where it is not bound.
pub proof fn the_first_binding_counts(env: Seq<(Seq<char>, Seq<char>)>, name: Seq<char>)
    ensures
        value_of(env, name) is None <==> forall|i: int|
            0 <= i < env.len() ==> (#[trigger] env[i]).0 != name,
        value_of(env, name) matches Some(value) ==> exists|i: int|
            0 <= i < env.len() && #[trigger] env[i] == (name, value) && forall|k: int|
                0 <= k < i ==> (#[trigger] env[k]).0 != name,
    decreases env.len(),
{
    if env.len() > 0 {
        let rest = env.skip(1);
        the_first_binding_counts(rest, name);
        if env[0].0 != name {
            if let Some(value) = value_of(rest, name) {
                let i = choose|i: int|
                    0 <= i < rest.len() && #[trigger] rest[i] == (name, value) && forall|k: int|
                        0 <= k < i ==> (#[trigger] rest[k]).0 != name;
                assert(env[i + 1] == (name, value));
                assert forall|k: int| 0 <= k < i + 1 implies (#[trigger] env[k]).0 != name by {
                    if k > 0 {
                        assert(env[k] == rest[k - 1]);
                    }
                }
            } else {
                assert forall|i: int| 0 <= i < env.len() implies (#[trigger] env[i]).0 != name by {
                    if i > 0 {
                        assert(env[i] == rest[i - 1]);
                    }
                }
            }
        } else {
            assert(env[0] == (name, value_of(env, name)->0));
        }
    }
}

/// A name of a variable: letters, digits and underscores, at least one.
pub open spec fn is_variable_name(name: Seq<char>) -> bool {
    name.len() > 0 && forall|i: int|
        0 <= i < name.len() ==> ('a' <= #[trigger] name[i] <= 'z') || ('A' <= name[i] <= 'Z') || (
        '0' <= name[i] <= '9') || name[i] == '_'
}

proof fn lemma_name_read(name: Seq<char>, rest: Seq<char>)
    requires
        forall|i: int| 0 <= i < name.len() ==> in_variable_name(#[trigger] name[i]),
        rest.len() == 0 || !in_variable_name(rest[0]),
    ensures
        name_length(name + rest) == name.len(),
    decreases name.len(),
{
    if name.len() > 0 {
        let fewer = name.skip(1);
        assert forall|i: int| 0 <= i < fewer.len() implies in_variable_name(#[trigger] fewer[i]) by {
            assert(fewer[i] == name[i + 1]);
        }
        lemma_name_read(fewer, rest);
        assert((name + rest).skip(1) =~= fewer + rest);
        assert((name + rest)[0] == name[0]);
    } else {
        assert(name + rest =~= rest);
    }
}

/// A reference to a variable, with or without braces, is replaced by the value of the variable, by
/// nothing where it has none, and what follows it is read on. Other text stands as it is, and so
/// does a `$` that begins no name.
pub proof fn references_are_replaced(
    name: Seq<char>,
    rest: Seq<char>,
    c: char,
    env: Seq<(Seq<char>, Seq<char>)>,
)
    requires
        is_variable_name(name),
    ensures
        ({
            let value = match value_of(env, name) {
                Some(value) => value,
                None => Seq::empty(),
            };
            &&& rest.len() == 0 || !in_variable_name(rest[0]) ==> substituted(
                seq!['$'] + name + rest,
                env,
            ) == value + substituted(rest, env)
            &&& substituted(seq!['$', '{'] + name + seq!['}'] + rest, env) == value + substituted(
                rest,
                env,
            )
        }),
        c != '$' ==> substituted(seq![c] + rest, env) == seq![c] + substituted(rest, env),
        substituted(Seq::empty(), env) == Seq::<char>::empty(),
        rest.len() == 0 || (!in_variable_name(rest[0]) && rest[0] != '{') ==> substituted(
            seq!['$'] + rest,
            env,
        ) == seq!['$'] + substituted(rest, env),
{
    assert forall|i: int| 0 <= i < name.len() implies in_variable_name(#[trigger] name[i]) by {
    }
    if rest.len() == 0 || !in_variable_name(rest[0]) {
        let s = seq!['$'] + name + rest;
        lemma_name_read(name, rest);
        assert(s.skip(1) =~= name + rest);
        assert(in_variable_name(name[0]));
        assert(s[1] == name[0]);
        assert(s.subrange(1, 1 + name.len() as int) =~= name);
        assert(s.skip(1 + name.len() as int) =~= rest);
        assert(reference(s) == (name, 1 + name.len() as int));
    }
    let braced = seq!['$', '{'] + name + seq!['}'] + rest;
    lemma_name_read(name, seq!['}'] + rest);
    assert((seq!['}'] + rest)[0] == '}');
    assert(braced.skip(2) =~= name + (seq!['}'] + rest));
    assert(braced[1] == '{');
    assert(braced.subrange(2, 2 + name.len() as int) =~= name);
    assert(braced[2 + name.len() as int] == '}');
    assert(reference(braced) == (name, 3 + name.len() as int));
    assert(braced.skip(3 + name.len() as int) =~= rest);
    assert((seq![c] + rest).skip(1) =~= rest);
    assert((seq![c] + rest)[0] == c);
    if rest.len() == 0 || (!in_variable_name(rest[0]) && rest[0] != '{') {
        let s = seq!['$'] + rest;
        assert(s.skip(1) =~= rest);
        lemma_name_read(Seq::empty(), rest);
        assert(Seq::<char>::empty() + rest =~= rest);
        assert(name_length(rest) == 0);
        assert(rest.len() > 0 ==> s[1] == rest[0]);
        assert(s.subrange(1, 1) =~= Seq::<char>::empty());
        assert(reference(s) == (Seq::<char>::empty(), 1int));
    }
}

/// `~` is the home directory and `~/` begins a path in it; any other text stays as it is.
pub proof fn a_tilde_is_the_home(
    home: Seq<char>,
    raw: Seq<char>,
    env: Seq<(Seq<char>, Seq<char>)>,
)
    requires
        substituted(raw, env) == raw,
    ensures
        raw == "~"@ ==> expanded_path(home, raw, env) == home,
        raw.len() >= 2 && raw[0] == '~' && raw[1] == '/' ==> expanded_path(home, raw, env) == join(
            home,
            raw.skip(2),
        ),
        raw.len() == 0 || raw[0] != '~' || (raw.len() >= 2 && raw[1] != '/') ==> expanded_path(
            home,
            raw,
            env,
        ) == raw,
{
    reveal_strlit("~");
    assert("~"@ =~= seq!['~']);
    if raw.len() >= 2 && raw[0] == '~' && raw[1] == '/' {
        assert(raw.take(2) =~= seq!['~', '/']);
    }
    if has_prefix(raw, seq!['~', '/']) {
        assert(raw.take(2)[0] == raw[0] && raw.take(2)[1] == raw[1]);
    }
}

/// Where a variable names a directory, that is where it is; where none does, it is where it is by
/// default below the home. A module cache follows the Go path, and a build cache the cache
/// directory, unless it has a variable of its own.
pub proof fn a_variable_moves_its_directory(
    home: Seq<char>,
    env: Seq<(Seq<char>, Seq<char>)>,
    os: Os,
)
    ensures
        ({
            let p = overridden(home, env, os);
            let base = under_home(home, os);
            &&& p.home == home && p.os == os && !p.sandboxed && base.sandboxed
            &&& value_of(env, "XDG_CACHE_HOME"@) matches Some(dir) ==> p.cache_dir == dir
            &&& value_of(env, "XDG_CONFIG_HOME"@) matches Some(dir) ==> p.config_dir == dir
            &&& value_of(env, "XDG_STATE_HOME"@) matches Some(dir) ==> p.state_dir == dir
            &&& value_of(env, "CARGO_HOME"@) matches Some(dir) ==> p.cargo_home == dir
            &&& value_of(env, "GOPATH"@) matches Some(dir) ==> p.gopath == dir
            &&& value_of(env, "GOMODCACHE"@) matches Some(dir) ==> p.go_mod_cache == dir
            &&& value_of(env, "GOMODCACHE"@) is None ==> p.go_mod_cache == join(
                p.gopath,
                "pkg/mod"@,
            )
            &&& value_of(env, "GOCACHE"@) matches Some(dir) ==> p.go_build_cache == dir
            &&& value_of(env, "GOCACHE"@) is None ==> p.go_build_cache == join(
                p.cache_dir,
                "go-build"@,
            )
            &&& value_of(env, "ANDROID_HOME"@) matches Some(dir) ==> p.android_sdk == Some(dir)
            &&& value_of(env, "ANDROID_AVD_HOME"@) matches Some(dir) ==> p.android_avd == dir
            &&& p.tmpdir == value_of(env, "TMPDIR"@)
        }),
        env.len() == 0 ==> overridden(home, env, os) == (PathsModel {
            sandboxed: false,
            ..under_home(home, os)
        }),
{
}

/// Redirecting one directory moves it, the module cache with the Go path, and nothing else.
pub proof fn redirecting_moves_one_directory(p: PathsModel, which: Base, path: Seq<char>)
    ensures
        ({
            let q = redirected(p, which, path);
            &&& q.home == p.home && q.config_dir == p.config_dir && q.state_dir == p.state_dir
            &&& q.tmpdir == p.tmpdir && q.sandboxed == p.sandboxed && q.os == p.os
            &&& q.cargo_home == if which == Base::CargoHome { path } else { p.cargo_home }
            &&& q.gopath == if which == Base::GoPath { path } else { p.gopath }
            &&& q.go_mod_cache == if which == Base::GoPath {
                join(path, "pkg/mod"@)
            } else {
                p.go_mod_cache
            }
            &&& q.go_build_cache == if which == Base::GoBuildCache { path } else { p.go_build_cache }
            &&& q.android_sdk == if which == Base::AndroidSdk { Some(path) } else { p.android_sdk }
            &&& q.android_avd == if which == Base::AndroidAvd { path } else { p.android_avd }
            &&& q.cache_dir == if which == Base::CacheDir { path } else { p.cache_dir }
        }),
{
}

} // verus!
