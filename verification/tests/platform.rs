//! Where things are on each platform.
use reclaim::path::is_under;
use reclaim::platform::{expand_env_vars, Base, Os, Paths, Variable};

fn paths() -> Paths {
    Paths::with_home("/home/tester", Os::Linux)
}

fn set(name: &str, value: &str) -> Variable {
    Variable { name: name.to_string(), value: value.to_string() }
}

#[test]
fn with_home_reads_no_environment_variables() {
    // A home that is given is the whole truth: there is no environment to consult.
    let p = Paths::with_home("/home/tester", Os::Linux);
    assert_eq!(p.cargo_home(), "/home/tester/.cargo");
    assert_eq!(p.gopath(), "/home/tester/go");
    assert!(is_under(&p.cache_dir(), "/home/tester"));

    let env = vec![
        set("HOME", "/home/tester"),
        set("CARGO_HOME", "/somewhere/else/cargo"),
        set("XDG_CACHE_HOME", "/somewhere/else/cache"),
        set("GOPATH", "/somewhere/else/go"),
    ];
    let from_env = Paths::from_env(&env, None, Os::Linux).unwrap();
    assert_eq!(from_env.cargo_home(), "/somewhere/else/cargo");
    assert_eq!(from_env.gopath(), "/somewhere/else/go");
}

#[test]
fn every_derived_path_stays_under_the_given_home() {
    for os in [Os::MacOs, Os::Linux, Os::Other] {
        let p = Paths::with_home("/home/tester", os);
        for path in [
            p.cache_dir(),
            p.config_dir(),
            p.state_dir(),
            p.config_file(),
            p.journal_dir(),
            p.cargo_home(),
            p.gopath(),
            p.go_mod_cache(),
            p.go_build_cache(),
            p.android_avd(),
        ] {
            assert!(is_under(&path, "/home/tester"), "{path} escaped the home");
        }
    }
}

#[test]
fn overrides_redirect_a_single_base_without_touching_the_environment() {
    let p = paths().with_override(Base::CargoHome, "/sandbox/cargo");
    assert_eq!(p.cargo_home(), "/sandbox/cargo");
    assert_eq!(p.gopath(), "/home/tester/go", "other bases are unaffected");
}

#[test]
fn overriding_gopath_also_moves_the_module_cache() {
    let p = paths().with_override(Base::GoPath, "/sandbox/go");
    assert_eq!(p.go_mod_cache(), "/sandbox/go/pkg/mod");
}

#[test]
fn expand_resolves_tilde() {
    let none = Vec::new();
    assert_eq!(paths().expand("~/dev", &none), "/home/tester/dev");
    assert_eq!(paths().expand("~", &none), "/home/tester");
}

#[test]
fn expand_leaves_absolute_paths_alone() {
    assert_eq!(paths().expand("/opt/thing", &Vec::new()), "/opt/thing");
}

#[test]
fn expand_does_not_treat_a_bare_tilde_prefix_as_home() {
    // `~foo` is another user's home in shell, which is deliberately not supported.
    assert_eq!(paths().expand("~foo", &Vec::new()), "~foo");
}

#[test]
fn contract_is_the_inverse_of_expand() {
    let p = paths();
    let none = Vec::new();
    assert_eq!(p.contract(&p.expand("~/.npm", &none)), "~/.npm");
    assert_eq!(p.contract(&p.expand("~", &none)), "~");
    assert_eq!(p.contract("/etc/hosts"), "/etc/hosts");
}

#[test]
fn env_vars_expand_in_both_spellings() {
    let env = vec![set("RECLAIM_TEST_VAR", "xyz")];
    assert_eq!(expand_env_vars("a/$RECLAIM_TEST_VAR/b", &env), "a/xyz/b");
    assert_eq!(expand_env_vars("a/${RECLAIM_TEST_VAR}/b", &env), "a/xyz/b");
}

#[test]
fn unknown_env_vars_expand_to_empty_like_a_shell() {
    assert_eq!(expand_env_vars("a/$RECLAIM_DEFINITELY_UNSET_VAR/b", &Vec::new()), "a//b");
}

#[test]
fn a_lone_dollar_sign_survives() {
    assert_eq!(expand_env_vars("cost: $", &Vec::new()), "cost: $");
}

#[test]
fn cache_dir_follows_the_platform_convention() {
    assert!(Paths::with_home("/home/tester", Os::MacOs).cache_dir().ends_with("Library/Caches"));
    assert!(Paths::with_home("/home/tester", Os::Linux).cache_dir().ends_with(".cache"));
}

#[test]
fn no_home_is_an_error() {
    let err = Paths::from_env(&Vec::new(), None, Os::Linux).err().unwrap();
    assert_eq!(err.message(), "could not determine the home directory");
    let found = Paths::from_env(&Vec::new(), Some("/root".to_string()), Os::Linux).unwrap();
    assert_eq!(found.home(), "/root");
    assert!(!found.is_sandboxed());
    assert!(paths().is_sandboxed());
}

#[test]
fn only_a_mac_has_a_developer_directory() {
    assert!(paths().xcode_dir().is_none());
    let mac = Paths::with_home("/Users/t", Os::MacOs);
    assert_eq!(mac.xcode_dir().unwrap(), "/Users/t/Library/Developer");
}

#[test]
fn text_without_a_dollar_sign_expands_to_itself() {
    let env = vec![set("A", "b")];
    assert_eq!(expand_env_vars("plain/{A}/text", &env), "plain/{A}/text");
}

#[test]
fn paths_outside_the_home_are_shown_whole() {
    let p = paths();
    let none = Vec::new();
    for raw in ["~/a b/c.txt", "~/a//b", "~/a/./b", "~/a/../b", "~/costs $ 5"] {
        assert_eq!(p.contract(&p.expand(raw, &none)), raw);
    }
    assert_eq!(p.contract("/usr/local/lib"), "/usr/local/lib");
    assert_eq!(p.contract("/home/testerling/x"), "/home/testerling/x");
    assert_eq!(p.contract("relative/x"), "relative/x");
}
