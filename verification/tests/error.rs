//! Errors say which path they are about.
use reclaim::error::Error;

#[test]
fn refusal_message_names_the_path() {
    let err = Error::refused("/etc", "outside the allowed roots");
    let msg = err.message();
    assert!(msg.contains("/etc"), "{msg}");
    assert!(msg.contains("outside the allowed roots"), "{msg}");
}

#[test]
fn missing_paths_are_recognised_as_benign() {
    let missing = Error::io("/gone", true, "entity not found");
    let denied = Error::io("/root", false, "permission denied");
    assert!(missing.is_not_found());
    assert!(!denied.is_not_found());
}

#[test]
fn every_error_reads_as_a_sentence() {
    let cases = vec![
        (Error::refused("/x", "no"), "refusing to touch /x: no"),
        (
            Error::ConfigParse { path: "/c".to_string(), source: "bad".to_string() },
            "config error in /c: bad",
        ),
        (Error::Config("bad".to_string()), "config error: bad"),
        (Error::NoHome, "could not determine the home directory"),
        (Error::io("/x", false, "denied"), "io error at /x: denied"),
        (
            Error::Trash { path: "/x".to_string(), source: "full".to_string() },
            "failed to move /x to the trash: full",
        ),
        (
            Error::Command {
                program: "brew".to_string(),
                status: "1".to_string(),
                stderr: "oops".to_string(),
            },
            "`brew` failed with status 1: oops",
        ),
        (Error::Other("else".to_string()), "else"),
    ];
    for (error, text) in cases {
        assert_eq!(error.message(), text);
    }
}
