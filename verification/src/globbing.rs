//! Shell-style patterns, through the `glob` crate.
use vstd::prelude::*;
use vstd::string::*;
use crate::text::{option_text, views};

verus! {

/// What is wrong with a pattern, as `glob::Pattern::new` says it, or `None` where it compiles.
pub uninterp spec fn pattern_problem(pattern: Seq<char>) -> Option<Seq<char>>;

/// Whether a pattern that compiles matches a text, as `glob::Pattern::matches` decides.
pub uninterp spec fn pattern_matches(pattern: Seq<char>, text: Seq<char>) -> bool;

/// `glob::Pattern::new` reads the pattern text alone: it gives a compiled pattern, or an
/// error with a position and a message. The contract names that outcome; how the error
/// reads is the text that the error displays.
#[verifier::external_body]
fn compile_problem(pattern: &str) -> (problem: Option<String>)
    ensures
        option_text(problem) == pattern_problem(pattern@),
{
    glob::Pattern::new(pattern).err().map(|e| e.to_string())
}

/// `glob::Pattern::matches` compares a compiled pattern with a text, under the default
/// options. The contract names its answer, a function of the two texts, for a pattern that
/// compiles.
#[verifier::external_body]
fn compiled_matches(pattern: &str, text: &str) -> (r: bool)
    requires
        pattern_problem(pattern@) is None,
    ensures
        r == pattern_matches(pattern@, text@),
{
    glob::Pattern::new(pattern).is_ok_and(|p| p.matches(text))
}

/// What is wrong with a pattern, if anything.
pub fn problem_of(pattern: &str) -> (problem: Option<String>)
    ensures
        option_text(problem) == pattern_problem(pattern@),
{
    compile_problem(pattern)
}

/// A pattern that does not compile matches nothing.
pub open spec fn glob_hits(pattern: Seq<char>, text: Seq<char>) -> bool {
    pattern_problem(pattern) is None && pattern_matches(pattern, text)
}

/// Whether one of the patterns matches.
pub open spec fn any_glob_hits(patterns: Seq<Seq<char>>, text: Seq<char>) -> bool {
    exists|i: int| 0 <= i < patterns.len() && glob_hits(#[trigger] patterns[i], text)
}

/// Whether one of the patterns matches a text. Patterns that do not compile are passed over.
pub fn any_matches(patterns: &Vec<String>, text: &str) -> (r: bool)
    ensures
        r == any_glob_hits(views(patterns@), text@),
{
    let mut i: usize = 0;
    while i < patterns.len()
        invariant
            i <= patterns@.len(),
            forall|k: int| 0 <= k < i ==> !glob_hits(#[trigger] views(patterns@)[k], text@),
        decreases patterns@.len() - i,
    {
        if compile_problem(patterns[i].as_str()).is_none() {
            if compiled_matches(patterns[i].as_str(), text) {
                assert(glob_hits(views(patterns@)[i as int], text@));
                return true;
            }
        }
        i += 1;
    }
    false
}

} // verus!
