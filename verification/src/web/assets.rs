//! Serving the embedded frontend.
//!
//! The frontend is baked into the binary. Where it was not built, a self-contained fallback page is
//! served instead: the binary must always run.
use vstd::prelude::*;
use vstd::string::*;
use crate::text::{chars_of, slice_text};

verus! {

/// The media type that a path's extension is taken to mean.
pub uninterp spec fn guessed_type(path: Seq<char>) -> Seq<char>;

/// `mime_guess::from_path`, with `application/octet-stream` where it guesses nothing. The guess
/// depends on the path alone, by a table that is part of that crate.
#[verifier::external_body]
fn guess_type(path: &str) -> (mime: String)
    ensures
        mime@ == guessed_type(path@),
{
    mime_guess::from_path(path).first_or_octet_stream().as_ref().to_owned()
}

/// A text without the slashes it starts with.
pub open spec fn without_slashes(s: Seq<char>) -> Seq<char>
    decreases s.len(),
{
    if s.len() > 0 && s[0] == '/' {
        without_slashes(s.skip(1))
    } else {
        s
    }
}

/// The asset that a request names.
pub open spec fn asset_named(uri_path: Seq<char>) -> Seq<char> {
    let rest = without_slashes(uri_path);
    if rest.len() == 0 {
        "index.html"@
    } else {
        rest
    }
}

/// The asset that a request names. No name means the index.
pub fn asset_path(uri_path: &str) -> (path: String)
    ensures
        path@ == asset_named(uri_path@),
{
    let chars = chars_of(uri_path);
    let total: usize = chars.len();
    let mut from: usize = 0;
    assert(chars@.skip(0) =~= chars@);
    while from < total && chars[from] == '/'
        invariant
            from <= total,
            total == chars@.len(),
            without_slashes(chars@) == without_slashes(chars@.skip(from as int)),
        decreases total - from,
    {
        assert(chars@.skip(from as int).skip(1) =~= chars@.skip(from + 1));
        from += 1;
    }
    assert(chars@.skip(from as int) =~= chars@.subrange(from as int, total as int));
    if from == total {
        assert(chars@.skip(from as int).len() == 0);
        "index.html".to_owned()
    } else {
        assert(chars@.skip(from as int)[0] == chars@[from as int]);
        slice_text(&chars, from, total)
    }
}

/// What a request for a page is answered with.
#[derive(Debug)]
pub enum Answer {
    /// An embedded file, with its media type. The assets are versioned with the binary, so nothing
    /// is to be cached across runs.
    File { path: String, content_type: String },
    /// A note for whoever develops the frontend.
    DevNote(&'static str),
    /// The page that stands in for a frontend that was not built.
    Fallback(&'static str),
}

pub enum AnswerModel {
    File { path: Seq<char>, content_type: Seq<char> },
    DevNote(Seq<char>),
    Fallback(Seq<char>),
}

impl View for Answer {
    type V = AnswerModel;

    open spec fn view(&self) -> AnswerModel {
        match self {
            Answer::File { path, content_type } => AnswerModel::File {
                path: path@,
                content_type: content_type@,
            },
            Answer::DevNote(text) => AnswerModel::DevNote(text@),
            Answer::Fallback(page) => AnswerModel::Fallback(page@),
        }
    }
}

/// What a request for a path is answered with. Unknown paths get the index, so that client-side
/// routing works on a refresh.
pub open spec fn answer_for(path: Seq<char>, embedded: bool, has_index: bool, dev: bool) -> AnswerModel {
    if embedded {
        AnswerModel::File { path, content_type: guessed_type(path) }
    } else if has_index {
        AnswerModel::File { path: "index.html"@, content_type: guessed_type("index.html"@) }
    } else if dev {
        AnswerModel::DevNote(
            "Dev mode: run `npm --prefix web run dev` and use the Vite URL instead."@,
        )
    } else {
        AnswerModel::Fallback(FALLBACK_HTML@)
    }
}

/// An embedded file, with its media type.
pub fn file_response(path: &str) -> (answer: Answer)
    ensures
        answer@ == (AnswerModel::File { path: path@, content_type: guessed_type(path@) }),
{
    Answer::File { path: path.to_owned(), content_type: guess_type(path) }
}

/// What a request for a path is answered with.
pub fn serve(path: &str, embedded: bool, has_index: bool, dev: bool) -> (answer: Answer)
    ensures
        answer@ == answer_for(path@, embedded, has_index, dev),
{
    if embedded {
        file_response(path)
    } else if has_index {
        file_response("index.html")
    } else if dev {
        Answer::DevNote("Dev mode: run `npm --prefix web run dev` and use the Vite URL instead.")
    } else {
        Answer::Fallback(FALLBACK_HTML)
    }
}

/// Served when the binary was built without the frontend assets.
pub const FALLBACK_HTML: &'static str = r#"<!doctype html>
<html lang="en">
<head>
<meta charset="utf-8">
<meta name="viewport" content="width=device-width, initial-scale=1">
<title>reclaim</title>
<style>
  :root { color-scheme: light dark; }
  body {
    font: 15px/1.6 ui-sans-serif, -apple-system, "Segoe UI", sans-serif;
    max-width: 42rem; margin: 4rem auto; padding: 0 1.5rem;
  }
  code { font-family: ui-monospace, SFMono-Regular, Menlo, monospace; font-size: .9em; }
  pre { background: rgba(128,128,128,.12); padding: 1rem; border-radius: .5rem; overflow-x: auto; }
  h1 { font-size: 1.4rem; }
</style>
</head>
<body>
  <h1>reclaim — frontend not built</h1>
  <p>
    The server is running, but this binary was compiled without the web UI assets.
    Build them once and rebuild:
  </p>
  <pre>npm --prefix web ci
npm --prefix web run build
cargo build --release</pre>
  <p>Everything works without the web UI in the meantime:</p>
  <pre>reclaim            # interactive terminal UI
reclaim scan       # plain report
reclaim clean --tier safe --yes</pre>
</body>
</html>
"#;

/// A page asks for the file that its path names without the slashes in front, and for the index
/// where nothing is left.
pub proof fn a_path_names_its_asset(uri_path: Seq<char>)
    ensures
        uri_path.len() == 0 ==> asset_named(uri_path) == "index.html"@,
        uri_path.len() > 0 && uri_path[0] == '/' ==> asset_named(uri_path) == asset_named(
            uri_path.skip(1),
        ),
        uri_path.len() > 0 && uri_path[0] != '/' ==> asset_named(uri_path) == uri_path,
{
}

/// An embedded file is served as itself, with the type that its name tells; what is not embedded is
/// the index where there is one.
pub proof fn an_embedded_file_is_served(path: Seq<char>, has_index: bool, dev: bool)
    ensures
        answer_for(path, true, has_index, dev) == (AnswerModel::File {
            path,
            content_type: guessed_type(path),
        }),
        answer_for(path, false, true, dev) == (AnswerModel::File {
            path: "index.html"@,
            content_type: guessed_type("index.html"@),
        }),
        answer_for(path, false, false, true) is DevNote,
        answer_for(path, false, false, false) == AnswerModel::Fallback(FALLBACK_HTML@),
{
}

} // verus!
