//! The local web UI, as far as it decides: who is let in, what is offered, what is removed.
//!
//! This server can delete files, so it listens on the loopback address only, every request for data
//! has to present a token minted at startup, and a request from another site is refused.
use vstd::prelude::*;
use vstd::string::*;
use crate::platform::Os;
use crate::text::{decimal, decimal_text};

pub mod api;
pub mod assets;
pub mod state;

verus! {

#[derive(Debug, Clone, Copy, PartialEq, Eq, Structural)]
pub struct ServeOptions {
    /// 0 picks a free port.
    pub port: u16,
    pub open_browser: bool,
    /// Serve from a dev server rather than the embedded assets.
    pub dev: bool,
}

impl Default for ServeOptions {
    fn default() -> (o: ServeOptions)
        ensures
            o == (ServeOptions { port: 0, open_browser: true, dev: false }),
    {
        ServeOptions { port: 0, open_browser: true, dev: false }
    }
}

/// The link to the UI, with its token.
pub open spec fn link(port: u16, token: Seq<char>) -> Seq<char> {
    "http://127.0.0.1:"@ + decimal(port as nat) + "/?t="@ + token
}

/// The link to the UI, with its token.
pub fn url(port: u16, token: &str) -> (s: String)
    ensures
        s@ == link(port, token@),
{
    "http://127.0.0.1:".to_owned().concat(decimal_text(port as u128).as_str()).concat(
        "/?t=",
    ).concat(token)
}

/// The program that opens a link in a browser, where one is known.
pub fn opener(os: Os) -> (program: Option<&'static str>)
    ensures
        match os {
            Os::MacOs => program matches Some(p) && p@ == "open"@,
            Os::Linux => program matches Some(p) && p@ == "xdg-open"@,
            Os::Other => program is None,
        },
{
    match os {
        Os::MacOs => Some("open"),
        Os::Linux => Some("xdg-open"),
        Os::Other => None,
    }
}

} // verus!
