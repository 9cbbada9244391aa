//! The decisions of the MCP tools: which parameters are accepted, what is
//! asked of the API and what text is handed back.
use crate::text::concat2;
use vstd::prelude::*;

pub mod analytics;
pub mod discovery;
pub mod export;
pub mod indexing;
pub mod inspection;
pub mod properties;
pub mod sitemaps;

verus! {

/// The text of a tool whose parameters were refused.
pub fn error_text(e: &str) -> (r: String)
    ensures
        r@ == "Error: "@ + e@,
{
    concat2("Error: ", e)
}

/// The text of an option as a string slice.
pub fn opt_as_str(o: &Option<String>) -> (r: Option<&str>)
    ensures
        match o {
            Some(s) => r is Some && r->0@ == s@,
            None => r is None,
        },
{
    match o {
        Some(s) => Some(s.as_str()),
        None => None,
    }
}

} // verus!
