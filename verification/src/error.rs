//! The conditions that end a run without a list of links.

use vstd::prelude::*;

verus! {

/// Why no links were listed.
#[derive(Clone, Copy, PartialEq, Eq, Debug, Structural)]
pub enum LinkError {
    /// The source URL does not parse into a scheme and a host.
    MalformedUrl,
    /// The page was not fetched: the response came with this status
    /// instead of 200.
    FetchFailed { status: u16 },
    /// The page holds no link of the kinds that were asked for.
    NoLinksFound,
}

} // verus!
