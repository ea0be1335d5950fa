//! The A2A extension's names: its URI, its description, and the `metadata` key a
//! promise record rides under.
//!
//! The two blocks themselves, the AgentCard extension declaration and the Task
//! metadata block, are JSON written by the program from these names and the
//! record. They are pure data: nothing here opens a socket, and getting a block to
//! an A2A peer is the client's job.

use vstd::prelude::*;
use crate::text::concat;

verus! {

/// The extension URI. A breaking change must use a new URI, so it lives here once.
pub const URI: &'static str = "https://github.com/azigler/pinki/ext/promise/v0";

/// The `description` the AgentCard declaration carries, verbatim.
pub const DESCRIPTION: &'static str = "Promises made by this card's subject: deadline, evidence on satisfaction, reason on abandonment.";

/// The `metadata` key a promise record rides under: the URI, then `/promise`.
pub fn metadata_key() -> (k: String)
    ensures
        k@ == URI@ + "/promise"@,
{
    concat(URI, "/promise")
}

} // verus!
