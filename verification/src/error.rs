use vstd::prelude::*;

verus! {

/// Failure taxonomy of the client core.
///
/// Transport failures are fatal for the session; `CommandRejected` keeps the
/// raw server line for diagnostics; the parse variants name the specific
/// reason a reply could not be used; `NotSelectable` is raised locally, before
/// any network round trip; `UnexpectedReply` records an SMTP reply code that
/// differed from the one the protocol step demands.
#[derive(Clone, Debug)]
pub enum MailError {
    Transport,
    ConnectionClosed,
    Auth,
    CommandRejected(String),
    Parse,
    MalformedBodyStructure,
    NoTextPart,
    NotSelectable,
    NoSelection,
    UnexpectedReply { expected: u32, actual: u32 },
}

} // verus!
