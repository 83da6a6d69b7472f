//! The incoming events the engine decides on.
//!
//! Only the parts of an event that matching reads are modelled: the
//! repository identifier and, for a commit, the extractable text fragments.
//! The host converts the wire-format events of the stream into these values.

use vstd::prelude::*;

verus! {

/// A change to a repository's content, carrying the text fragments that
/// keyword matching inspects (e.g. post bodies).
#[derive(Clone, Debug)]
pub struct Commit {
    /// Identifier of the repository the commit belongs to.
    pub repo: String,
    /// The text fragments extracted from the commit's records.
    pub texts: Vec<String>,
}

impl Commit {
    /// The text fragments of the commit, in order.
    pub fn get_post_text(&self) -> (r: &Vec<String>)
        ensures
            r@ == self.texts@,
    {
        &self.texts
    }
}

/// A notice that the handle of a repository changed.
#[derive(Clone, Debug)]
pub struct Handle {
    /// Identifier of the repository whose handle changed.
    pub did: String,
}

/// The variants of an incoming event that matter to matching.
#[derive(Clone, Debug)]
pub enum Payload {
    /// A change to a repository's content.
    Commit(Commit),
    /// A handle-change notice for a repository.
    Handle(Handle),
    /// Any other stream event (connection or account lifecycle notices).
    Other,
}

/// One incoming event from the stream.
#[derive(Clone, Debug)]
pub struct Event {
    /// What the event reports.
    pub payload: Payload,
}

} // verus!
