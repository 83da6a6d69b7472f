//! An event-filtering engine for a stream of repository events.
//!
//! A [`Filters`](registry::Filters) value holds an ordered list of named
//! [`Filter`](filter::Filter) rules.  Each rule combines an optional
//! subscription list (repository identifiers and, before initialization,
//! human-readable handles) with optional include/exclude keyword lists, and
//! decides per incoming event whether the event matches the rule.

pub mod directory;
pub mod errors;
pub mod events;
pub mod filter;
pub mod keywords;
pub mod registry;
pub mod subscribes;
pub mod text;

pub use directory::{Client, DirectoryEntry};
pub use errors::FilterError;
pub use events::{Commit, Event, Handle, Payload};
pub use filter::Filter;
pub use keywords::Keywords;
pub use registry::Filters;
pub use subscribes::Subscribes;
