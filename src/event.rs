//! The one entity that travels over the daemon's channel.

use vstd::prelude::*;

verus! {

/// Relies on std::path::PathBuf only as an opaque value: paths are moved
/// through the library and compared, never looked into.
#[verifier::external_type_specification]
#[verifier::external_body]
pub struct ExPathBuf(std::path::PathBuf);

/// What a producer sends to the event loop.
#[derive(Debug)]
pub enum Event {
    /// A new screenshot was discovered at a path.
    NewScreenshot(std::path::PathBuf),
    /// The application should exit.
    Exit,
}

impl Event {
    /// Whether this is the terminal event.
    pub fn is_exit(&self) -> (r: bool)
        ensures
            r == (*self is Exit),
    {
        match self {
            Event::Exit => true,
            Event::NewScreenshot(_) => false,
        }
    }
}

} // verus!
