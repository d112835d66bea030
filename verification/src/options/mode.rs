use vstd::prelude::*;

verus! {

/// The request's mode, handed through to the host HTTP facility.
#[derive(Debug, Clone, Copy, PartialEq, Eq, Structural)]
pub enum Mode {
    /// Only same-origin requests are allowed; anything else is a network
    /// error.
    SameOrigin,
    /// A CORS request: the destination must speak the CORS protocol.
    Cors,
    /// Only CORS-safelisted methods and headers, with an opaque filtered
    /// response.
    NoCors,
    /// The special mode the host uses when navigating between documents.
    Navigate,
}

impl Default for Mode {
    /// Only CORS-safelisted methods and headers.
    fn default() -> (r: Mode)
        ensures
            r == Mode::NoCors,
    {
        Mode::NoCors
    }
}

} // verus!
