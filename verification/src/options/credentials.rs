use vstd::prelude::*;

verus! {

/// The request's credentials mode, handed through to the host HTTP
/// facility.
#[derive(Debug, Clone, Copy, PartialEq, Eq, Structural)]
pub enum Credentials {
    /// Credentials are left out of the request and ignored in the
    /// response.
    Omit,
    /// Credentials travel only on same-origin requests.
    SameOrigin,
    /// Credentials always travel with the request and responses may set
    /// them.
    Include,
}

impl Default for Credentials {
    /// Credentials travel only on same-origin requests.
    fn default() -> (r: Credentials)
        ensures
            r == Credentials::SameOrigin,
    {
        Credentials::SameOrigin
    }
}

} // verus!
