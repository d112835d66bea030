use vstd::prelude::*;

verus! {

/// The request's redirect mode, handed through to the host HTTP facility.
#[derive(Debug, Clone, Copy, PartialEq, Eq, Structural)]
pub enum Redirect {
    /// The host follows redirects on its own.
    Follow,
    /// A redirect is reported as a network error.
    Error,
    /// The host hands back an opaque-redirect filtered response so that a
    /// service worker may replay it.
    Manual,
}

impl Default for Redirect {
    /// The host follows redirects on its own.
    fn default() -> (r: Redirect)
        ensures
            r == Redirect::Follow,
    {
        Redirect::Follow
    }
}

} // verus!
