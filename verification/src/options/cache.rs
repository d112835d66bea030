use vstd::prelude::*;

verus! {

/// The request's cache mode, handed through to the host HTTP facility.
#[derive(Debug, Clone, Copy, PartialEq, Eq, Structural)]
pub enum Cache {
    /// The host consults its HTTP cache and revalidates stale entries.
    Default,
    /// The host behaves as if there were no HTTP cache at all.
    NoStore,
    /// The host bypasses the cache on the way out and updates it with the
    /// response.
    Reload,
    /// The host sends a conditional request when a cached entry exists and
    /// updates the cache with the response.
    NoCache,
    /// The host uses any cached response regardless of staleness, going to
    /// the network only on a miss.
    ForceCache,
    /// The host uses any cached response regardless of staleness and
    /// reports an error on a miss.
    OnlyIfCached,
}

impl Default for Cache {
    /// The host's ordinary cache behaviour.
    fn default() -> (r: Cache)
        ensures
            r == Cache::Default,
    {
        Cache::Default
    }
}

} // verus!
