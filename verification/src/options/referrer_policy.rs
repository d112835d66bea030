use vstd::prelude::*;

verus! {

/// The request's referrer policy, handed through to the host HTTP
/// facility.
#[derive(Debug, Clone, Copy, PartialEq, Eq, Structural)]
pub enum ReferrerPolicy {
    /// No policy of its own: the host falls back to a policy defined
    /// elsewhere, or to its default.
    Unset,
    /// No referrer information is sent at all.
    NoReferrer,
    /// The full referrer URL is sent, except towards less trustworthy
    /// destinations.
    NoReferrerWhenDowngrade,
    /// Only the origin of the referrer URL is sent.
    Origin,
    /// The full referrer URL on same-origin requests; only the origin
    /// across origins.
    OriginWhenCrossOrigin,
    /// The full referrer URL is always sent.
    UnsafeUrl,
    /// The full referrer URL, but only on same-origin requests.
    SameOrigin,
    /// Only the origin, and nothing towards less trustworthy
    /// destinations.
    StrictOrigin,
    /// The full referrer URL on same-origin requests, only the origin
    /// across origins, and nothing towards less trustworthy destinations.
    StrictOriginWhenCrossOrigin,
}

impl Default for ReferrerPolicy {
    /// The full referrer URL on same-origin requests, only the origin
    /// across origins, and nothing towards less trustworthy destinations.
    fn default() -> (r: ReferrerPolicy)
        ensures
            r == ReferrerPolicy::StrictOriginWhenCrossOrigin,
    {
        ReferrerPolicy::StrictOriginWhenCrossOrigin
    }
}

} // verus!
