//! Options for the underlying host HTTP call.

pub mod cache;
pub mod credentials;
pub mod mode;
pub mod redirect;
pub mod referrer_policy;

use core::time::Duration;

use vstd::prelude::*;

pub use cache::Cache;
pub use credentials::Credentials;
pub use mode::Mode;
pub use redirect::Redirect;
pub use referrer_policy::ReferrerPolicy;

verus! {

/// Options attached to the host HTTP invocation.  Every field is optional;
/// an absent field leaves the host's own default in force.
#[derive(Debug, Clone)]
pub struct FetchOptions {
    /// The request's cache mode.
    pub cache: Option<Cache>,
    /// The request's credentials mode.
    pub credentials: Option<Credentials>,
    /// The request's integrity metadata.
    pub integrity: Option<String>,
    /// The request's mode.
    pub mode: Option<Mode>,
    /// The request's redirect mode.
    pub redirect: Option<Redirect>,
    /// The request's referrer.
    pub referrer: Option<String>,
    /// The request's referrer policy.
    pub referrer_policy: Option<ReferrerPolicy>,
    /// A deadline: the call is aborted with the distinguished timeout
    /// reason once this much time has passed.
    pub timeout: Option<Duration>,
}

impl Default for FetchOptions {
    /// Options that leave every choice to the host.
    fn default() -> (r: FetchOptions)
        ensures
            r.cache is None,
            r.credentials is None,
            r.integrity is None,
            r.mode is None,
            r.redirect is None,
            r.referrer is None,
            r.referrer_policy is None,
            r.timeout is None,
    {
        FetchOptions {
            cache: None,
            credentials: None,
            integrity: None,
            mode: None,
            redirect: None,
            referrer: None,
            referrer_policy: None,
            timeout: None,
        }
    }
}

impl FetchOptions {
    /// Options that leave every choice to the host.
    pub fn new() -> (r: FetchOptions)
        ensures
            r.cache is None,
            r.credentials is None,
            r.integrity is None,
            r.mode is None,
            r.redirect is None,
            r.referrer is None,
            r.referrer_policy is None,
            r.timeout is None,
    {
        Default::default()
    }

    /// Sets the request's cache mode.
    pub fn cache(self, cache: Cache) -> (r: FetchOptions)
        ensures
            r == (FetchOptions { cache: Some(cache), ..self }),
    {
        FetchOptions { cache: Some(cache), ..self }
    }

    /// Sets the request's credentials mode.
    pub fn credentials(self, credentials: Credentials) -> (r: FetchOptions)
        ensures
            r == (FetchOptions { credentials: Some(credentials), ..self }),
    {
        FetchOptions { credentials: Some(credentials), ..self }
    }

    /// Sets the request's integrity metadata.
    pub fn integrity(self, integrity: String) -> (r: FetchOptions)
        ensures
            r == (FetchOptions { integrity: Some(integrity), ..self }),
    {
        FetchOptions { integrity: Some(integrity), ..self }
    }

    /// Sets the request's mode.
    pub fn mode(self, mode: Mode) -> (r: FetchOptions)
        ensures
            r == (FetchOptions { mode: Some(mode), ..self }),
    {
        FetchOptions { mode: Some(mode), ..self }
    }

    /// Sets the request's redirect mode.
    pub fn redirect(self, redirect: Redirect) -> (r: FetchOptions)
        ensures
            r == (FetchOptions { redirect: Some(redirect), ..self }),
    {
        FetchOptions { redirect: Some(redirect), ..self }
    }

    /// Sets the request's referrer.
    pub fn referrer(self, referrer: String) -> (r: FetchOptions)
        ensures
            r == (FetchOptions { referrer: Some(referrer), ..self }),
    {
        FetchOptions { referrer: Some(referrer), ..self }
    }

    /// Sets the request's referrer policy.
    pub fn referrer_policy(self, referrer_policy: ReferrerPolicy) -> (r: FetchOptions)
        ensures
            r == (FetchOptions { referrer_policy: Some(referrer_policy), ..self }),
    {
        FetchOptions { referrer_policy: Some(referrer_policy), ..self }
    }

    /// Sets the request's timeout.
    pub fn timeout(self, timeout: Duration) -> (r: FetchOptions)
        ensures
            r == (FetchOptions { timeout: Some(timeout), ..self }),
    {
        FetchOptions { timeout: Some(timeout), ..self }
    }
}

} // verus!
