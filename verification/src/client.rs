//! The client handle: a base URL and optional fetch options.
//!
//! The handle itself is plain data — readiness is immediate and each call
//! owns its own buffers — so cloning it is cheap and carries no connection
//! state.  The transport glue that submits the HTTP call lives with the
//! host bindings; the handle's job is to carry the configuration that the
//! request builder reads.

use vstd::prelude::*;

use crate::options::FetchOptions;

verus! {

/// A gRPC-Web client handle: the base URL that request paths are appended
/// to, and the options attached to every fetch.
#[derive(Debug, Clone)]
pub struct Client {
    base_url: String,
    options: Option<FetchOptions>,
}

impl Client {
    /// The base URL that request paths are appended to.
    pub closed spec fn spec_base_url(self) -> Seq<char> {
        self.base_url@
    }

    /// The options attached to every fetch, if any were set.
    pub closed spec fn spec_options(self) -> Option<FetchOptions> {
        self.options
    }

    /// A client without options.
    pub fn new(base_url: String) -> (r: Client)
        ensures
            r.spec_base_url() == base_url@,
            r.spec_options() is None,
    {
        Client { base_url, options: None }
    }

    /// A client with options.
    pub fn new_with_options(base_url: String, options: FetchOptions) -> (r: Client)
        ensures
            r.spec_base_url() == base_url@,
            r.spec_options() == Some(options),
    {
        Client { base_url, options: Some(options) }
    }

    /// Replaces the client's options.
    pub fn with_options(&mut self, options: FetchOptions)
        ensures
            final(self).spec_base_url() == old(self).spec_base_url(),
            final(self).spec_options() == Some(options),
    {
        self.options = Some(options);
    }

    /// The base URL that request paths are appended to.
    pub fn base_url(&self) -> (r: &String)
        ensures
            r@ == self.spec_base_url(),
    {
        &self.base_url
    }

    /// The options attached to every fetch, if any were set.
    pub fn options(&self) -> (r: &Option<FetchOptions>)
        ensures
            *r == self.spec_options(),
    {
        &self.options
    }
}

} // verus!
