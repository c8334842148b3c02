//! Client configuration and the scheme of a target.
use vstd::prelude::*;

verus! {

/// The body-size bound used when none is configured.
pub const DEFAULT_MAX_BODY_SIZE: usize = 8192;

/// Supported URI schemas.
#[derive(Debug, Clone, Copy, PartialEq, Eq, Structural)]
pub enum Schema {
    /// HTTP protocol
    Http,
    /// HTTPS protocol
    Https,
}

/// Settings for a client: how many connections to open to the one host and
/// how large a body of known length may be.
#[derive(Debug, Clone, Copy, PartialEq, Eq, Structural)]
pub struct ClientBuilder {
    /// how many connections to open to the host
    pub max_connections: usize,
    /// the largest body of known length that is read into memory
    pub max_body_size: Option<usize>,
}

impl ClientBuilder {
    /// One connection and the default body-size bound.
    pub fn default() -> (r: Self)
        ensures
            r.max_connections == 1,
            r.max_body_size is None,
    {
        ClientBuilder { max_connections: 1, max_body_size: None }
    }

    /// The bound on bodies of known length, and on the streaming channel.
    pub open spec fn spec_body_limit(self) -> usize {
        match self.max_body_size {
            Some(n) => n,
            None => DEFAULT_MAX_BODY_SIZE,
        }
    }

    /// The bound on bodies of known length, and on the streaming channel.
    pub fn body_limit(&self) -> (r: usize)
        ensures
            r == self.spec_body_limit(),
    {
        match self.max_body_size {
            Some(n) => n,
            None => DEFAULT_MAX_BODY_SIZE,
        }
    }
}

} // verus!
