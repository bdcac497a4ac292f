//! The error taxonomy of the middleware.
//!
//! Every fallible operation of the library reports one of these causes.
//! No failure may silently lose a height: a caller that receives an error
//! leaves the height unprocessed, where the gap scanner or the audit pass
//! finds it again.

use vstd::prelude::*;

verus! {

/// Why an operation of the middleware failed.
#[derive(Clone, Copy, Debug, PartialEq, Eq, Structural)]
pub enum MiddlewareError {
    /// The node was unreachable, timed out, or answered with a non-2xx
    /// status. The caller retries on its next cycle.
    Network,
    /// The node's payload was malformed. The height is left for a later
    /// audit pass; ingestion continues with subsequent heights.
    Parse,
    /// A store connection was lost or a write failed. Routed to the
    /// recovery policy.
    Store,
    /// The node reports a different chain for heights already stored.
    /// Not fatal: it triggers rollback and re-ingestion.
    Consistency,
    /// Required startup configuration is missing. Fatal to the process.
    Config,
}

impl MiddlewareError {
    /// A short diagnostic word for logs and API answers.
    pub fn describe(&self) -> (r: &'static str)
        ensures
            r@ == self.describe_spec(),
    {
        match self {
            MiddlewareError::Network => "network error",
            MiddlewareError::Parse => "parse error",
            MiddlewareError::Store => "store error",
            MiddlewareError::Consistency => "consistency error",
            MiddlewareError::Config => "configuration error",
        }
    }

    pub open spec fn describe_spec(&self) -> Seq<char> {
        match self {
            MiddlewareError::Network => "network error"@,
            MiddlewareError::Parse => "parse error"@,
            MiddlewareError::Store => "store error"@,
            MiddlewareError::Consistency => "consistency error"@,
            MiddlewareError::Config => "configuration error"@,
        }
    }
}

} // verus!
