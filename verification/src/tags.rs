//! Categories of the API's endpoints.

use vstd::prelude::*;

verus! {

/// OpenAPI Category Tags for API endpoints
#[derive(Debug, Clone, Copy, PartialEq, Eq, Structural)]
pub enum CategoryTags {
    /// General CiteSync API routes
    CiteSync,
    /// OPDS Server routes
    Opds,
}

} // verus!
