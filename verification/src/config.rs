//! Configuration of the CiteSync client.

use vstd::prelude::*;

use crate::text::owned;

verus! {

/// Configuration of the CiteSync client.
#[derive(Debug)]
pub struct CiteSyncClientConfig {
    /// Base URL of the CiteSync Server
    pub api_url: String,
    /// List of bibtex files to sync
    pub bib_files: Vec<String>,
}

impl Default for CiteSyncClientConfig {
    /// The local server (`http://127.0.0.1:3000`) and no files.
    fn default() -> (r: Self)
        ensures
            r.api_url@ == "http://127.0.0.1:3000"@,
            r.bib_files@.len() == 0,
    {
        CiteSyncClientConfig { api_url: owned("http://127.0.0.1:3000"), bib_files: Vec::new() }
    }
}

} // verus!
