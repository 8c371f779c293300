//! The request for the version of a node's software, from a base URL.
use vstd::prelude::*;
use vstd::string::*;

pub use crate::data::Version;

verus! {

/// A pending request for the version of the node whose API has base URL
/// `base`: it asks for `<base>version`.
pub struct VersionFuture {
    pub url: String,
}

impl VersionFuture {
    /// The request for `<base>version`.
    pub fn new(base: &str) -> (f: VersionFuture)
        ensures
            f.url@ == base@ + "version"@,
    {
        let mut url = base.to_string();
        url.append("version");
        VersionFuture { url }
    }
}

} // verus!
