//! The `major.minor.patch` language runtime catalogs.

use crate::catalog::CatalogId;
use crate::time::Timestamp;
use crate::version::Version;
use vstd::prelude::*;

verus! {

/// A language runtime catalog document: Go, Node, Python or Rust.
#[derive(Debug, Clone)]
pub struct RuntimeCatalog {
    /// Schema version of this document.
    pub schema: u32,
    /// Which runtime this document describes.
    pub runtime: CatalogId,
    /// When this document was built from upstream.
    pub updated_at: Timestamp,
    /// Releases, newest first.
    pub versions: Vec<Version>,
}

impl RuntimeCatalog {
    /// The newest release.
    pub fn latest(&self) -> (res: Option<Version>)
        ensures
            match res {
                Some(v) => self.versions@.len() > 0 && v == self.versions@[0],
                None => self.versions@.len() == 0,
            },
    {
        if self.versions.len() == 0 {
            None
        } else {
            Some(self.versions[0])
        }
    }
}

} // verus!
