//! Per-catalog freshness, as the status route reports it.

use crate::catalog::CatalogId;
use crate::time::Timestamp;
use vstd::prelude::*;

verus! {

/// How one catalog stands: whether it is held, whether its last refresh failed, and when
/// the next one is due.
#[derive(Debug, Clone)]
pub struct CatalogStatus {
    pub id: Option<CatalogId>,
    pub resolved: bool,
    pub stale: bool,
    pub last_success: Option<Timestamp>,
    pub last_failure: Option<Timestamp>,
    pub last_error: Option<String>,
    pub consecutive_failures: u32,
    pub next_attempt: Option<Timestamp>,
}

impl Default for CatalogStatus {
    fn default() -> (s: Self)
        ensures
            s.id is None,
            !s.resolved,
            !s.stale,
            s.last_success is None,
            s.last_failure is None,
            s.last_error is None,
            s.consecutive_failures == 0,
            s.next_attempt is None,
    {
        CatalogStatus {
            id: None,
            resolved: false,
            stale: false,
            last_success: None,
            last_failure: None,
            last_error: None,
            consecutive_failures: 0,
            next_attempt: None,
        }
    }
}

/// The status report: every configured catalog's status.
#[derive(Debug, Clone)]
pub struct StatusReport {
    pub schema: u32,
    pub version: String,
    pub catalogs: Vec<CatalogStatus>,
}

} // verus!
