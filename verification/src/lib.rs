//! Release metadata for Minecraft servers, proxies and language runtimes, gathered into
//! a small set of catalogs that carry version identifiers only.

pub mod catalog;
pub mod config;
pub mod digest;
pub mod document;
pub mod text;
pub mod version;
pub mod order;
pub mod identifiers;
pub mod java;
pub mod laws;
pub mod minecraft;
pub mod proxy;
pub mod resolve;
pub mod runtime;
pub mod schedule;
pub mod service;
pub mod status;
pub mod time;

use vstd::prelude::*;

verus! {

/// Version of the wire format of the catalog documents.
pub const SCHEMA_VERSION: u32 = 1;

} // verus!
