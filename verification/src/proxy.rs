//! The Minecraft proxy catalog.

use crate::minecraft::BuildSet;
use crate::time::Timestamp;
use vstd::prelude::*;

verus! {

/// One Velocity release line and its builds.
#[derive(Debug, Clone)]
pub struct VelocityVersion {
    /// The Velocity version identifier, for example `3.4.0-SNAPSHOT`.
    pub id: String,
    /// Minimum Java major version this line requires.
    pub java: u8,
    /// Builds published for this line.
    pub builds: BuildSet,
}

/// The `minecraft-proxy` catalog document.
#[derive(Debug, Clone)]
pub struct ProxyCatalog {
    /// Schema version of this document.
    pub schema: u32,
    /// When this document was built from upstream.
    pub updated_at: Timestamp,
    /// Velocity release lines, newest first.
    pub velocity: Vec<VelocityVersion>,
    /// Successful BungeeCord build numbers, newest first.
    pub bungeecord: Vec<u16>,
}

} // verus!
