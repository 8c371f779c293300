//! The data that the node's replies carry.
use vstd::prelude::*;

use crate::addr::MultiAddr;

pub mod swarm;

verus! {

/// What the node says of a peer (or of itself).
#[derive(Debug, Clone)]
pub struct PeerInfo {
    pub id: String,
    pub public_key: String,
    pub addresses: Vec<MultiAddr>,
    pub agent_version: String,
    pub protocol_version: String,
}

/// The version of the node's software.
#[derive(Debug, Clone, PartialEq, Eq)]
pub struct Version {
    pub version: String,
    pub commit: String,
    pub repo: String,
}

} // verus!
