//! The data of the node's swarm.
use vstd::prelude::*;

use crate::addr::{MultiAddr, Segment};
use crate::deserialize_helpers::{keys_distinct, peer_views};

verus! {

/// A list of multiaddresses.
#[derive(Debug, Clone)]
pub struct Addresses {
    pub addresses: Vec<MultiAddr>,
}

/// The addresses of each known peer, by the peer's id. No peer id occurs
/// twice.
#[derive(Debug)]
pub struct PeerAddresses {
    peers: Vec<(String, Vec<MultiAddr>)>,
}

impl View for PeerAddresses {
    type V = Seq<(Seq<char>, Seq<Seq<Segment>>)>;

    /// Each peer's id and the segments of its addresses, in order.
    closed spec fn view(&self) -> Seq<(Seq<char>, Seq<Seq<Segment>>)> {
        peer_views(self.peers@)
    }
}

impl PeerAddresses {
    /// No peer id occurs twice.
    #[verifier::type_invariant]
    spec fn wf(self) -> bool {
        keys_distinct(peer_views(self.peers@))
    }

    /// The addresses of the given peers, whose ids are distinct.
    pub fn new(peers: Vec<(String, Vec<MultiAddr>)>) -> (p: PeerAddresses)
        requires
            keys_distinct(peer_views(peers@)),
        ensures
            p@ == peer_views(peers@),
    {
        PeerAddresses { peers }
    }

    /// The peers and their addresses; no peer id occurs twice.
    pub fn peers(&self) -> (r: &Vec<(String, Vec<MultiAddr>)>)
        ensures
            peer_views(r@) == self@,
            keys_distinct(self@),
    {
        proof { use_type_invariant(self); }
        &self.peers
    }
}

/// The node's reply to a request to connect to or disconnect from a peer:
/// the lines of its report, or the message of its error.
#[derive(Debug, Clone, PartialEq, Eq)]
pub enum ConnectResultData {
    Strings(Vec<String>),
    Message(String),
}

impl From<ConnectResultData> for Result<Vec<String>, String> {
    /// The report as `Ok`, the message of an error as `Err`.
    fn from(data: ConnectResultData) -> (res: Result<Vec<String>, String>)
        ensures
            match data {
                ConnectResultData::Strings(lines) => res == Ok::<Vec<String>, String>(lines),
                ConnectResultData::Message(message) => res == Err::<Vec<String>, String>(message),
            },
    {
        match data {
            ConnectResultData::Strings(lines) => Ok(lines),
            ConnectResultData::Message(message) => Err(message),
        }
    }
}

impl vstd::std_specs::convert::FromSpecImpl<ConnectResultData> for Result<Vec<String>, String> {
    open spec fn obeys_from_spec() -> bool {
        true
    }

    open spec fn from_spec(data: ConnectResultData) -> Result<Vec<String>, String> {
        match data {
            ConnectResultData::Strings(lines) => Ok(lines),
            ConnectResultData::Message(message) => Err(message),
        }
    }
}

/// A report is read as `Ok` with every one of its lines, unchanged and in
/// order, whatever the lines say; an error's message is read as `Err`.
pub proof fn lemma_connect_result(lines: Vec<String>, message: String)
    ensures
        <Result<Vec<String>, String> as vstd::std_specs::convert::FromSpec<ConnectResultData>>::from_spec(
            ConnectResultData::Strings(lines),
        ) == Ok::<Vec<String>, String>(lines),
        <Result<Vec<String>, String> as vstd::std_specs::convert::FromSpec<ConnectResultData>>::from_spec(
            ConnectResultData::Message(message),
        ) == Err::<Vec<String>, String>(message),
{
}

} // verus!
