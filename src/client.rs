//! A peer's client: its identity and the ICE servers its connections use.
use vstd::prelude::*;

verus! {

/// The STUN server that a default client uses.
pub const DEFAULT_ICE_SERVER: &'static str = "stun:stun.l.google.com:19302";

/// A peer's client: its peer id (the value of a UUID) and the ICE servers of its
/// connections.
pub struct P2PClient {
    ice_servers: Vec<String>,
    id: u128,
}

impl P2PClient {
    /// The ICE servers, in the order given.
    pub closed spec fn servers(&self) -> Seq<String> {
        self.ice_servers@
    }

    /// The client's peer id.
    pub closed spec fn peer_id(&self) -> u128 {
        self.id
    }

    /// A client with the given ICE servers and peer id (a fresh random UUID's value,
    /// drawn by the caller).
    pub fn new(ice_servers: Vec<String>, id: u128) -> (r: P2PClient)
        ensures
            r.servers() == ice_servers@,
            r.peer_id() == id,
    {
        P2PClient { ice_servers, id }
    }

    /// A client whose one ICE server is `DEFAULT_ICE_SERVER`.
    pub fn with_default_server(id: u128) -> (r: P2PClient)
        ensures
            r.servers().len() == 1,
            r.servers()[0]@ == DEFAULT_ICE_SERVER@,
            r.peer_id() == id,
    {
        P2PClient::new(vec![DEFAULT_ICE_SERVER.to_owned()], id)
    }

    /// The ICE servers, in the order given.
    pub fn ice_servers(&self) -> (r: &Vec<String>)
        ensures
            r@ == self.servers(),
    {
        &self.ice_servers
    }

    /// The client's peer id, as the value of its UUID.
    pub fn id(&self) -> (r: u128)
        ensures
            r == self.peer_id(),
    {
        self.id
    }
}

} // verus!
