use vstd::prelude::*;

use crate::peer::PeerId;
use crate::peers::PeerMap;

verus! {

/// What a handler sees of one inbound message: who sent it, the registry as
/// it stood on arrival, the raw text, and a handle on the shared state.
pub struct Request<'a, G> {
    peer: PeerId,
    peers: &'a PeerMap,
    data: &'a String,
    global: G,
}

impl<'a, G> Request<'a, G> {
    pub closed spec fn spec_peer(&self) -> PeerId {
        self.peer
    }

    pub closed spec fn spec_peers(&self) -> &'a PeerMap {
        self.peers
    }

    pub closed spec fn spec_data(&self) -> Seq<char> {
        self.data@
    }

    pub closed spec fn spec_global(&self) -> G {
        self.global
    }

    pub fn new(peer: PeerId, peers: &'a PeerMap, data: &'a String, global: G) -> (r: Self)
        ensures
            r.spec_peer() == peer,
            r.spec_peers() == peers,
            r.spec_data() == data@,
            r.spec_global() == global,
    {
        Request { peer, peers, data, global }
    }

    /// The peer that sent the message.
    pub fn peer(&self) -> (r: PeerId)
        ensures
            r == self.spec_peer(),
    {
        self.peer
    }

    /// The registry as it stood when the message arrived.
    pub fn peers(&self) -> (r: &'a PeerMap)
        ensures
            r == self.spec_peers(),
    {
        self.peers
    }

    /// The raw text of the message.
    pub fn payload(&self) -> (r: &'a String)
        ensures
            r@ == self.spec_data(),
    {
        self.data
    }

    /// The handle on the shared state.
    pub fn shared(&self) -> (r: &G)
        ensures
            *r == self.spec_global(),
    {
        &self.global
    }
}

} // verus!
