//! The peer context: who this node is, which peers it is connected to, and
//! how many it wants.

use crate::lists::{contains, copy_of, excluding, lemma_excluding, without};
use vstd::prelude::*;

verus! {

/// What became of a peer that asked to be connected.
#[derive(PartialEq, Eq, Structural, Clone, Copy, Debug)]
pub enum ConnectOutcome {
    /// The peer is now connected.
    Connected,
    /// The peer was connected already.
    AlreadyConnected,
    /// As many peers are connected as the node takes.
    Full,
}

/// The registry of peers and the policy on their number.
#[derive(Debug)]
pub struct PeerContext {
    local: u64,
    mempool_interval: u8,
    min_peers: u16,
    max_peers: u16,
    is_bootnode: bool,
    bootnodes: Vec<u64>,
    connected: Vec<u64>,
}

impl View for PeerContext {
    type V = Seq<u64>;

    /// The connected peers, in the order in which they connected.
    closed spec fn view(&self) -> Seq<u64> {
        self.connected@
    }
}

impl PeerContext {
    /// The fewest peers that the node wants.
    pub closed spec fn wanted(&self) -> u16 {
        self.min_peers
    }

    /// The most peers that the node takes.
    pub closed spec fn allowed(&self) -> u16 {
        self.max_peers
    }

    /// The peers that the node turns to first.
    pub closed spec fn seeds(&self) -> Seq<u64> {
        self.bootnodes@
    }

    /// The identifier of this node.
    pub closed spec fn identity(&self) -> u64 {
        self.local
    }

    /// Seconds between two rounds of housekeeping on the pool.
    pub closed spec fn interval(&self) -> u8 {
        self.mempool_interval
    }

    /// Whether this node is one that others turn to first.
    pub closed spec fn seed(&self) -> bool {
        self.is_bootnode
    }

    /// No peer is connected twice, and no more peers than the node takes.
    pub open spec fn wf(&self) -> bool {
        &&& self@.no_duplicates()
        &&& self@.len() <= self.allowed()
    }

    /// A context without connected peers.
    pub fn new(
        local: u64,
        mempool_interval: u8,
        min_peers: u16,
        max_peers: u16,
        is_bootnode: bool,
        bootnodes: Vec<u64>,
    ) -> (context: PeerContext)
        ensures
            context.wf(),
            context@ == Seq::<u64>::empty(),
            context.wanted() == min_peers,
            context.allowed() == max_peers,
            context.seeds() == bootnodes@,
            context.identity() == local,
            context.interval() == mempool_interval,
            context.seed() == is_bootnode,
    {
        PeerContext {
            local,
            mempool_interval,
            min_peers,
            max_peers,
            is_bootnode,
            bootnodes,
            connected: Vec::new(),
        }
    }

    /// The identifier of this node.
    pub fn local(&self) -> (id: u64)
        ensures
            id == self.identity(),
    {
        self.local
    }

    /// Seconds between two rounds of housekeeping on the pool.
    pub fn mempool_interval(&self) -> (seconds: u8)
        ensures
            seconds == self.interval(),
    {
        self.mempool_interval
    }

    /// Whether this node is one that others turn to first.
    pub fn is_bootnode(&self) -> (seed: bool)
        ensures
            seed == self.seed(),
    {
        self.is_bootnode
    }

    /// The peers that the node turns to first.
    pub fn bootnodes(&self) -> (list: &Vec<u64>)
        ensures
            list@ == self.seeds(),
    {
        &self.bootnodes
    }

    /// The number of connected peers.
    pub fn connected_count(&self) -> (count: usize)
        ensures
            count == self@.len(),
    {
        self.connected.len()
    }

    /// Whether `peer` is connected.
    pub fn is_connected(&self, peer: u64) -> (found: bool)
        ensures
            found == self@.contains(peer),
    {
        contains(&self.connected, peer)
    }

    /// Whether fewer peers are connected than the node wants.
    pub fn needs_peers(&self) -> (needed: bool)
        ensures
            needed == (self@.len() < self.wanted()),
    {
        self.connected.len() < self.min_peers as usize
    }

    /// Whether the node takes another peer.
    pub fn has_room(&self) -> (room: bool)
        ensures
            room == (self@.len() < self.allowed()),
    {
        self.connected.len() < self.max_peers as usize
    }

    /// Connects `peer`, unless it is connected or the node is full.
    pub fn connect(&mut self, peer: u64) -> (outcome: ConnectOutcome)
        requires
            old(self).wf(),
        ensures
            final(self).wf(),
            final(self).wanted() == old(self).wanted(),
            final(self).allowed() == old(self).allowed(),
            final(self).seeds() == old(self).seeds(),
            final(self).identity() == old(self).identity(),
            final(self).interval() == old(self).interval(),
            final(self).seed() == old(self).seed(),
            outcome == (if old(self)@.contains(peer) {
                ConnectOutcome::AlreadyConnected
            } else if old(self)@.len() >= old(self).allowed() {
                ConnectOutcome::Full
            } else {
                ConnectOutcome::Connected
            }),
            final(self)@ == (if outcome is Connected {
                old(self)@.push(peer)
            } else {
                old(self)@
            }),
    {
        if contains(&self.connected, peer) {
            ConnectOutcome::AlreadyConnected
        } else if self.connected.len() >= self.max_peers as usize {
            ConnectOutcome::Full
        } else {
            self.connected.push(peer);
            assert forall|i: int, j: int|
                0 <= i < self@.len() && 0 <= j < self@.len() && i != j implies self@[i]
                != self@[j] by {
                if i < old(self)@.len() && j < old(self)@.len() {
                    assert(old(self)@[i] != old(self)@[j]);
                } else if i < old(self)@.len() {
                    assert(old(self)@.contains(old(self)@[i]));
                } else {
                    assert(old(self)@.contains(old(self)@[j]));
                }
            }
            ConnectOutcome::Connected
        }
    }

    /// Disconnects `peer`; says whether it was connected.
    pub fn disconnect(&mut self, peer: u64) -> (removed: bool)
        requires
            old(self).wf(),
        ensures
            final(self).wf(),
            final(self).wanted() == old(self).wanted(),
            final(self).allowed() == old(self).allowed(),
            final(self).seeds() == old(self).seeds(),
            final(self).identity() == old(self).identity(),
            final(self).interval() == old(self).interval(),
            final(self).seed() == old(self).seed(),
            removed == old(self)@.contains(peer),
            final(self)@ == excluding(old(self)@, peer),
            !final(self)@.contains(peer),
            removed ==> final(self)@.len() == old(self)@.len() - 1,
    {
        proof {
            lemma_excluding(self@, peer);
        }
        let removed = contains(&self.connected, peer);
        if removed {
            self.connected = without(&self.connected, peer);
        }
        removed
    }

    /// The peers to send to what came from `source`: every connected peer
    /// but `source`.
    pub fn broadcast_targets(&self, source: u64) -> (targets: Vec<u64>)
        ensures
            targets@ == excluding(self@, source),
    {
        without(&self.connected, source)
    }

    /// The connected peers.
    pub fn connected_peers(&self) -> (peers: Vec<u64>)
        ensures
            peers@ == self@,
    {
        copy_of(&self.connected)
    }
}

} // verus!
