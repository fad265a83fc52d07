//! The sync coordinator: one synchronisation per connected peer, made when
//! the peer connects and discarded when it disconnects or misbehaves.

use crate::ledger::Ledger;
use crate::node::{pool_after_fork, Node};
use crate::sync::{
    advertised, after_switch, received, switch_outcome, sync_wf, Advertisement, PeerSync,
    PeerSyncView, SyncAction, SyncOutcome, SyncPhase,
};
use crate::types::{block_views, Block};
use vstd::prelude::*;

verus! {

/// The place from `start` on of the synchronisation with `peer`, or the
/// number of synchronisations if there is none.
pub open spec fn slot_from(states: Seq<PeerSyncView>, peer: u64, start: int) -> int
    decreases states.len() - start,
{
    if start < 0 || start >= states.len() {
        states.len() as int
    } else if states[start].peer == peer {
        start
    } else {
        slot_from(states, peer, start + 1)
    }
}

/// The place of the synchronisation with `peer`, or the number of
/// synchronisations if there is none.
pub open spec fn slot(states: Seq<PeerSyncView>, peer: u64) -> int {
    slot_from(states, peer, 0)
}

/// Whether a synchronisation with `peer` is kept.
pub open spec fn followed(states: Seq<PeerSyncView>, peer: u64) -> bool {
    slot(states, peer) < states.len()
}

/// What the synchronisations satisfy: each is well-formed, and no peer has
/// two.
pub open spec fn states_wf(states: Seq<PeerSyncView>) -> bool {
    &&& forall|i: int| 0 <= i < states.len() ==> sync_wf(#[trigger] states[i])
    &&& forall|i: int, j: int|
        0 <= i < j < states.len() ==> (#[trigger] states[i]).peer != (#[trigger] states[j]).peer
}

/// The state of a peer that has just connected.
pub open spec fn fresh(peer: u64) -> PeerSyncView {
    PeerSyncView {
        peer: peer,
        phase: SyncPhase::AwaitingAdvertisement,
        tip_digest: 0,
        tip_height: 0,
        ancestor: 0,
        ancestor_digest: 0,
        pending: Seq::empty(),
    }
}

/// The synchronisations after that of `peer` went through a step that left
/// it in `state`: discarded if the peer is to be dropped, in its place
/// otherwise.
pub open spec fn stepped(
    states: Seq<PeerSyncView>,
    peer: u64,
    state: PeerSyncView,
    dropped: bool,
) -> Seq<PeerSyncView> {
    if !followed(states, peer) {
        states
    } else if dropped {
        states.remove(slot(states, peer))
    } else {
        states.update(slot(states, peer), state)
    }
}

/// What the place of a peer's synchronisation is.
pub proof fn lemma_slot_from(states: Seq<PeerSyncView>, peer: u64, start: int)
    requires
        0 <= start <= states.len(),
    ensures
        start <= slot_from(states, peer, start) <= states.len(),
        forall|i: int| start <= i < slot_from(states, peer, start) ==> (#[trigger] states[i]).peer != peer,
        slot_from(states, peer, start) < states.len() ==> states[slot_from(
            states,
            peer,
            start,
        )].peer == peer,
    decreases states.len() - start,
{
    if start < states.len() && states[start].peer != peer {
        lemma_slot_from(states, peer, start + 1);
    }
}

/// A synchronisation replaced by one with the same peer, or taken out,
/// leaves well-formed synchronisations.
pub proof fn lemma_stepped_wf(states: Seq<PeerSyncView>, peer: u64, state: PeerSyncView, dropped: bool)
    requires
        states_wf(states),
        sync_wf(state),
        state.peer == peer,
    ensures
        states_wf(stepped(states, peer, state, dropped)),
{
    lemma_slot_from(states, peer, 0);
    let at = slot(states, peer);
    let after = stepped(states, peer, state, dropped);
    if followed(states, peer) {
        if dropped {
            assert forall|i: int| 0 <= i < after.len() implies #[trigger] after[i] == states[if i
                < at {
                i
            } else {
                i + 1
            }] by {}
            assert forall|i: int| 0 <= i < after.len() implies sync_wf(#[trigger] after[i]) by {
                assert(sync_wf(states[if i < at { i } else { i + 1 }]));
            }
            assert forall|i: int, j: int| 0 <= i < j < after.len() implies (
            #[trigger] after[i]).peer != (#[trigger] after[j]).peer by {
                let pi = if i < at { i } else { i + 1 };
                let pj = if j < at { j } else { j + 1 };
                assert(states[pi].peer != states[pj].peer);
            }
        } else {
            assert forall|i: int| 0 <= i < after.len() implies sync_wf(#[trigger] after[i]) by {
                if i != at {
                    assert(sync_wf(states[i]));
                }
            }
            assert forall|i: int, j: int| 0 <= i < j < after.len() implies (
            #[trigger] after[i]).peer != (#[trigger] after[j]).peer by {
                assert(states[i].peer != states[j].peer);
            }
        }
    }
}

/// The synchronisations with the connected peers.
pub struct SyncCoordinator {
    peers: Vec<PeerSync>,
    batch: u64,
}

impl View for SyncCoordinator {
    type V = Seq<PeerSyncView>;

    closed spec fn view(&self) -> Seq<PeerSyncView> {
        self.peers@.map_values(|p: PeerSync| p@)
    }
}

impl SyncCoordinator {
    /// The number of blocks asked for in one request.
    pub closed spec fn batch_size(&self) -> u64 {
        self.batch
    }

    /// The synchronisations are well-formed and requests ask for a block at
    /// least.
    pub open spec fn wf(&self) -> bool {
        &&& states_wf(self@)
        &&& self.batch_size() >= 1
    }

    /// A coordinator without peers that asks for `batch` blocks at a time,
    /// and for one where `batch` is 0.
    pub fn new(batch: u64) -> (made: SyncCoordinator)
        ensures
            made.wf(),
            made@ == Seq::<PeerSyncView>::empty(),
            made.batch_size() == (if batch == 0 { 1 } else { batch }),
    {
        let made = SyncCoordinator { peers: Vec::new(), batch: if batch == 0 { 1 } else { batch } };
        assert(made@ =~= Seq::<PeerSyncView>::empty());
        made
    }

    /// The number of peers with a synchronisation.
    pub fn peer_count(&self) -> (count: usize)
        ensures
            count == self@.len(),
    {
        self.peers.len()
    }

    /// The place of the synchronisation with `peer`.
    fn find(&self, peer: u64) -> (place: usize)
        ensures
            place == slot(self@, peer),
            place <= self@.len(),
            place < self@.len() ==> self@[place as int].peer == peer,
    {
        let mut i: usize = 0;
        while i < self.peers.len() && self.peers[i].peer() != peer
            invariant
                i <= self.peers.len(),
                slot_from(self@, peer, i as int) == slot(self@, peer),
            decreases self.peers.len() - i,
        {
            i += 1;
        }
        i
    }

    /// Where the synchronisation with `peer` stands, if there is one.
    pub fn phase_of(&self, peer: u64) -> (phase: Option<SyncPhase>)
        ensures
            phase is Some <==> followed(self@, peer),
            phase is Some ==> phase->Some_0 == self@[slot(self@, peer)].phase,
    {
        let place = self.find(peer);
        if place < self.peers.len() {
            Some(self.peers[place].phase())
        } else {
            None
        }
    }

    /// Takes note that `peer` connected: a synchronisation is made for it
    /// that awaits its advertisement. A peer that has one keeps it.
    pub fn on_connect(&mut self, peer: u64) -> (added: bool)
        requires
            old(self).wf(),
        ensures
            final(self).wf(),
            final(self).batch_size() == old(self).batch_size(),
            added == !followed(old(self)@, peer),
            final(self)@ == (if added {
                old(self)@.push(fresh(peer))
            } else {
                old(self)@
            }),
    {
        let place = self.find(peer);
        if place < self.peers.len() {
            return false;
        }
        proof {
            lemma_slot_from(self@, peer, 0);
        }
        let state = PeerSync::connected(peer);
        self.peers.push(state);
        assert(self@ =~= old(self)@.push(fresh(peer)));
        true
    }

    /// Takes note that `peer` disconnected: its synchronisation is
    /// discarded, wherever it stood.
    pub fn on_disconnect(&mut self, peer: u64)
        requires
            old(self).wf(),
        ensures
            final(self).wf(),
            final(self).batch_size() == old(self).batch_size(),
            final(self)@ == stepped(old(self)@, peer, fresh(peer), true),
    {
        let place = self.find(peer);
        if place < self.peers.len() {
            proof {
                lemma_stepped_wf(self@, peer, fresh(peer), true);
            }
            self.peers.remove(place);
            assert(self@ =~= old(self)@.remove(place as int));
        }
    }

    /// Lets the synchronisation with `peer` await an advertisement again, if
    /// it is idle.
    pub fn restart(&mut self, peer: u64)
        requires
            old(self).wf(),
        ensures
            final(self).wf(),
            final(self).batch_size() == old(self).batch_size(),
            final(self)@ == (if followed(old(self)@, peer) && old(self)@[slot(
                old(self)@,
                peer,
            )].phase == SyncPhase::Idle {
                old(self)@.update(
                    slot(old(self)@, peer),
                    PeerSyncView {
                        peer: old(self)@[slot(old(self)@, peer)].peer,
                        phase: SyncPhase::AwaitingAdvertisement,
                        tip_digest: old(self)@[slot(old(self)@, peer)].tip_digest,
                        tip_height: old(self)@[slot(old(self)@, peer)].tip_height,
                        ancestor: old(self)@[slot(old(self)@, peer)].ancestor,
                        ancestor_digest: old(self)@[slot(old(self)@, peer)].ancestor_digest,
                        pending: old(self)@[slot(old(self)@, peer)].pending,
                    },
                )
            } else {
                old(self)@
            }),
    {
        let place = self.find(peer);
        if place < self.peers.len() {
            let mut state = self.peers.remove(place);
            assert(state@ == old(self)@[place as int]);
            state.restart();
            proof {
                lemma_stepped_wf(old(self)@, peer, state@, false);
            }
            self.peers.insert(place, state);
            assert(self@ =~= old(self)@.update(place as int, state@));
        }
    }

    /// Hands the advertisement of `peer` to its synchronisation. A peer
    /// whose advertisement is implausible or contradicts itself loses its
    /// synchronisation and is to be dropped.
    pub fn on_advertisement(&mut self, peer: u64, advertisement: &Advertisement, ledger: &Ledger) -> (action:
        SyncAction)
        requires
            old(self).wf(),
            ledger.wf(),
        ensures
            final(self).wf(),
            final(self).batch_size() == old(self).batch_size(),
            !followed(old(self)@, peer) ==> action == SyncAction::Wait && final(self)@ == old(self)@,
            followed(old(self)@, peer) ==> ({
                let step = advertised(
                    old(self)@[slot(old(self)@, peer)],
                    advertisement.tip_digest,
                    advertisement.height,
                    advertisement.locator@,
                    ledger@,
                    old(self).batch_size(),
                );
                action == step.1 && final(self)@ == stepped(
                    old(self)@,
                    peer,
                    step.0,
                    step.1 is DropPeer,
                )
            }),
    {
        let place = self.find(peer);
        if place >= self.peers.len() {
            return SyncAction::Wait;
        }
        let mut state = self.peers.remove(place);
        assert(state@ == old(self)@[place as int]);
        assert(self@ =~= old(self)@.remove(place as int));
        let action = state.on_advertisement(advertisement, ledger, self.batch);
        proof {
            lemma_stepped_wf(old(self)@, peer, state@, action is DropPeer);
        }
        match action {
            SyncAction::DropPeer => {},
            _ => {
                self.peers.insert(place, state);
                assert(self@ =~= old(self)@.update(place as int, state@));
            },
        }
        action
    }

    /// Hands the blocks with which `peer` answered a request to its
    /// synchronisation. A peer whose answer is not what was asked for loses
    /// its synchronisation and is to be dropped.
    pub fn on_blocks(&mut self, peer: u64, blocks: Vec<Block>) -> (action: SyncAction)
        requires
            old(self).wf(),
        ensures
            final(self).wf(),
            final(self).batch_size() == old(self).batch_size(),
            !followed(old(self)@, peer) ==> action == SyncAction::Wait && final(self)@ == old(self)@,
            followed(old(self)@, peer) ==> ({
                let step = received(
                    old(self)@[slot(old(self)@, peer)],
                    block_views(blocks@),
                    old(self).batch_size(),
                );
                action == step.1 && final(self)@ == stepped(
                    old(self)@,
                    peer,
                    step.0,
                    step.1 is DropPeer,
                )
            }),
    {
        let place = self.find(peer);
        if place >= self.peers.len() {
            return SyncAction::Wait;
        }
        let mut state = self.peers.remove(place);
        assert(state@ == old(self)@[place as int]);
        assert(self@ =~= old(self)@.remove(place as int));
        let action = state.on_blocks(blocks, self.batch);
        proof {
            lemma_stepped_wf(old(self)@, peer, state@, action is DropPeer);
        }
        match action {
            SyncAction::DropPeer => {},
            _ => {
                self.peers.insert(place, state);
                assert(self@ =~= old(self)@.update(place as int, state@));
            },
        }
        action
    }

    /// Attempts the switch to the chain of `peer`. A peer one of whose blocks
    /// fails validation loses its synchronisation and is to be dropped; the
    /// ledger is then as it was before.
    pub fn apply(&mut self, peer: u64, node: &mut Node, now: i64) -> (outcome: SyncOutcome)
        requires
            old(self).wf(),
            old(node).wf(),
        ensures
            final(self).wf(),
            final(node).wf(),
            final(self).batch_size() == old(self).batch_size(),
            final(node).rules() == old(node).rules(),
            final(node).pool_limit() == old(node).pool_limit(),
            !followed(old(self)@, peer) ==> outcome == SyncOutcome::NotReady && final(self)@
                == old(self)@,
            followed(old(self)@, peer) ==> ({
                let state = old(self)@[slot(old(self)@, peer)];
                outcome == switch_outcome(state, old(node).chain(), old(node).rules(), now)
                    && final(self)@ == stepped(
                    old(self)@,
                    peer,
                    after_switch(state, outcome),
                    outcome is Misbehaved,
                )
            }),
            final(node).chain() == (if outcome is Synced {
                old(node).chain().take(old(self)@[slot(old(self)@, peer)].ancestor + 1)
                    + old(self)@[slot(old(self)@, peer)].pending
            } else {
                old(node).chain()
            }),
            final(node).pooled() == (if outcome is Synced {
                pool_after_fork(
                    old(node).pooled(),
                    final(node).chain(),
                    old(self)@[slot(old(self)@, peer)].pending,
                    old(node).chain().skip(old(self)@[slot(old(self)@, peer)].ancestor + 1),
                    old(node).pool_limit(),
                )
            } else {
                old(node).pooled()
            }),
    {
        let place = self.find(peer);
        if place >= self.peers.len() {
            return SyncOutcome::NotReady;
        }
        let mut state = self.peers.remove(place);
        assert(state@ == old(self)@[place as int]);
        assert(self@ =~= old(self)@.remove(place as int));
        let outcome = state.apply(node, now);
        proof {
            lemma_stepped_wf(old(self)@, peer, state@, outcome is Misbehaved);
        }
        match outcome {
            SyncOutcome::Misbehaved(_) => {},
            _ => {
                self.peers.insert(place, state);
                assert(self@ =~= old(self)@.update(place as int, state@));
            },
        }
        outcome
    }
}

} // verus!
