//! Synchronisation with one peer: from its advertisement of a chain to the
//! request for the blocks that are missing here, and to the attempt to
//! switch to its chain.

use crate::consensus::RejectReason;
use crate::fork::{after_fork, fork_outcome, ForkOutcome};
use crate::ledger::{chain_wf, has_digest, Ledger};
use crate::node::{pool_after_fork, Node};
use crate::types::{block_views, Block, BlockView};
use vstd::prelude::*;

verus! {

/// Where the synchronisation with a peer stands.
#[derive(PartialEq, Eq, Structural, Clone, Copy, Debug)]
pub enum SyncPhase {
    /// Nothing is under way.
    Idle,
    /// The peer was asked, or is expected, to advertise its chain.
    AwaitingAdvertisement,
    /// Blocks of the peer's chain are being fetched.
    RequestingBlocks,
    /// Every block was fetched; the switch to the peer's chain is due.
    Applying,
}

/// What the caller is to do next for a peer.
#[derive(PartialEq, Eq, Structural, Clone, Copy, Debug)]
pub enum SyncAction {
    /// Nothing.
    Wait,
    /// Ask the peer for its blocks at the heights `from` to `to`, both
    /// included.
    RequestBlocks { from: u64, to: u64 },
    /// Attempt the switch to the peer's chain.
    Apply,
    /// The peer misbehaved: disconnect it.
    DropPeer,
}

/// How the attempt to switch to a peer's chain ended.
#[derive(PartialEq, Eq, Structural, Clone, Copy, Debug)]
pub enum SyncOutcome {
    /// No switch was due.
    NotReady,
    /// The local chain moved below the common ancestor since the peer
    /// advertised; the peer is to advertise again.
    Restart,
    /// The local chain now ends in the peer's blocks.
    Synced,
    /// The peer's blocks do not stand for more work than the local ones.
    NotHeavier,
    /// A block of the peer failed validation; the ledger is as before.
    Misbehaved(RejectReason),
}

/// What a peer says of its chain.
#[derive(Debug)]
pub struct Advertisement {
    /// Digest of the peer's tip.
    pub tip_digest: u64,
    /// Height of the peer's tip.
    pub height: u64,
    /// Digests of the peer's chain from its tip downwards: the digest at
    /// place `k` is that of the block at height `height - k`.
    pub locator: Vec<u64>,
}

/// What the state of the synchronisation with a peer is to the contracts.
pub struct PeerSyncView {
    pub peer: u64,
    pub phase: SyncPhase,
    pub tip_digest: u64,
    pub tip_height: u64,
    pub ancestor: u64,
    pub ancestor_digest: u64,
    pub pending: Seq<BlockView>,
}

/// The advertisement names its tip first and no more blocks than a chain of
/// its height has.
pub open spec fn plausible(tip_digest: u64, height: u64, locator: Seq<u64>) -> bool {
    1 <= locator.len() <= height + 1 && locator[0] == tip_digest
}

/// The first place from `start` on of a digest of `locator` that the chain
/// holds, or the length of `locator` if there is none.
pub open spec fn first_known(chain: Seq<BlockView>, locator: Seq<u64>, start: int) -> int
    decreases locator.len() - start,
{
    if start < 0 || start >= locator.len() {
        locator.len() as int
    } else if has_digest(chain, locator[start]) {
        start
    } else {
        first_known(chain, locator, start + 1)
    }
}

/// The height of the block of `chain` with digest `digest`.
pub open spec fn digest_height(chain: Seq<BlockView>, digest: u64) -> int {
    choose|i: int| 0 <= i < chain.len() && (#[trigger] chain[i]).digest == digest
}

/// The locator contradicts itself: the first block that both chains hold is
/// not at the height at which the peer puts it.
pub open spec fn inconsistent(chain: Seq<BlockView>, height: u64, locator: Seq<u64>) -> bool {
    let place = first_known(chain, locator, 0);
    place < locator.len() && digest_height(chain, locator[place]) != height - place
}

/// The height of the highest block that both chains hold; the genesis block
/// if the locator names none.
pub open spec fn common_ancestor(chain: Seq<BlockView>, height: u64, locator: Seq<u64>) -> int {
    let place = first_known(chain, locator, 0);
    if place < locator.len() {
        height - place
    } else {
        0
    }
}

/// The last height of a request that starts at `next`: `batch` blocks are
/// asked for at most, one at least, and none above `tip_height`.
pub open spec fn batch_end(next: int, tip_height: int, batch: int) -> int {
    let size = if batch < 1 {
        1
    } else {
        batch
    };
    if tip_height - next < size {
        tip_height
    } else {
        next + size - 1
    }
}

/// The last height of a request that starts at `next`.
fn last_of_batch(next: u64, tip_height: u64, batch: u64) -> (last: u64)
    requires
        next <= tip_height,
    ensures
        last == batch_end(next as int, tip_height as int, batch as int),
        next <= last <= tip_height,
{
    let size = if batch == 0 {
        1
    } else {
        batch
    };
    if tip_height - next < size {
        tip_height
    } else {
        next + (size - 1)
    }
}

/// State and action after a peer advertised its chain.
pub open spec fn advertised(
    state: PeerSyncView,
    tip_digest: u64,
    height: u64,
    locator: Seq<u64>,
    chain: Seq<BlockView>,
    batch: u64,
) -> (PeerSyncView, SyncAction) {
    if state.phase != SyncPhase::AwaitingAdvertisement {
        (state, SyncAction::Wait)
    } else if !plausible(tip_digest, height, locator) {
        (state, SyncAction::DropPeer)
    } else if height <= chain.len() - 1 {
        (
            PeerSyncView {
                peer: state.peer,
                phase: SyncPhase::Idle,
                tip_digest: tip_digest,
                tip_height: height,
                ancestor: state.ancestor,
                ancestor_digest: state.ancestor_digest,
                pending: Seq::empty(),
            },
            SyncAction::Wait,
        )
    } else if inconsistent(chain, height, locator) {
        (state, SyncAction::DropPeer)
    } else {
        let ancestor = common_ancestor(chain, height, locator);
        (
            PeerSyncView {
                peer: state.peer,
                phase: SyncPhase::RequestingBlocks,
                tip_digest: tip_digest,
                tip_height: height,
                ancestor: ancestor as u64,
                ancestor_digest: chain[ancestor].digest,
                pending: Seq::empty(),
            },
            SyncAction::RequestBlocks {
                from: (ancestor + 1) as u64,
                to: batch_end(ancestor + 1, height as int, batch as int) as u64,
            },
        )
    }
}

/// State and action after the peer answered a request with `blocks`.
pub open spec fn received(state: PeerSyncView, blocks: Seq<BlockView>, batch: u64) -> (
    PeerSyncView,
    SyncAction,
) {
    let fetched = state.pending + blocks;
    let wanted = state.tip_height - state.ancestor;
    if state.phase != SyncPhase::RequestingBlocks {
        (state, SyncAction::Wait)
    } else if blocks.len() == 0 || fetched.len() > wanted {
        (state, SyncAction::DropPeer)
    } else if fetched.len() == wanted {
        if fetched.last().digest == state.tip_digest {
            (
                PeerSyncView {
                    peer: state.peer,
                    phase: SyncPhase::Applying,
                    tip_digest: state.tip_digest,
                    tip_height: state.tip_height,
                    ancestor: state.ancestor,
                    ancestor_digest: state.ancestor_digest,
                    pending: fetched,
                },
                SyncAction::Apply,
            )
        } else {
            (state, SyncAction::DropPeer)
        }
    } else {
        let next = state.ancestor + 1 + fetched.len();
        (
            PeerSyncView {
                peer: state.peer,
                phase: SyncPhase::RequestingBlocks,
                tip_digest: state.tip_digest,
                tip_height: state.tip_height,
                ancestor: state.ancestor,
                ancestor_digest: state.ancestor_digest,
                pending: fetched,
            },
            SyncAction::RequestBlocks {
                from: next as u64,
                to: batch_end(next, state.tip_height as int, batch as int) as u64,
            },
        )
    }
}

/// The local chain still holds the common ancestor at its height.
pub open spec fn ancestor_stands(state: PeerSyncView, chain: Seq<BlockView>) -> bool {
    state.ancestor < chain.len() && chain[state.ancestor as int].digest == state.ancestor_digest
}

/// How the attempt to switch to the peer's chain ends.
pub open spec fn switch_outcome(
    state: PeerSyncView,
    chain: Seq<BlockView>,
    params: crate::params::ConsensusParameters,
    now: i64,
) -> SyncOutcome {
    if state.phase != SyncPhase::Applying {
        SyncOutcome::NotReady
    } else if !ancestor_stands(state, chain) {
        SyncOutcome::Restart
    } else {
        match fork_outcome(chain, state.ancestor as int, state.pending, params, now) {
            ForkOutcome::Adopted => SyncOutcome::Synced,
            ForkOutcome::NotHeavier => SyncOutcome::NotHeavier,
            ForkOutcome::Invalid(reason) => SyncOutcome::Misbehaved(reason),
            ForkOutcome::UnknownAncestor => SyncOutcome::NotReady,
        }
    }
}

/// The state after the attempt to switch to the peer's chain.
pub open spec fn after_switch(state: PeerSyncView, outcome: SyncOutcome) -> PeerSyncView {
    match outcome {
        SyncOutcome::NotReady => state,
        SyncOutcome::Restart => PeerSyncView {
            peer: state.peer,
            phase: SyncPhase::AwaitingAdvertisement,
            tip_digest: state.tip_digest,
            tip_height: state.tip_height,
            ancestor: state.ancestor,
            ancestor_digest: state.ancestor_digest,
            pending: Seq::empty(),
        },
        _ => PeerSyncView {
            peer: state.peer,
            phase: SyncPhase::Idle,
            tip_digest: state.tip_digest,
            tip_height: state.tip_height,
            ancestor: state.ancestor,
            ancestor_digest: state.ancestor_digest,
            pending: Seq::empty(),
        },
    }
}

/// The local chain ends in the peer's blocks only if they stand for more
/// work than the blocks they replace and each of them validates.
pub proof fn lemma_synced_only_if_valid(
    state: PeerSyncView,
    chain: Seq<BlockView>,
    params: crate::params::ConsensusParameters,
    now: i64,
)
    requires
        switch_outcome(state, chain, params, now) is Synced,
    ensures
        state.phase == SyncPhase::Applying,
        ancestor_stands(state, chain),
        crate::fork::heavier(chain, state.ancestor as int, state.pending),
        crate::fork::suffix_verdict(
            chain.take(state.ancestor + 1),
            state.pending,
            params,
            now,
        ) is Accept,
        after_fork(chain, state.ancestor as int, state.pending, params, now) == chain.take(
            state.ancestor + 1,
        ) + state.pending,
{
}

/// In a well-formed chain a digest is the digest of one block.
pub proof fn lemma_digest_height(chain: Seq<BlockView>, height: int)
    requires
        chain_wf(chain),
        0 <= height < chain.len(),
    ensures
        digest_height(chain, chain[height].digest) == height,
{
    let found = digest_height(chain, chain[height].digest);
    assert(0 <= found < chain.len() && chain[found].digest == chain[height].digest);
    if found < height {
        assert(chain[found].digest != chain[height].digest);
    } else if height < found {
        assert(chain[height].digest != chain[found].digest);
    }
}

/// The locator names the blocks of `peer` from its tip downwards.
pub open spec fn walks_down(locator: Seq<u64>, peer: Seq<BlockView>) -> bool {
    &&& 1 <= locator.len() <= peer.len()
    &&& forall|k: int|
        0 <= k < locator.len() ==> #[trigger] locator[k] == peer[peer.len() - 1 - k].digest
}

/// No digest of the locator before place `upto` is one of the chain.
proof fn lemma_first_known(chain: Seq<BlockView>, locator: Seq<u64>, start: int, upto: int)
    requires
        0 <= start <= upto < locator.len(),
        forall|k: int| 0 <= k < upto ==> !has_digest(chain, #[trigger] locator[k]),
        has_digest(chain, locator[upto]),
    ensures
        first_known(chain, locator, start) == upto,
    decreases upto - start,
{
    if start < upto {
        lemma_first_known(chain, locator, start + 1, upto);
    }
}

/// Fork detection finds the fork: where the chain of a peer has the blocks of
/// the local chain up to height `ancestor` and above it only blocks that the
/// local chain does not hold, a locator that walks down the peer's chain as
/// far as that height is plausible and consistent, and names the block at
/// that height as the common ancestor.
pub proof fn lemma_common_ancestor(
    local: Seq<BlockView>,
    peer: Seq<BlockView>,
    locator: Seq<u64>,
    ancestor: int,
)
    requires
        chain_wf(local),
        peer.len() - 1 <= u64::MAX,
        0 <= ancestor < local.len(),
        ancestor < peer.len(),
        local.take(ancestor + 1) == peer.take(ancestor + 1),
        forall|i: int| ancestor < i < peer.len() ==> !has_digest(local, (#[trigger] peer[i]).digest),
        walks_down(locator, peer),
        locator.len() >= peer.len() - ancestor,
    ensures
        plausible(peer.last().digest, (peer.len() - 1) as u64, locator),
        !inconsistent(local, (peer.len() - 1) as u64, locator),
        common_ancestor(local, (peer.len() - 1) as u64, locator) == ancestor,
{
    let place = peer.len() - 1 - ancestor;
    assert(locator[0] == peer[peer.len() - 1 - 0].digest);
    assert forall|k: int| 0 <= k < place implies !has_digest(local, #[trigger] locator[k]) by {
        assert(locator[k] == peer[peer.len() - 1 - k].digest);
    }
    assert(locator[place] == peer[peer.len() - 1 - place].digest);
    assert(peer.len() - 1 - place == ancestor);
    assert(local.take(ancestor + 1)[ancestor] == local[ancestor]);
    assert(peer.take(ancestor + 1)[ancestor] == peer[ancestor]);
    assert(local[ancestor].digest == locator[place]);
    assert(has_digest(local, locator[place]));
    lemma_first_known(local, locator, 0, place);
    lemma_digest_height(local, ancestor);
}

/// What this node says of its own chain: its tip, and the digests from the
/// tip downwards, `depth` of them at most.
pub fn advertise(ledger: &Ledger, depth: usize) -> (advertisement: Advertisement)
    requires
        ledger.wf(),
    ensures
        advertisement.tip_digest == ledger@.last().digest,
        advertisement.height == ledger@.len() - 1,
        plausible(advertisement.tip_digest, advertisement.height, advertisement.locator@),
        walks_down(advertisement.locator@, ledger@),
        advertisement.locator@.len() == (if depth == 0 {
            1
        } else if depth < ledger@.len() {
            depth as int
        } else {
            ledger@.len() as int
        }),
        forall|k: int|
            0 <= k < advertisement.locator@.len() ==> #[trigger] advertisement.locator@[k]
                == ledger@[ledger@.len() - 1 - k].digest,
{
    Advertisement {
        tip_digest: ledger.current_digest(),
        height: ledger.height(),
        locator: ledger.locator(depth),
    }
}

/// The state of the synchronisation with one peer.
#[derive(Debug)]
pub struct PeerSync {
    peer: u64,
    phase: SyncPhase,
    tip_digest: u64,
    tip_height: u64,
    ancestor: u64,
    ancestor_digest: u64,
    pending: Vec<Block>,
}

impl View for PeerSync {
    type V = PeerSyncView;

    closed spec fn view(&self) -> PeerSyncView {
        PeerSyncView {
            peer: self.peer,
            phase: self.phase,
            tip_digest: self.tip_digest,
            tip_height: self.tip_height,
            ancestor: self.ancestor,
            ancestor_digest: self.ancestor_digest,
            pending: block_views(self.pending@),
        }
    }
}

/// What the state of a synchronisation satisfies: blocks are held only while
/// they are fetched or due to be applied, fewer than are wanted while they
/// are fetched, and all of them when the switch is due.
pub open spec fn sync_wf(state: PeerSyncView) -> bool {
    match state.phase {
        SyncPhase::Idle => state.pending.len() == 0,
        SyncPhase::AwaitingAdvertisement => state.pending.len() == 0,
        SyncPhase::RequestingBlocks => state.ancestor < state.tip_height && state.pending.len()
            < state.tip_height - state.ancestor,
        SyncPhase::Applying => state.ancestor < state.tip_height && state.pending.len()
            == state.tip_height - state.ancestor,
    }
}

impl PeerSync {
    /// The state for a peer that has just connected: its advertisement is
    /// awaited.
    pub fn connected(peer: u64) -> (state: PeerSync)
        ensures
            sync_wf(state@),
            state@ == (PeerSyncView {
                peer: peer,
                phase: SyncPhase::AwaitingAdvertisement,
                tip_digest: 0,
                tip_height: 0,
                ancestor: 0,
                ancestor_digest: 0,
                pending: Seq::empty(),
            }),
    {
        let state = PeerSync {
            peer,
            phase: SyncPhase::AwaitingAdvertisement,
            tip_digest: 0,
            tip_height: 0,
            ancestor: 0,
            ancestor_digest: 0,
            pending: Vec::new(),
        };
        assert(state@.pending =~= Seq::<BlockView>::empty());
        state
    }

    /// The peer.
    pub fn peer(&self) -> (peer: u64)
        ensures
            peer == self@.peer,
    {
        self.peer
    }

    /// Where the synchronisation stands.
    pub fn phase(&self) -> (phase: SyncPhase)
        ensures
            phase == self@.phase,
    {
        self.phase
    }

    /// The tip that the peer advertised last: its digest and its height.
    pub fn advertised_tip(&self) -> (tip: (u64, u64))
        ensures
            tip == (self@.tip_digest, self@.tip_height),
    {
        (self.tip_digest, self.tip_height)
    }

    /// Lets an idle synchronisation await the peer's advertisement again.
    pub fn restart(&mut self)
        requires
            sync_wf(old(self)@),
        ensures
            sync_wf(final(self)@),
            final(self)@ == (if old(self)@.phase == SyncPhase::Idle {
                PeerSyncView {
                    peer: old(self)@.peer,
                    phase: SyncPhase::AwaitingAdvertisement,
                    tip_digest: old(self)@.tip_digest,
                    tip_height: old(self)@.tip_height,
                    ancestor: old(self)@.ancestor,
                    ancestor_digest: old(self)@.ancestor_digest,
                    pending: old(self)@.pending,
                }
            } else {
                old(self)@
            }),
    {
        if self.phase == SyncPhase::Idle {
            self.phase = SyncPhase::AwaitingAdvertisement;
        }
    }

    /// Takes the peer's advertisement. A peer that is not ahead leaves
    /// nothing to do. For one that is, the highest block that both chains hold
    /// is looked up through the locator, and the blocks above it are asked
    /// for, a batch at a time.
    pub fn on_advertisement(&mut self, advertisement: &Advertisement, ledger: &Ledger, batch: u64) -> (action:
        SyncAction)
        requires
            sync_wf(old(self)@),
            ledger.wf(),
        ensures
            sync_wf(final(self)@),
            (final(self)@, action) == advertised(
                old(self)@,
                advertisement.tip_digest,
                advertisement.height,
                advertisement.locator@,
                ledger@,
                batch,
            ),
    {
        let ghost chain = ledger@;
        let ghost locator = advertisement.locator@;
        proof {
            ledger.lemma_wf();
        }
        if self.phase != SyncPhase::AwaitingAdvertisement {
            return SyncAction::Wait;
        }
        let named = advertisement.locator.len();
        let height = advertisement.height;
        if named == 0 || (named - 1) as u64 > height || advertisement.locator[0]
            != advertisement.tip_digest {
            return SyncAction::DropPeer;
        }
        if height <= ledger.height() {
            self.phase = SyncPhase::Idle;
            self.tip_digest = advertisement.tip_digest;
            self.tip_height = height;
            assert(self@.pending =~= Seq::<BlockView>::empty());
            return SyncAction::Wait;
        }
        let mut place: usize = 0;
        let mut known_at: Option<u64> = None;
        while place < named && known_at.is_none()
            invariant
                place <= named,
                named == locator.len(),
                locator == advertisement.locator@,
                chain == ledger@,
                ledger.wf(),
                chain_wf(chain),
                height == advertisement.height,
                height > chain.len() - 1,
                plausible(advertisement.tip_digest, height, locator),
                self@ == old(self)@,
                sync_wf(self@),
                self@.phase == SyncPhase::AwaitingAdvertisement,
                known_at is None ==> first_known(chain, locator, place as int) == first_known(
                    chain,
                    locator,
                    0,
                ),
                known_at is Some ==> place < named && first_known(chain, locator, 0) == place
                    && known_at->Some_0 == height - place && known_at->Some_0 < chain.len()
                    && digest_height(chain, locator[place as int]) == height - place,
            decreases named - place + (if known_at is None { 1int } else { 0int }),
        {
            match ledger.height_of(advertisement.locator[place]) {
                Some(found) => {
                    proof {
                        lemma_digest_height(chain, found as int);
                    }
                    if found != height - place as u64 {
                        return SyncAction::DropPeer;
                    }
                    known_at = Some(found);
                },
                None => {
                    place += 1;
                },
            }
        }
        let ancestor: u64 = match known_at {
            Some(found) => found,
            None => 0,
        };
        assert(ancestor == common_ancestor(chain, height, locator));
        assert(!inconsistent(chain, height, locator));
        let base = ledger.block_at(ancestor);
        self.phase = SyncPhase::RequestingBlocks;
        self.tip_digest = advertisement.tip_digest;
        self.tip_height = height;
        self.ancestor = ancestor;
        self.ancestor_digest = base.unwrap().digest;
        assert(self@.pending =~= Seq::<BlockView>::empty());
        let from = ancestor + 1;
        SyncAction::RequestBlocks { from, to: last_of_batch(from, height, batch) }
    }

    /// Takes the blocks with which the peer answered a request. An empty
    /// answer, or more blocks than are wanted, is misbehaviour, and so is a
    /// last block that is not the advertised tip. Once every block is here the
    /// switch is due; until then the next batch is asked for.
    pub fn on_blocks(&mut self, blocks: Vec<Block>, batch: u64) -> (action: SyncAction)
        requires
            sync_wf(old(self)@),
        ensures
            sync_wf(final(self)@),
            (final(self)@, action) == received(old(self)@, block_views(blocks@), batch),
    {
        if self.phase != SyncPhase::RequestingBlocks {
            return SyncAction::Wait;
        }
        let wanted = self.tip_height - self.ancestor;
        let held = self.pending.len() as u64;
        let ghost fetched = self@.pending + block_views(blocks@);
        if blocks.len() == 0 || blocks.len() as u64 > wanted - held {
            return SyncAction::DropPeer;
        }
        let last_digest = blocks[blocks.len() - 1].digest;
        assert(last_digest == fetched.last().digest);
        let complete = held + blocks.len() as u64 == wanted;
        if complete && last_digest != self.tip_digest {
            return SyncAction::DropPeer;
        }
        let mut more = blocks;
        self.pending.append(&mut more);
        assert(self@.pending =~= fetched);
        if complete {
            self.phase = SyncPhase::Applying;
            SyncAction::Apply
        } else {
            let from = self.ancestor + 1 + self.pending.len() as u64;
            SyncAction::RequestBlocks { from, to: last_of_batch(from, self.tip_height, batch) }
        }
    }

    /// Attempts the switch to the peer's chain, once every block is here.
    /// Where the local chain no longer holds the common ancestor, nothing is
    /// touched and the peer is to advertise again. Otherwise the fetched
    /// blocks replace the local ones above the ancestor if they stand for
    /// more work and all validate; the ledger is as before if they do not.
    pub fn apply(&mut self, node: &mut Node, now: i64) -> (outcome: SyncOutcome)
        requires
            sync_wf(old(self)@),
            old(node).wf(),
        ensures
            sync_wf(final(self)@),
            final(node).wf(),
            final(node).rules() == old(node).rules(),
            final(node).pool_limit() == old(node).pool_limit(),
            outcome == switch_outcome(old(self)@, old(node).chain(), old(node).rules(), now),
            final(self)@ == after_switch(old(self)@, outcome),
            final(node).chain() == (if outcome is Synced {
                old(node).chain().take(old(self)@.ancestor + 1) + old(self)@.pending
            } else {
                old(node).chain()
            }),
            final(node).pooled() == (if outcome is Synced {
                pool_after_fork(
                    old(node).pooled(),
                    final(node).chain(),
                    old(self)@.pending,
                    old(node).chain().skip(old(self)@.ancestor + 1),
                    old(node).pool_limit(),
                )
            } else {
                old(node).pooled()
            }),
    {
        if self.phase != SyncPhase::Applying {
            return SyncOutcome::NotReady;
        }
        let stands = match node.ledger().block_at(self.ancestor) {
            Some(block) => block.digest == self.ancestor_digest,
            None => false,
        };
        let mut blocks: Vec<Block> = Vec::new();
        std::mem::swap(&mut blocks, &mut self.pending);
        assert(self@.pending =~= Seq::<BlockView>::empty());
        if !stands {
            self.phase = SyncPhase::AwaitingAdvertisement;
            return SyncOutcome::Restart;
        }
        self.phase = SyncPhase::Idle;
        match node.resolve_fork(self.ancestor, blocks, now) {
            ForkOutcome::Adopted => SyncOutcome::Synced,
            ForkOutcome::NotHeavier => SyncOutcome::NotHeavier,
            ForkOutcome::Invalid(reason) => SyncOutcome::Misbehaved(reason),
            ForkOutcome::UnknownAncestor => SyncOutcome::NotReady,
        }
    }
}

} // verus!
