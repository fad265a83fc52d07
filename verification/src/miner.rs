//! The miner coordinator: it assembles a candidate block on the tip, judges
//! each digest that the search comes up with, and hands a solved block to
//! the node. The hashing itself is the caller's: the coordinator says which
//! block to hash and is told the digest.

use crate::consensus::block_verdict;
use crate::ledger::{chain_commitments, chain_serials, chain_wf, has_digest};
use crate::mempool::{lemma_selection_validates, pool_wf, selection};
use crate::node::{applied, block_outcome, BlockOutcome, Node};
use crate::params::{expected_target, ConsensusParameters, MAX_FUTURE_DRIFT};
use crate::types::{Block, BlockView, TransactionView, BLOCK_HEADER_SIZE};
use vstd::prelude::*;

verus! {

/// Where the miner stands.
#[derive(PartialEq, Eq, Structural, Clone, Copy, Debug)]
pub enum MinerPhase {
    /// The miner is switched off.
    Stopped,
    /// The miner runs and has no candidate.
    Idle,
    /// The miner searches a nonce for its candidate.
    Searching,
    /// The candidate is solved and waits to be submitted.
    Found,
}

/// What the caller is to do next for the miner.
#[derive(PartialEq, Eq, Structural, Clone, Copy, Debug)]
pub enum MinerAction {
    /// Nothing: the miner is switched off.
    Rest,
    /// Assemble a candidate on the current tip.
    Assemble,
    /// Compute the digest of the candidate as it stands and report it.
    Hash,
    /// Submit the solved candidate.
    Submit,
}

/// What the miner is to the contracts.
pub struct MinerView {
    pub phase: MinerPhase,
    pub candidate: BlockView,
    pub parent_timestamp: i64,
    pub parent_target: u64,
}

/// The later of two times.
pub open spec fn later(a: i64, b: i64) -> i64 {
    if a >= b {
        a
    } else {
        b
    }
}

/// The bytes that the transactions of a block may take.
pub open spec fn body_budget(params: ConsensusParameters) -> usize {
    if params.size_limit() < BLOCK_HEADER_SIZE {
        0
    } else {
        (params.size_limit() - BLOCK_HEADER_SIZE) as usize
    }
}

/// The candidate that a miner assembles at time `now` on `chain` from
/// `pool`: a block on the tip, made now but not before the tip, with the
/// difficulty target owed on the tip, the first nonce, no digest yet, and
/// the transactions that the pool offers within the size of a block.
pub open spec fn candidate_on(
    chain: Seq<BlockView>,
    pool: Seq<TransactionView>,
    params: ConsensusParameters,
    now: i64,
) -> BlockView {
    let tip = chain.last();
    let timestamp = later(now, tip.timestamp);
    BlockView {
        parent: tip.digest,
        digest: 0,
        timestamp: timestamp,
        nonce: 0,
        difficulty_target: expected_target(
            tip.difficulty_target,
            tip.timestamp,
            timestamp,
            params.block_time(),
        ),
        transactions: selection(
            pool,
            body_budget(params),
            chain_serials(chain),
            chain_commitments(chain),
        ),
    }
}

/// The miner after it assembled a candidate.
pub open spec fn assembled(
    state: MinerView,
    chain: Seq<BlockView>,
    pool: Seq<TransactionView>,
    params: ConsensusParameters,
    now: i64,
) -> MinerView {
    if state.phase == MinerPhase::Stopped {
        state
    } else {
        MinerView {
            phase: MinerPhase::Searching,
            candidate: candidate_on(chain, pool, params, now),
            parent_timestamp: chain.last().timestamp,
            parent_target: chain.last().difficulty_target,
        }
    }
}

/// The candidate with another nonce.
pub open spec fn with_nonce(block: BlockView, nonce: u32) -> BlockView {
    BlockView {
        parent: block.parent,
        digest: block.digest,
        timestamp: block.timestamp,
        nonce: nonce,
        difficulty_target: block.difficulty_target,
        transactions: block.transactions,
    }
}

/// The candidate with a digest.
pub open spec fn with_digest(block: BlockView, digest: u64) -> BlockView {
    BlockView {
        parent: block.parent,
        digest: digest,
        timestamp: block.timestamp,
        nonce: block.nonce,
        difficulty_target: block.difficulty_target,
        transactions: block.transactions,
    }
}

/// The candidate made anew at time `now` on a parent made at
/// `parent_timestamp` with target `parent_target`: with the time and the
/// difficulty target of a block made now, and the first nonce.
pub open spec fn refreshed(
    block: BlockView,
    parent_timestamp: i64,
    parent_target: u64,
    params: ConsensusParameters,
    now: i64,
) -> BlockView {
    let timestamp = later(now, parent_timestamp);
    BlockView {
        parent: block.parent,
        digest: block.digest,
        timestamp: timestamp,
        nonce: 0,
        difficulty_target: expected_target(
            parent_target,
            parent_timestamp,
            timestamp,
            params.block_time(),
        ),
        transactions: block.transactions,
    }
}

/// Miner and action after the digest of the candidate was reported, with
/// the digest `tip` of the ledger's tip at that time. A candidate on another
/// tip is discarded. A digest within the target solves the candidate. Any
/// other digest moves the search to the next nonce, and past the largest
/// nonce to a candidate with a new timestamp.
pub open spec fn searched(
    state: MinerView,
    digest: u64,
    tip: u64,
    params: ConsensusParameters,
    now: i64,
) -> (MinerView, MinerAction) {
    match state.phase {
        MinerPhase::Stopped => (state, MinerAction::Rest),
        MinerPhase::Idle => (state, MinerAction::Assemble),
        MinerPhase::Found => (state, MinerAction::Submit),
        MinerPhase::Searching => if tip != state.candidate.parent {
            (
                MinerView {
                    phase: MinerPhase::Idle,
                    candidate: state.candidate,
                    parent_timestamp: state.parent_timestamp,
                    parent_target: state.parent_target,
                },
                MinerAction::Assemble,
            )
        } else if digest <= state.candidate.difficulty_target {
            (
                MinerView {
                    phase: MinerPhase::Found,
                    candidate: with_digest(state.candidate, digest),
                    parent_timestamp: state.parent_timestamp,
                    parent_target: state.parent_target,
                },
                MinerAction::Submit,
            )
        } else if state.candidate.nonce < params.nonce_limit() {
            (
                MinerView {
                    phase: MinerPhase::Searching,
                    candidate: with_nonce(state.candidate, (state.candidate.nonce + 1) as u32),
                    parent_timestamp: state.parent_timestamp,
                    parent_target: state.parent_target,
                },
                MinerAction::Hash,
            )
        } else {
            (
                MinerView {
                    phase: MinerPhase::Searching,
                    candidate: refreshed(
                        state.candidate,
                        state.parent_timestamp,
                        state.parent_target,
                        params,
                        now,
                    ),
                    parent_timestamp: state.parent_timestamp,
                    parent_target: state.parent_target,
                },
                MinerAction::Hash,
            )
        },
    }
}

/// A candidate that is solved while its parent is the tip is a block that
/// the consensus rules accept: whatever nonce within the limit it was solved
/// at, under a digest that is new to the chain and within the target, as
/// long as blocks can hold a header and the tip is not ahead of the clock by
/// more than a block may be.
pub proof fn lemma_candidate_accepted(
    chain: Seq<BlockView>,
    pool: Seq<TransactionView>,
    params: ConsensusParameters,
    now: i64,
    nonce: u32,
    digest: u64,
    clock: i64,
)
    requires
        chain_wf(chain),
        pool_wf(pool),
        params.size_limit() >= BLOCK_HEADER_SIZE,
        nonce <= params.nonce_limit(),
        !has_digest(chain, digest),
        digest <= candidate_on(chain, pool, params, now).difficulty_target,
        later(now, chain.last().timestamp) <= clock + MAX_FUTURE_DRIFT,
    ensures
        block_verdict(
            with_digest(with_nonce(candidate_on(chain, pool, params, now), nonce), digest),
            chain,
            params,
            clock,
        ) is Accept,
{
    lemma_selection_validates(
        pool,
        body_budget(params),
        chain_serials(chain),
        chain_commitments(chain),
    );
}

/// The miner's state.
#[derive(Debug)]
pub struct Miner {
    phase: MinerPhase,
    candidate: Block,
    parent_timestamp: i64,
    parent_target: u64,
    address: Vec<u8>,
}

impl View for Miner {
    type V = MinerView;

    closed spec fn view(&self) -> MinerView {
        MinerView {
            phase: self.phase,
            candidate: self.candidate@,
            parent_timestamp: self.parent_timestamp,
            parent_target: self.parent_target,
        }
    }
}

impl Miner {
    /// The identity that receives what the miner earns.
    pub closed spec fn recipient(&self) -> Seq<u8> {
        self.address@
    }

    /// A miner for `address`, switched off, with an empty block for a
    /// candidate.
    pub fn new(address: Vec<u8>) -> (miner: Miner)
        ensures
            miner.recipient() == address@,
            miner@ == (MinerView {
                phase: MinerPhase::Stopped,
                candidate: BlockView {
                    parent: 0,
                    digest: 0,
                    timestamp: 0,
                    nonce: 0,
                    difficulty_target: 0,
                    transactions: Seq::empty(),
                },
                parent_timestamp: 0,
                parent_target: 0,
            }),
    {
        let miner = Miner {
            phase: MinerPhase::Stopped,
            candidate: Block {
                parent: 0,
                digest: 0,
                timestamp: 0,
                nonce: 0,
                difficulty_target: 0,
                transactions: Vec::new(),
            },
            parent_timestamp: 0,
            parent_target: 0,
            address,
        };
        assert(miner@.candidate.transactions =~= Seq::<TransactionView>::empty());
        miner
    }

    /// Where the miner stands.
    pub fn phase(&self) -> (phase: MinerPhase)
        ensures
            phase == self@.phase,
    {
        self.phase
    }

    /// The identity that receives what the miner earns.
    pub fn address(&self) -> (address: &Vec<u8>)
        ensures
            address@ == self.recipient(),
    {
        &self.address
    }

    /// The candidate as it stands: the block whose digest is wanted while the
    /// miner searches.
    pub fn candidate(&self) -> (block: &Block)
        ensures
            block@ == self@.candidate,
    {
        &self.candidate
    }

    /// Switches the miner on, if it was off.
    pub fn start(&mut self) -> (action: MinerAction)
        ensures
            final(self).recipient() == old(self).recipient(),
            final(self)@ == (if old(self)@.phase == MinerPhase::Stopped {
                MinerView {
                    phase: MinerPhase::Idle,
                    candidate: old(self)@.candidate,
                    parent_timestamp: old(self)@.parent_timestamp,
                    parent_target: old(self)@.parent_target,
                }
            } else {
                old(self)@
            }),
            action == (match final(self)@.phase {
                MinerPhase::Stopped => MinerAction::Rest,
                MinerPhase::Idle => MinerAction::Assemble,
                MinerPhase::Searching => MinerAction::Hash,
                MinerPhase::Found => MinerAction::Submit,
            }),
    {
        if self.phase == MinerPhase::Stopped {
            self.phase = MinerPhase::Idle;
        }
        match self.phase {
            MinerPhase::Stopped => MinerAction::Rest,
            MinerPhase::Idle => MinerAction::Assemble,
            MinerPhase::Searching => MinerAction::Hash,
            MinerPhase::Found => MinerAction::Submit,
        }
    }

    /// Switches the miner off, whatever it was doing.
    pub fn stop(&mut self)
        ensures
            final(self).recipient() == old(self).recipient(),
            final(self)@ == (MinerView {
                phase: MinerPhase::Stopped,
                candidate: old(self)@.candidate,
                parent_timestamp: old(self)@.parent_timestamp,
                parent_target: old(self)@.parent_target,
            }),
    {
        self.phase = MinerPhase::Stopped;
    }

    /// Assembles a candidate on the tip of the node's ledger from the node's
    /// pool, at time `now`, and starts the search at the first nonce. A miner
    /// that is switched off does nothing.
    pub fn assemble(&mut self, node: &Node, now: i64) -> (action: MinerAction)
        requires
            node.wf(),
        ensures
            final(self).recipient() == old(self).recipient(),
            final(self)@ == assembled(old(self)@, node.chain(), node.pooled(), node.rules(), now),
            action == (if old(self)@.phase == MinerPhase::Stopped {
                MinerAction::Rest
            } else {
                MinerAction::Hash
            }),
    {
        if self.phase == MinerPhase::Stopped {
            return MinerAction::Rest;
        }
        let ledger = node.ledger();
        let params = node.params();
        let tip = ledger.tip();
        let timestamp = if now >= tip.timestamp {
            now
        } else {
            tip.timestamp
        };
        let budget = if params.max_block_size() < BLOCK_HEADER_SIZE {
            0
        } else {
            params.max_block_size() - BLOCK_HEADER_SIZE
        };
        let transactions = node.pool().candidates(ledger, budget);
        self.candidate = Block {
            parent: tip.digest,
            digest: 0,
            timestamp,
            nonce: 0,
            difficulty_target: params.next_target(tip.difficulty_target, tip.timestamp, timestamp),
            transactions,
        };
        self.parent_timestamp = tip.timestamp;
        self.parent_target = tip.difficulty_target;
        self.phase = MinerPhase::Searching;
        MinerAction::Hash
    }

    /// Takes the digest of the candidate as it stands, with the digest `tip`
    /// of the ledger's tip and the time. A candidate whose parent is no longer
    /// the tip is discarded. A digest within the target solves the candidate.
    /// Any other digest moves the search on: to the next nonce, and past the
    /// largest nonce to the first nonce of a candidate made anew at `now`.
    pub fn attempt(&mut self, digest: u64, tip: u64, params: &ConsensusParameters, now: i64) -> (action:
        MinerAction)
        ensures
            final(self).recipient() == old(self).recipient(),
            (final(self)@, action) == searched(old(self)@, digest, tip, *params, now),
    {
        match self.phase {
            MinerPhase::Stopped => MinerAction::Rest,
            MinerPhase::Idle => MinerAction::Assemble,
            MinerPhase::Found => MinerAction::Submit,
            MinerPhase::Searching => {
                if tip != self.candidate.parent {
                    self.phase = MinerPhase::Idle;
                    MinerAction::Assemble
                } else if digest <= self.candidate.difficulty_target {
                    self.candidate.digest = digest;
                    self.phase = MinerPhase::Found;
                    MinerAction::Submit
                } else if self.candidate.nonce < params.max_nonce() {
                    self.candidate.nonce = self.candidate.nonce + 1;
                    MinerAction::Hash
                } else {
                    let timestamp = if now >= self.parent_timestamp {
                        now
                    } else {
                        self.parent_timestamp
                    };
                    self.candidate.timestamp = timestamp;
                    self.candidate.nonce = 0;
                    self.candidate.difficulty_target = params.next_target(
                        self.parent_target,
                        self.parent_timestamp,
                        timestamp,
                    );
                    MinerAction::Hash
                }
            },
        }
    }

    /// Hands the solved candidate to the node. Where the node commits it, a
    /// copy comes back for the peers. Either way the miner is left without a
    /// candidate, to assemble the next one.
    pub fn submit(&mut self, node: &mut Node, now: i64) -> (mined: Option<Block>)
        requires
            old(node).wf(),
        ensures
            final(node).wf(),
            final(self).recipient() == old(self).recipient(),
            final(node).rules() == old(node).rules(),
            final(node).pool_limit() == old(node).pool_limit(),
            old(self)@.phase != MinerPhase::Found ==> mined is None && final(self)@ == old(self)@
                && final(node).chain() == old(node).chain() && final(node).pooled() == old(
                node,
            ).pooled(),
            old(self)@.phase == MinerPhase::Found ==> {
                &&& final(self)@ == (MinerView {
                    phase: MinerPhase::Idle,
                    candidate: old(self)@.candidate,
                    parent_timestamp: old(self)@.parent_timestamp,
                    parent_target: old(self)@.parent_target,
                })
                &&& mined is Some <==> block_outcome(
                    old(node).chain(),
                    old(self)@.candidate,
                    old(node).rules(),
                    now,
                ) is Committed
                &&& mined is Some ==> mined->Some_0@ == old(self)@.candidate
                &&& final(node).chain() == applied(
                    old(node).chain(),
                    old(self)@.candidate,
                    old(node).rules(),
                    now,
                )
            },
    {
        if self.phase != MinerPhase::Found {
            return None;
        }
        self.phase = MinerPhase::Idle;
        let block = self.candidate.clone();
        match node.apply_block(block, now) {
            BlockOutcome::Committed => Some(self.candidate.clone()),
            _ => None,
        }
    }
}

} // verus!
