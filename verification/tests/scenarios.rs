use dpc_node::consensus::RejectReason;
use dpc_node::coordinator::SyncCoordinator;
use dpc_node::ledger::Ledger;
use dpc_node::mempool::Admission;
use dpc_node::miner::{Miner, MinerAction, MinerPhase};
use dpc_node::node::{BlockOutcome, Node};
use dpc_node::params::ConsensusParameters;
use dpc_node::sync::{advertise, SyncAction, SyncOutcome};
use dpc_node::types::{Block, Transaction};

const TARGET_X: u64 = (1 << 40) - 1;
const START_X: i64 = 1_000_000;
const NOW_X: i64 = 2_000_000;

fn params_x(max_nonce: u32) -> ConsensusParameters {
    ConsensusParameters::new(100_000, max_nonce, 10).unwrap()
}

fn offer_x(id: u64, serials: Vec<u64>, fee: i64) -> Transaction {
    Transaction {
        id,
        serial_numbers: serials,
        commitments: vec![],
        inputs: vec![10],
        fee,
        size: 100,
        proof_verified: true,
    }
}

fn genesis_x() -> Block {
    Block {
        parent: 0,
        digest: 1000,
        timestamp: START_X,
        nonce: 0,
        difficulty_target: TARGET_X,
        transactions: vec![Transaction {
            id: 1,
            serial_numbers: vec![],
            commitments: vec![10],
            inputs: vec![],
            fee: 0,
            size: 10,
            proof_verified: true,
        }],
    }
}

fn line_x(base: &Block, first_digest: u64, count: u64) -> Vec<Block> {
    let mut blocks: Vec<Block> = Vec::new();
    for i in 0..count {
        let parent = match blocks.last() {
            Some(last) => last.clone(),
            None => base.clone(),
        };
        blocks.push(Block {
            parent: parent.digest,
            digest: first_digest + i,
            timestamp: parent.timestamp + 10,
            nonce: 1,
            difficulty_target: parent.difficulty_target,
            transactions: vec![],
        });
    }
    blocks
}

fn chain_x(shared: u64, own: u64, own_digest: u64) -> Vec<Block> {
    let mut blocks = vec![genesis_x()];
    blocks.extend(line_x(&genesis_x(), 1001, shared));
    let fork_point = blocks.last().unwrap().clone();
    blocks.extend(line_x(&fork_point, own_digest, own));
    blocks
}

#[test]
fn pooled_transactions_in_conflict_with_a_committed_block_both_leave() {
    let mut node = Node::new(genesis_x(), params_x(100), 10).unwrap();
    assert_eq!(node.submit_transaction(offer_x(2, vec![70, 71], 5)), Admission::Admitted);
    assert_eq!(node.submit_transaction(offer_x(3, vec![72], 6)), Admission::Admitted);
    assert_eq!(node.submit_transaction(offer_x(4, vec![73], 7)), Admission::Admitted);
    let mut block = line_x(&genesis_x(), 2000, 1).remove(0);
    block.transactions = vec![offer_x(9, vec![71, 72], 1)];
    assert_eq!(node.apply_block(block, NOW_X), BlockOutcome::Committed);
    assert_eq!(node.pool().len(), 1);
    assert_eq!(node.pool().position(2), None);
    assert_eq!(node.pool().position(3), None);
    assert_eq!(node.pool().position(4), Some(0));
    assert!(node.ledger().contains_serial(71));
    assert!(node.ledger().contains_serial(72));
    assert!(!node.ledger().contains_serial(70));
    assert_eq!(
        node.submit_transaction(offer_x(2, vec![70, 71], 5)),
        Admission::Rejected(RejectReason::DoubleSpend)
    );
}

#[test]
fn a_peer_fifty_blocks_ahead_on_a_fork_is_followed_from_the_common_ancestor() {
    let mut node = Node::with_ledger(Ledger::restore(chain_x(40, 10, 2000)).unwrap(), params_x(100), 10);
    let peer = Ledger::restore(chain_x(40, 60, 3000)).unwrap();
    assert_eq!(node.ledger().height(), 50);
    assert_eq!(peer.height(), 100);
    let mut coordinator = SyncCoordinator::new(100);
    assert!(coordinator.on_connect(7));
    let action = coordinator.on_advertisement(7, &advertise(&peer, 101), node.ledger());
    assert_eq!(action, SyncAction::RequestBlocks { from: 41, to: 100 });
    assert_eq!(coordinator.on_blocks(7, peer.blocks_between(41, 100)), SyncAction::Apply);
    assert_eq!(coordinator.apply(7, &mut node, NOW_X), SyncOutcome::Synced);
    assert_eq!(node.ledger().height(), 100);
    assert_eq!(node.ledger().current_digest(), peer.current_digest());
    for height in 0..=100 {
        assert_eq!(
            node.ledger().block_at(height).unwrap().digest,
            peer.block_at(height).unwrap().digest
        );
    }
}

#[test]
fn a_peer_ahead_on_a_fork_is_fetched_in_batches() {
    let node = Node::with_ledger(Ledger::restore(chain_x(40, 10, 2000)).unwrap(), params_x(100), 10);
    let peer = Ledger::restore(chain_x(40, 60, 3000)).unwrap();
    let mut coordinator = SyncCoordinator::new(16);
    coordinator.on_connect(7);
    let mut action = coordinator.on_advertisement(7, &advertise(&peer, 101), node.ledger());
    let mut asked: Vec<u64> = Vec::new();
    while let SyncAction::RequestBlocks { from, to } = action {
        assert!(to - from < 16);
        asked.extend(from..=to);
        action = coordinator.on_blocks(7, peer.blocks_between(from, to));
    }
    assert_eq!(action, SyncAction::Apply);
    assert_eq!(asked, (41..=100).collect::<Vec<u64>>());
}

#[test]
fn a_peer_ahead_on_a_fork_is_not_followed_where_a_fetched_block_fails() {
    for bad in [0usize, 17, 59] {
        let mut node =
            Node::with_ledger(Ledger::restore(chain_x(40, 10, 2000)).unwrap(), params_x(100), 10);
        let peer = Ledger::restore(chain_x(40, 60, 3000)).unwrap();
        let mut coordinator = SyncCoordinator::new(100);
        coordinator.on_connect(7);
        coordinator.on_advertisement(7, &advertise(&peer, 101), node.ledger());
        let mut blocks = peer.blocks_between(41, 100);
        blocks[bad].transactions = vec![Transaction { proof_verified: false, ..offer_x(5, vec![80], 1) }];
        assert_eq!(coordinator.on_blocks(7, blocks), SyncAction::Apply);
        assert_eq!(
            coordinator.apply(7, &mut node, NOW_X),
            SyncOutcome::Misbehaved(RejectReason::InvalidProof)
        );
        assert_eq!(coordinator.phase_of(7), None);
        assert_eq!(node.ledger().height(), 50);
        assert_eq!(node.ledger().current_digest(), 2009);
        assert_eq!(node.ledger().block_at(41).unwrap().digest, 2000);
    }
}

#[test]
fn a_full_pool_takes_a_higher_fee_for_its_lowest_and_refuses_the_rest() {
    let mut node = Node::new(genesis_x(), params_x(100), 3).unwrap();
    assert_eq!(node.submit_transaction(offer_x(2, vec![70], 9)), Admission::Admitted);
    assert_eq!(node.submit_transaction(offer_x(3, vec![71], 4)), Admission::Admitted);
    assert_eq!(node.submit_transaction(offer_x(4, vec![72], 6)), Admission::Admitted);
    assert_eq!(
        node.submit_transaction(offer_x(5, vec![73], 4)),
        Admission::Rejected(RejectReason::CapacityExceeded)
    );
    assert_eq!(
        node.submit_transaction(offer_x(5, vec![73], 3)),
        Admission::Rejected(RejectReason::CapacityExceeded)
    );
    assert_eq!(node.pool().len(), 3);
    assert_eq!(node.pool().position(3), Some(2));
    assert_eq!(node.submit_transaction(offer_x(5, vec![73], 5)), Admission::Replaced(3));
    assert_eq!(node.pool().len(), 3);
    assert_eq!(node.pool().position(3), None);
    assert_eq!(node.pool().position(5), Some(2));
    assert_eq!(node.pool().get(5).unwrap().fee, 5);
}

#[test]
fn an_exhausted_search_goes_on_with_a_new_timestamp() {
    let node = Node::new(genesis_x(), params_x(3), 10).unwrap();
    let mut miner = Miner::new(vec![]);
    miner.start();
    assert_eq!(miner.assemble(&node, START_X + 10), MinerAction::Hash);
    assert_eq!(miner.candidate().difficulty_target, TARGET_X);
    let mut now = START_X + 10;
    for nonce in 0..=3u32 {
        assert_eq!(miner.candidate().nonce, nonce);
        assert_eq!(miner.candidate().timestamp, START_X + 10);
        now += 1;
        assert_eq!(miner.attempt(u64::MAX, 1000, node.params(), now), MinerAction::Hash);
    }
    assert_eq!(miner.phase(), MinerPhase::Searching);
    assert_eq!(miner.candidate().nonce, 0);
    assert_eq!(miner.candidate().timestamp, START_X + 14);
    assert_eq!(miner.candidate().difficulty_target, node.params().next_target(TARGET_X, START_X, START_X + 14));
    assert_eq!(miner.candidate().parent, 1000);
    for nonce in 0..=3u32 {
        assert_eq!(miner.candidate().nonce, nonce);
        assert_eq!(miner.attempt(u64::MAX, 1000, node.params(), START_X - 50), MinerAction::Hash);
    }
    assert_eq!(miner.candidate().nonce, 0);
    assert_eq!(miner.candidate().timestamp, START_X);
    assert_eq!(miner.candidate().difficulty_target, TARGET_X / 2);
}

#[test]
fn a_search_is_given_up_when_the_tip_moves() {
    let mut node = Node::new(genesis_x(), params_x(3), 10).unwrap();
    let mut miner = Miner::new(vec![]);
    miner.start();
    miner.assemble(&node, START_X + 10);
    assert_eq!(miner.attempt(u64::MAX, 1000, node.params(), START_X + 10), MinerAction::Hash);
    let arrived = line_x(&genesis_x(), 2000, 1).remove(0);
    assert_eq!(node.apply_block(arrived, NOW_X), BlockOutcome::Committed);
    let tip = node.ledger().current_digest();
    assert_eq!(miner.attempt(5, tip, node.params(), START_X + 11), MinerAction::Assemble);
    assert_eq!(miner.phase(), MinerPhase::Idle);
    assert!(miner.submit(&mut node, NOW_X).is_none());
    assert_eq!(node.ledger().height(), 1);
    assert_eq!(miner.assemble(&node, START_X + 20), MinerAction::Hash);
    assert_eq!(miner.candidate().parent, 2000);
    assert_eq!(miner.attempt(5, tip, node.params(), START_X + 20), MinerAction::Submit);
    let mined = miner.submit(&mut node, NOW_X).unwrap();
    assert_eq!(mined.parent, 2000);
    assert_eq!(node.ledger().height(), 2);
}

#[test]
fn a_solved_candidate_on_a_stale_tip_is_not_committed() {
    let mut node = Node::new(genesis_x(), params_x(3), 10).unwrap();
    let mut miner = Miner::new(vec![]);
    miner.start();
    miner.assemble(&node, START_X + 10);
    assert_eq!(miner.attempt(5, 1000, node.params(), START_X + 10), MinerAction::Submit);
    let arrived = line_x(&genesis_x(), 2000, 1).remove(0);
    assert_eq!(node.apply_block(arrived, NOW_X), BlockOutcome::Committed);
    assert!(miner.submit(&mut node, NOW_X).is_none());
    assert_eq!(miner.phase(), MinerPhase::Idle);
    assert_eq!(node.ledger().height(), 1);
    assert_eq!(node.ledger().current_digest(), 2000);
}
