use dpc_node::mempool::Admission;
use dpc_node::miner::{Miner, MinerAction, MinerPhase};
use dpc_node::node::Node;
use dpc_node::params::ConsensusParameters;
use dpc_node::types::{Block, Transaction, BLOCK_HEADER_SIZE};

const TARGET_W: u64 = (1 << 40) - 1;
const START_W: i64 = 1_000_000;

fn params_w(max_nonce: u32) -> ConsensusParameters {
    ConsensusParameters::new(BLOCK_HEADER_SIZE + 250, max_nonce, 10).unwrap()
}

fn offer_w(id: u64, serial: u64, fee: i64, size: usize) -> Transaction {
    Transaction {
        id,
        serial_numbers: vec![serial],
        commitments: vec![100 + id],
        inputs: vec![10],
        fee,
        size,
        proof_verified: true,
    }
}

fn node_w(max_nonce: u32) -> Node {
    let genesis = Block {
        parent: 0,
        digest: 1000,
        timestamp: START_W,
        nonce: 0,
        difficulty_target: TARGET_W,
        transactions: vec![Transaction {
            id: 1,
            serial_numbers: vec![],
            commitments: vec![10],
            inputs: vec![],
            fee: 0,
            size: 10,
            proof_verified: true,
        }],
    };
    let mut node = Node::new(genesis, params_w(max_nonce), 10).unwrap();
    assert_eq!(node.submit_transaction(offer_w(2, 52, 10, 100)), Admission::Admitted);
    assert_eq!(node.submit_transaction(offer_w(3, 53, 30, 100)), Admission::Admitted);
    assert_eq!(node.submit_transaction(offer_w(4, 54, 20, 100)), Admission::Admitted);
    assert_eq!(node.submit_transaction(offer_w(5, 55, 1, 50)), Admission::Admitted);
    node
}

#[test]
fn a_miner_that_is_switched_off_does_nothing() {
    let mut node = node_w(100);
    let mut miner = Miner::new(vec![7; 32]);
    assert_eq!(miner.phase(), MinerPhase::Stopped);
    assert_eq!(miner.address(), &vec![7; 32]);
    assert_eq!(miner.assemble(&node, START_W + 10), MinerAction::Rest);
    assert_eq!(miner.attempt(1, 1000, node.params(), START_W + 10), MinerAction::Rest);
    assert!(miner.submit(&mut node, START_W + 10).is_none());
    assert_eq!(miner.phase(), MinerPhase::Stopped);
    assert_eq!(node.ledger().height(), 0);
}

#[test]
fn start_and_stop_switch_the_miner() {
    let node = node_w(100);
    let mut miner = Miner::new(vec![]);
    assert_eq!(miner.start(), MinerAction::Assemble);
    assert_eq!(miner.phase(), MinerPhase::Idle);
    assert_eq!(miner.start(), MinerAction::Assemble);
    assert_eq!(miner.attempt(1, 1000, node.params(), START_W), MinerAction::Assemble);
    assert_eq!(miner.assemble(&node, START_W), MinerAction::Hash);
    assert_eq!(miner.phase(), MinerPhase::Searching);
    assert_eq!(miner.start(), MinerAction::Hash);
    miner.stop();
    assert_eq!(miner.phase(), MinerPhase::Stopped);
    assert_eq!(miner.attempt(1, 1000, node.params(), START_W), MinerAction::Rest);
    assert_eq!(miner.start(), MinerAction::Assemble);
}

#[test]
fn the_candidate_stands_on_the_tip_with_the_best_paying_transactions() {
    let node = node_w(100);
    let mut miner = Miner::new(vec![]);
    miner.start();
    assert_eq!(miner.assemble(&node, START_W + 15), MinerAction::Hash);
    let candidate = miner.candidate();
    assert_eq!(candidate.parent, 1000);
    assert_eq!(candidate.timestamp, START_W + 15);
    assert_eq!(candidate.nonce, 0);
    assert_eq!(candidate.difficulty_target, TARGET_W / 2 * 3 + 1);
    let ids: Vec<u64> = candidate.transactions.iter().map(|t| t.id).collect();
    assert_eq!(ids, vec![3, 4, 5]);
}

#[test]
fn a_candidate_is_not_made_before_its_parent() {
    let node = node_w(100);
    let mut miner = Miner::new(vec![]);
    miner.start();
    miner.assemble(&node, START_W - 500);
    assert_eq!(miner.candidate().timestamp, START_W);
    assert_eq!(miner.candidate().difficulty_target, TARGET_W / 2);
}

#[test]
fn parameters_without_room_for_a_header_leave_the_candidate_empty() {
    let genesis = Block {
        parent: 0,
        digest: 1000,
        timestamp: START_W,
        nonce: 0,
        difficulty_target: TARGET_W,
        transactions: vec![],
    };
    let mut node = Node::new(genesis, ConsensusParameters::new(10, 5, 10).unwrap(), 10).unwrap();
    let free = Transaction { inputs: vec![], size: 0, ..offer_w(2, 52, 10, 0) };
    assert_eq!(node.submit_transaction(free), Admission::Admitted);
    let mut miner = Miner::new(vec![]);
    miner.start();
    miner.assemble(&node, START_W);
    assert_eq!(miner.candidate().transactions.len(), 1);
    let sized = Transaction { inputs: vec![], ..offer_w(3, 53, 10, 1) };
    assert_eq!(node.submit_transaction(sized), Admission::Admitted);
    miner.assemble(&node, START_W);
    assert_eq!(miner.candidate().transactions.len(), 1);
    assert_eq!(miner.candidate().transactions[0].id, 2);
}

#[test]
fn the_search_moves_from_nonce_to_nonce_until_a_digest_meets_the_target() {
    let mut node = node_w(100);
    let mut miner = Miner::new(vec![]);
    miner.start();
    miner.assemble(&node, START_W + 10);
    let now = START_W + 11;
    for nonce in 0..5u32 {
        assert_eq!(miner.candidate().nonce, nonce);
        assert_eq!(miner.attempt(TARGET_W + 1 + nonce as u64, 1000, node.params(), now), MinerAction::Hash);
        assert_eq!(miner.phase(), MinerPhase::Searching);
    }
    assert_eq!(miner.candidate().timestamp, START_W + 10);
    assert_eq!(miner.attempt(TARGET_W, 1000, node.params(), now), MinerAction::Submit);
    assert_eq!(miner.phase(), MinerPhase::Found);
    assert_eq!(miner.candidate().nonce, 5);
    assert_eq!(miner.candidate().digest, TARGET_W);
    assert_eq!(miner.attempt(0, 1000, node.params(), now), MinerAction::Submit);
    assert_eq!(miner.candidate().digest, TARGET_W);
    assert_eq!(miner.assemble(&node, now), MinerAction::Hash);
    assert_eq!(miner.attempt(77, 1000, node.params(), now), MinerAction::Submit);
    let mined = miner.submit(&mut node, now).unwrap();
    assert_eq!(mined.digest, 77);
    assert_eq!(mined.nonce, 0);
    assert_eq!(mined.transactions.len(), 3);
    assert_eq!(miner.phase(), MinerPhase::Idle);
    assert_eq!(node.ledger().height(), 1);
    assert_eq!(node.ledger().current_digest(), 77);
    assert_eq!(node.ledger().spent_serials(), &vec![53, 54, 55]);
    assert_eq!(node.pool().len(), 1);
    assert_eq!(node.pool().position(2), Some(0));
    assert!(miner.submit(&mut node, now).is_none());
    assert_eq!(node.ledger().height(), 1);
}

#[test]
fn a_solved_candidate_that_the_node_rejects_is_discarded() {
    let mut node = node_w(100);
    let mut miner = Miner::new(vec![]);
    miner.start();
    miner.assemble(&node, START_W + 10);
    assert_eq!(miner.attempt(1000, 1000, node.params(), START_W + 10), MinerAction::Submit);
    assert!(miner.submit(&mut node, START_W + 10).is_none());
    assert_eq!(miner.phase(), MinerPhase::Idle);
    assert_eq!(node.ledger().height(), 0);
    assert_eq!(node.pool().len(), 4);
    miner.assemble(&node, START_W + 100_000);
    assert_eq!(miner.attempt(5, 1000, node.params(), START_W + 100_000), MinerAction::Submit);
    assert!(miner.submit(&mut node, START_W).is_none());
    assert_eq!(node.ledger().height(), 0);
    miner.assemble(&node, START_W + 100_000);
    assert_eq!(miner.attempt(5, 1000, node.params(), START_W + 100_000), MinerAction::Submit);
    assert!(miner.submit(&mut node, START_W + 100_000 - 7200).is_some());
    assert_eq!(node.ledger().height(), 1);
}
