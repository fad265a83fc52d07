use dpc_node::consensus::{
    check_transaction, fits_block, validate_block, validate_body, validate_transaction,
    RejectReason, Verdict,
};
use dpc_node::ledger::Ledger;
use dpc_node::params::{work_of, ConsensusParameters, DIGEST_SPACE, MAX_FUTURE_DRIFT};
use dpc_node::types::{Block, Transaction, BLOCK_HEADER_SIZE};

const TARGET_C: u64 = (1 << 40) - 1;
const START_C: i64 = 1_000_000;

fn params_c() -> ConsensusParameters {
    ConsensusParameters::new(1_000, 1_000, 10).unwrap()
}

fn transfer_c(id: u64, serials: Vec<u64>, commitments: Vec<u64>, inputs: Vec<u64>) -> Transaction {
    Transaction {
        id,
        serial_numbers: serials,
        commitments,
        inputs,
        fee: 2,
        size: 100,
        proof_verified: true,
    }
}

fn ledger_c() -> Ledger {
    let genesis = Block {
        parent: 0,
        digest: 1000,
        timestamp: START_C,
        nonce: 0,
        difficulty_target: TARGET_C,
        transactions: vec![transfer_c(1, vec![50], vec![10, 11, 12], vec![])],
    };
    Ledger::new(genesis).unwrap()
}

fn child_c(ledger: &Ledger, digest: u64, transactions: Vec<Transaction>) -> Block {
    let tip = ledger.tip();
    Block {
        parent: tip.digest,
        digest,
        timestamp: tip.timestamp + 10,
        nonce: 7,
        difficulty_target: tip.difficulty_target,
        transactions,
    }
}

#[test]
fn a_sound_transaction_is_accepted() {
    let ledger = ledger_c();
    let tx = transfer_c(2, vec![51, 52], vec![20], vec![10, 12]);
    assert_eq!(validate_transaction(&tx, &ledger), Verdict::Accept);
    let free = Transaction { fee: 0, ..transfer_c(3, vec![], vec![], vec![]) };
    assert_eq!(validate_transaction(&free, &ledger), Verdict::Accept);
}

#[test]
fn a_transaction_is_rejected_for_the_first_rule_it_breaks() {
    let ledger = ledger_c();
    let unproved = Transaction {
        proof_verified: false,
        fee: -1,
        ..transfer_c(2, vec![50], vec![], vec![99])
    };
    assert_eq!(validate_transaction(&unproved, &ledger), Verdict::Reject(RejectReason::InvalidProof));
    let spent = Transaction { fee: -1, ..transfer_c(2, vec![51, 50], vec![], vec![99]) };
    assert_eq!(validate_transaction(&spent, &ledger), Verdict::Reject(RejectReason::DoubleSpend));
    let twice = transfer_c(2, vec![51, 52, 51], vec![], vec![10]);
    assert_eq!(validate_transaction(&twice, &ledger), Verdict::Reject(RejectReason::DoubleSpend));
    let unknown = Transaction { fee: -1, ..transfer_c(2, vec![51], vec![], vec![10, 99]) };
    assert_eq!(
        validate_transaction(&unknown, &ledger),
        Verdict::Reject(RejectReason::UnknownCommitment)
    );
    let owing = Transaction { fee: -1, ..transfer_c(2, vec![51], vec![], vec![10]) };
    assert_eq!(validate_transaction(&owing, &ledger), Verdict::Reject(RejectReason::NegativeFee));
}

#[test]
fn check_transaction_reads_both_lists() {
    let tx = transfer_c(2, vec![5], vec![], vec![8]);
    let none: Vec<u64> = vec![];
    assert_eq!(check_transaction(&tx, &none, &none, &vec![8], &none), Verdict::Accept);
    assert_eq!(check_transaction(&tx, &none, &none, &none, &vec![7, 8]), Verdict::Accept);
    assert_eq!(
        check_transaction(&tx, &none, &none, &vec![7], &none),
        Verdict::Reject(RejectReason::UnknownCommitment)
    );
    assert_eq!(
        check_transaction(&tx, &vec![5], &none, &vec![8], &none),
        Verdict::Reject(RejectReason::DoubleSpend)
    );
    assert_eq!(
        check_transaction(&tx, &none, &vec![4, 5], &vec![8], &none),
        Verdict::Reject(RejectReason::DoubleSpend)
    );
}

#[test]
fn a_sound_block_is_accepted() {
    let ledger = ledger_c();
    let block = child_c(
        &ledger,
        1001,
        vec![
            transfer_c(2, vec![51], vec![20], vec![10]),
            transfer_c(3, vec![52], vec![21], vec![20, 11]),
        ],
    );
    assert_eq!(validate_block(&block, &ledger, &params_c(), START_C), Verdict::Accept);
    let empty = child_c(&ledger, 1001, vec![]);
    assert_eq!(validate_block(&empty, &ledger, &params_c(), START_C), Verdict::Accept);
}

#[test]
fn a_block_is_held_to_each_rule_of_the_header() {
    let ledger = ledger_c();
    let params = params_c();
    let sound = child_c(&ledger, 1001, vec![]);
    let verdict = |block: &Block| validate_block(block, &ledger, &params, START_C);
    assert_eq!(
        verdict(&Block { parent: 999, ..sound.clone() }),
        Verdict::Reject(RejectReason::WrongParent)
    );
    assert_eq!(
        verdict(&Block { digest: 1000, ..sound.clone() }),
        Verdict::Reject(RejectReason::DuplicateBlock)
    );
    assert_eq!(
        verdict(&Block { nonce: 1_001, ..sound.clone() }),
        Verdict::Reject(RejectReason::NonceOutOfRange)
    );
    assert_eq!(verdict(&Block { nonce: 1_000, ..sound.clone() }), Verdict::Accept);
    assert_eq!(
        verdict(&Block { difficulty_target: TARGET_C + 1, ..sound.clone() }),
        Verdict::Reject(RejectReason::WrongDifficulty)
    );
    assert_eq!(
        verdict(&Block { digest: TARGET_C + 1, ..sound.clone() }),
        Verdict::Reject(RejectReason::InsufficientWork)
    );
    assert_eq!(verdict(&Block { digest: TARGET_C, ..sound.clone() }), Verdict::Accept);
    let older = Block {
        timestamp: START_C - 1,
        difficulty_target: TARGET_C / 2,
        ..sound.clone()
    };
    assert_eq!(verdict(&older), Verdict::Reject(RejectReason::TimestampBeforeParent));
}

#[test]
fn a_block_may_be_ahead_of_the_clock_by_the_drift_and_no_more() {
    let ledger = ledger_c();
    let params = params_c();
    let block = child_c(&ledger, 1001, vec![]);
    let at = block.timestamp;
    assert_eq!(validate_block(&block, &ledger, &params, at - MAX_FUTURE_DRIFT), Verdict::Accept);
    assert_eq!(
        validate_block(&block, &ledger, &params, at - MAX_FUTURE_DRIFT - 1),
        Verdict::Reject(RejectReason::TimestampTooFarAhead)
    );
    assert_eq!(validate_block(&block, &ledger, &params, i64::MAX), Verdict::Accept);
    assert_eq!(MAX_FUTURE_DRIFT, 7200);
}

#[test]
fn a_block_is_held_to_the_size_limit() {
    let ledger = ledger_c();
    let params = params_c();
    let sized = |size: usize| Transaction { size, ..transfer_c(2, vec![51], vec![], vec![]) };
    let fitting = child_c(&ledger, 1001, vec![sized(1_000 - BLOCK_HEADER_SIZE)]);
    assert_eq!(validate_block(&fitting, &ledger, &params, START_C), Verdict::Accept);
    let larger = child_c(&ledger, 1001, vec![sized(1_000 - BLOCK_HEADER_SIZE + 1)]);
    assert_eq!(
        validate_block(&larger, &ledger, &params, START_C),
        Verdict::Reject(RejectReason::Oversized)
    );
    let huge = child_c(
        &ledger,
        1001,
        vec![sized(usize::MAX), Transaction { id: 3, serial_numbers: vec![], ..sized(usize::MAX) }],
    );
    assert_eq!(
        validate_block(&huge, &ledger, &params, START_C),
        Verdict::Reject(RejectReason::Oversized)
    );
}

#[test]
fn fits_block_counts_the_header() {
    assert_eq!(BLOCK_HEADER_SIZE, 36);
    let sized = |size: usize| Transaction { size, ..transfer_c(2, vec![], vec![], vec![]) };
    assert!(fits_block(&vec![], 36));
    assert!(!fits_block(&vec![], 35));
    assert!(fits_block(&vec![sized(10), sized(20)], 66));
    assert!(!fits_block(&vec![sized(10), sized(20)], 65));
    assert!(!fits_block(&vec![sized(usize::MAX), sized(1)], usize::MAX));
}

#[test]
fn transactions_of_a_block_are_validated_in_turn() {
    let ledger = ledger_c();
    let params = params_c();
    let respent = child_c(
        &ledger,
        1001,
        vec![transfer_c(2, vec![51], vec![], vec![]), transfer_c(3, vec![51], vec![], vec![])],
    );
    assert_eq!(
        validate_block(&respent, &ledger, &params, START_C),
        Verdict::Reject(RejectReason::DoubleSpend)
    );
    let early = child_c(
        &ledger,
        1001,
        vec![transfer_c(2, vec![51], vec![], vec![20]), transfer_c(3, vec![52], vec![20], vec![])],
    );
    assert_eq!(
        validate_block(&early, &ledger, &params, START_C),
        Verdict::Reject(RejectReason::UnknownCommitment)
    );
    let first_fails = vec![
        Transaction { fee: -5, ..transfer_c(2, vec![51], vec![], vec![]) },
        Transaction { proof_verified: false, ..transfer_c(3, vec![52], vec![], vec![]) },
    ];
    assert_eq!(validate_body(&first_fails, &ledger), Verdict::Reject(RejectReason::NegativeFee));
    assert_eq!(validate_body(&vec![], &ledger), Verdict::Accept);
}

#[test]
fn the_target_follows_the_time_between_blocks() {
    let params = params_c();
    assert_eq!(params.next_target(1_000, 100, 110), 1_000);
    assert_eq!(params.next_target(1_000, 100, 115), 1_500);
    assert_eq!(params.next_target(1_000, 100, 120), 2_000);
    assert_eq!(params.next_target(1_000, 100, 500), 2_000);
    assert_eq!(params.next_target(1_000, 100, 107), 700);
    assert_eq!(params.next_target(1_000, 100, 105), 500);
    assert_eq!(params.next_target(1_000, 100, 100), 500);
    assert_eq!(params.next_target(1_000, 100, 50), 500);
    assert_eq!(params.next_target(1_001, 100, 105), 500);
    assert_eq!(params.next_target(TARGET_C, 100, 105), (1 << 39) - 1);
}

#[test]
fn the_target_stays_within_one_and_the_largest_digest() {
    let params = params_c();
    assert_eq!(params.next_target(1, 100, 105), 1);
    assert_eq!(params.next_target(0, 100, 110), 1);
    assert_eq!(params.next_target(u64::MAX, 100, 120), u64::MAX);
    assert_eq!(params.next_target(u64::MAX, 100, 110), u64::MAX);
    assert_eq!(params.next_target(u64::MAX, i64::MIN, i64::MAX), u64::MAX);
    assert_eq!(params.next_target(1_000, i64::MAX, i64::MIN), 500);
    let slow = ConsensusParameters::new(1, 1, 1).unwrap();
    assert_eq!(slow.next_target(1_000, 100, 100), 1);
    assert_eq!(slow.next_target(1_000, 100, 101), 1_000);
    assert_eq!(slow.next_target(1_000, 100, 109), 2_000);
    let wide = ConsensusParameters::new(1, 1, i64::MAX).unwrap();
    assert_eq!(wide.next_target(7, 0, i64::MAX), 7);
    assert_eq!(wide.next_target(8, 0, 0), 3);
}

#[test]
fn work_is_the_digest_space_over_the_digests_that_qualify() {
    assert_eq!(DIGEST_SPACE, 1u128 << 64);
    assert_eq!(work_of(0), 1u128 << 64);
    assert_eq!(work_of(1), 1u128 << 63);
    assert_eq!(work_of(2), (1u128 << 64) / 3);
    assert_eq!(work_of(TARGET_C), 1 << 24);
    assert_eq!(work_of(u64::MAX), 1);
    assert_eq!(work_of(u64::MAX / 2), 2);
}

#[test]
fn parameters_need_a_positive_block_time() {
    assert!(ConsensusParameters::new(10, 10, 0).is_none());
    assert!(ConsensusParameters::new(10, 10, -5).is_none());
    let made = ConsensusParameters::new(10, 11, 12).unwrap();
    assert_eq!(made.max_block_size(), 10);
    assert_eq!(made.max_nonce(), 11);
    assert_eq!(made.target_block_time(), 12);
    let standard = ConsensusParameters::standard();
    assert_eq!(standard.max_block_size(), 1_000_000_000);
    assert_eq!(standard.max_nonce(), u32::MAX);
    assert_eq!(standard.target_block_time(), 10);
}

#[test]
fn a_block_may_carry_the_time_of_its_parent() {
    let ledger = ledger_c();
    let params = params_c();
    let same_time = Block {
        timestamp: START_C,
        difficulty_target: TARGET_C / 2,
        ..child_c(&ledger, 1001, vec![])
    };
    assert_eq!(validate_block(&same_time, &ledger, &params, START_C), Verdict::Accept);
    assert_eq!(validate_block(&same_time, &ledger, &params, START_C - 7_200), Verdict::Accept);
    assert_eq!(
        validate_block(&same_time, &ledger, &params, i64::MIN),
        Verdict::Reject(RejectReason::TimestampTooFarAhead)
    );
    let unretargeted = Block { difficulty_target: TARGET_C, ..same_time };
    assert_eq!(
        validate_block(&unretargeted, &ledger, &params, START_C),
        Verdict::Reject(RejectReason::WrongDifficulty)
    );
}

#[test]
fn the_header_is_judged_before_the_transactions() {
    let ledger = ledger_c();
    let params = params_c();
    let spent = transfer_c(2, vec![50], vec![], vec![]);
    let block = Block { nonce: 5_000, ..child_c(&ledger, 1001, vec![spent.clone()]) };
    assert_eq!(
        validate_block(&block, &ledger, &params, START_C),
        Verdict::Reject(RejectReason::NonceOutOfRange)
    );
    let block = child_c(&ledger, 1001, vec![spent]);
    assert_eq!(
        validate_block(&block, &ledger, &params, START_C),
        Verdict::Reject(RejectReason::DoubleSpend)
    );
}
