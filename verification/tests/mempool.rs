use dpc_node::consensus::RejectReason;
use dpc_node::ledger::Ledger;
use dpc_node::mempool::{ranks_above, Admission, Mempool};
use dpc_node::types::{Block, Transaction};

fn ledger_m() -> Ledger {
    let genesis = Block {
        parent: 0,
        digest: 1000,
        timestamp: 0,
        nonce: 0,
        difficulty_target: u64::MAX,
        transactions: vec![Transaction {
            id: 1,
            serial_numbers: vec![900],
            commitments: vec![10, 11, 12],
            inputs: vec![],
            fee: 0,
            size: 10,
            proof_verified: true,
        }],
    };
    Ledger::new(genesis).unwrap()
}

fn offer_m(id: u64, serials: Vec<u64>, fee: i64, size: usize) -> Transaction {
    Transaction {
        id,
        serial_numbers: serials,
        commitments: vec![],
        inputs: vec![10],
        fee,
        size,
        proof_verified: true,
    }
}

fn ids_m(pool: &Mempool, ledger: &Ledger) -> Vec<u64> {
    pool.candidates(ledger, usize::MAX).iter().map(|t| t.id).collect()
}

#[test]
fn the_pool_is_kept_by_descending_fee_per_byte() {
    let ledger = ledger_m();
    let mut pool = Mempool::new(10);
    assert_eq!(pool.try_admit(offer_m(1, vec![1], 10, 10), &ledger), Admission::Admitted);
    assert_eq!(pool.try_admit(offer_m(2, vec![2], 30, 10), &ledger), Admission::Admitted);
    assert_eq!(pool.try_admit(offer_m(3, vec![3], 20, 10), &ledger), Admission::Admitted);
    assert_eq!(pool.try_admit(offer_m(4, vec![4], 100, 200), &ledger), Admission::Admitted);
    assert_eq!(pool.try_admit(offer_m(5, vec![5], 3, 2), &ledger), Admission::Admitted);
    assert_eq!(pool.len(), 5);
    assert_eq!(pool.capacity(), 10);
    assert_eq!(ids_m(&pool, &ledger), vec![2, 3, 5, 1, 4]);
}

#[test]
fn equal_fees_per_byte_are_ordered_by_identifier() {
    let ledger = ledger_m();
    let mut pool = Mempool::new(10);
    for (id, fee, size) in [(9u64, 10i64, 5usize), (3, 2, 1), (7, 4, 2), (1, 6, 3)] {
        assert_eq!(pool.try_admit(offer_m(id, vec![id], fee, size), &ledger), Admission::Admitted);
    }
    assert_eq!(ids_m(&pool, &ledger), vec![1, 3, 7, 9]);
}

#[test]
fn ranking_weighs_fees_by_cross_multiplication() {
    assert!(ranks_above(&offer_m(1, vec![], 3, 2), &offer_m(2, vec![], 4, 3)));
    assert!(!ranks_above(&offer_m(2, vec![], 4, 3), &offer_m(1, vec![], 3, 2)));
    assert!(ranks_above(&offer_m(1, vec![], 2, 4), &offer_m(2, vec![], 1, 2)));
    assert!(!ranks_above(&offer_m(2, vec![], 1, 2), &offer_m(1, vec![], 2, 4)));
    assert!(!ranks_above(&offer_m(1, vec![], 2, 4), &offer_m(1, vec![], 1, 2)));
    assert!(ranks_above(&offer_m(1, vec![], 1, 0), &offer_m(2, vec![], 1, 2)));
    assert!(!ranks_above(&offer_m(2, vec![], 1, 1), &offer_m(1, vec![], 1, 0)));
    assert!(ranks_above(&offer_m(1, vec![], 1, 0), &offer_m(2, vec![], 1, 1)));
    assert!(ranks_above(
        &offer_m(1, vec![], i64::MAX, usize::MAX),
        &offer_m(2, vec![], i64::MAX - 1, usize::MAX)
    ));
    assert!(ranks_above(
        &offer_m(1, vec![], i64::MIN + 1, usize::MAX),
        &offer_m(2, vec![], i64::MIN, usize::MAX)
    ));
    assert!(ranks_above(&offer_m(1, vec![], i64::MAX, 1), &offer_m(2, vec![], i64::MIN, usize::MAX)));
}

#[test]
fn a_transaction_that_does_not_validate_is_turned_down() {
    let ledger = ledger_m();
    let mut pool = Mempool::new(10);
    let spent = offer_m(2, vec![900], 5, 5);
    assert_eq!(pool.try_admit(spent, &ledger), Admission::Rejected(RejectReason::DoubleSpend));
    let unproved = Transaction { proof_verified: false, ..offer_m(2, vec![1], 5, 5) };
    assert_eq!(pool.try_admit(unproved, &ledger), Admission::Rejected(RejectReason::InvalidProof));
    let unknown = Transaction { inputs: vec![99], ..offer_m(2, vec![1], 5, 5) };
    assert_eq!(
        pool.try_admit(unknown, &ledger),
        Admission::Rejected(RejectReason::UnknownCommitment)
    );
    let owing = offer_m(2, vec![1], -1, 5);
    assert_eq!(pool.try_admit(owing, &ledger), Admission::Rejected(RejectReason::NegativeFee));
    assert_eq!(pool.len(), 0);
}

#[test]
fn a_pooled_identifier_or_serial_number_is_turned_down() {
    let ledger = ledger_m();
    let mut pool = Mempool::new(10);
    assert_eq!(pool.try_admit(offer_m(1, vec![1, 2], 5, 5), &ledger), Admission::Admitted);
    assert_eq!(
        pool.try_admit(offer_m(1, vec![3], 50, 5), &ledger),
        Admission::Rejected(RejectReason::AlreadyPooled)
    );
    assert_eq!(
        pool.try_admit(offer_m(2, vec![3, 2], 50, 5), &ledger),
        Admission::Rejected(RejectReason::PoolConflict)
    );
    assert_eq!(pool.try_admit(offer_m(2, vec![3], 50, 5), &ledger), Admission::Admitted);
    assert_eq!(ids_m(&pool, &ledger), vec![2, 1]);
    assert_eq!(pool.position(1), Some(1));
    assert_eq!(pool.position(2), Some(0));
    assert_eq!(pool.position(3), None);
    assert_eq!(pool.get(1).unwrap().serial_numbers, vec![1, 2]);
    assert!(pool.get(3).is_none());
}

#[test]
fn a_full_pool_lets_the_lowest_fee_go_for_a_higher_one() {
    let ledger = ledger_m();
    let mut pool = Mempool::new(3);
    assert_eq!(pool.try_admit(offer_m(1, vec![1], 50, 10), &ledger), Admission::Admitted);
    assert_eq!(pool.try_admit(offer_m(2, vec![2], 30, 1), &ledger), Admission::Admitted);
    assert_eq!(pool.try_admit(offer_m(3, vec![3], 40, 10), &ledger), Admission::Admitted);
    assert_eq!(
        pool.try_admit(offer_m(4, vec![4], 30, 1), &ledger),
        Admission::Rejected(RejectReason::CapacityExceeded)
    );
    assert_eq!(
        pool.try_admit(offer_m(4, vec![4], 29, 1), &ledger),
        Admission::Rejected(RejectReason::CapacityExceeded)
    );
    assert_eq!(ids_m(&pool, &ledger), vec![2, 1, 3]);
    assert_eq!(pool.try_admit(offer_m(4, vec![4], 31, 100), &ledger), Admission::Replaced(2));
    assert_eq!(ids_m(&pool, &ledger), vec![1, 3, 4]);
    assert_eq!(pool.len(), 3);
}

#[test]
fn of_equal_lowest_fees_the_one_ranked_last_goes() {
    let ledger = ledger_m();
    let mut pool = Mempool::new(3);
    assert_eq!(pool.try_admit(offer_m(1, vec![1], 10, 1), &ledger), Admission::Admitted);
    assert_eq!(pool.try_admit(offer_m(2, vec![2], 10, 5), &ledger), Admission::Admitted);
    assert_eq!(pool.try_admit(offer_m(3, vec![3], 90, 2), &ledger), Admission::Admitted);
    assert_eq!(ids_m(&pool, &ledger), vec![3, 1, 2]);
    assert_eq!(pool.try_admit(offer_m(4, vec![4], 11, 1), &ledger), Admission::Replaced(2));
    assert_eq!(ids_m(&pool, &ledger), vec![3, 4, 1]);
}

#[test]
fn a_pool_without_room_takes_nothing() {
    let ledger = ledger_m();
    let mut pool = Mempool::new(0);
    assert_eq!(
        pool.try_admit(offer_m(1, vec![1], i64::MAX, 1), &ledger),
        Admission::Rejected(RejectReason::CapacityExceeded)
    );
    assert_eq!(pool.len(), 0);
}

#[test]
fn remove_confirmed_drops_what_a_block_settles() {
    let ledger = ledger_m();
    let mut pool = Mempool::new(10);
    for (id, serials) in [(1u64, vec![1u64]), (2, vec![2, 3]), (3, vec![4]), (4, vec![]), (5, vec![5, 6])] {
        assert_eq!(
            pool.try_admit(offer_m(id, serials, 10 * id as i64, 10), &ledger),
            Admission::Admitted
        );
    }
    let block = Block {
        parent: 1000,
        digest: 1001,
        timestamp: 0,
        nonce: 0,
        difficulty_target: u64::MAX,
        transactions: vec![offer_m(3, vec![4], 30, 10), offer_m(4, vec![], 40, 10), offer_m(77, vec![8, 3], 1, 1)],
    };
    pool.remove_confirmed(&block);
    assert_eq!(ids_m(&pool, &ledger), vec![5, 1]);
    pool.remove_confirmed(&block);
    assert_eq!(ids_m(&pool, &ledger), vec![5, 1]);
}

#[test]
fn after_remove_confirmed_no_pooled_serial_number_is_in_the_block() {
    let ledger = ledger_m();
    let mut pool = Mempool::new(100);
    for id in 1..=40u64 {
        let serials = vec![2 * id, 2 * id + 1];
        assert_eq!(pool.try_admit(offer_m(id, serials, (id % 7) as i64, 3), &ledger), Admission::Admitted);
    }
    let in_block: Vec<u64> = (1..=81).filter(|s| s % 5 == 0).collect();
    let block = Block {
        parent: 1000,
        digest: 1001,
        timestamp: 0,
        nonce: 0,
        difficulty_target: u64::MAX,
        transactions: vec![offer_m(500, in_block.clone(), 1, 1)],
    };
    pool.remove_confirmed(&block);
    let left = pool.candidates(&ledger, usize::MAX);
    assert_eq!(left.len(), pool.len());
    assert!(!left.is_empty());
    for tx in &left {
        for serial in &tx.serial_numbers {
            assert!(!in_block.contains(serial));
        }
    }
    for id in 1..=40u64 {
        let settled = in_block.contains(&(2 * id)) || in_block.contains(&(2 * id + 1));
        assert_eq!(pool.position(id).is_some(), !settled);
    }
}

#[test]
fn candidates_fill_the_budget_in_order_and_skip_what_does_not_fit() {
    let ledger = ledger_m();
    let mut pool = Mempool::new(10);
    assert_eq!(pool.try_admit(offer_m(1, vec![1], 100, 50), &ledger), Admission::Admitted);
    assert_eq!(pool.try_admit(offer_m(2, vec![2], 90, 60), &ledger), Admission::Admitted);
    assert_eq!(pool.try_admit(offer_m(3, vec![3], 30, 30), &ledger), Admission::Admitted);
    assert_eq!(pool.try_admit(offer_m(4, vec![4], 10, 20), &ledger), Admission::Admitted);
    let taken = |budget: usize| -> Vec<u64> {
        pool.candidates(&ledger, budget).iter().map(|t| t.id).collect()
    };
    assert_eq!(taken(1_000), vec![1, 2, 3, 4]);
    assert_eq!(taken(160), vec![1, 2, 3, 4]);
    assert_eq!(taken(159), vec![1, 2, 3]);
    assert_eq!(taken(100), vec![1, 3, 4]);
    assert_eq!(taken(59), vec![1]);
    assert_eq!(taken(49), vec![3]);
    assert_eq!(taken(19), Vec::<u64>::new());
    assert_eq!(taken(0), Vec::<u64>::new());
    let copies = pool.candidates(&ledger, 50);
    assert_eq!(copies[0].serial_numbers, vec![1]);
    assert_eq!(copies[0].inputs, vec![10]);
    assert_eq!(copies[0].fee, 100);
    assert_eq!(pool.len(), 4);
}

#[test]
fn candidates_skip_what_no_longer_validates() {
    let mut ledger = ledger_m();
    let mut pool = Mempool::new(10);
    assert_eq!(pool.try_admit(offer_m(1, vec![1], 100, 50), &ledger), Admission::Admitted);
    assert_eq!(pool.try_admit(offer_m(2, vec![2], 90, 60), &ledger), Admission::Admitted);
    let block = Block {
        parent: 1000,
        digest: 1001,
        timestamp: 10,
        nonce: 0,
        difficulty_target: u64::MAX,
        transactions: vec![offer_m(9, vec![1], 1, 1)],
    };
    let params = dpc_node::params::ConsensusParameters::new(1_000, 10, 10).unwrap();
    assert_eq!(ledger.commit(block, &params, 0), Ok(()));
    assert_eq!(ids_m(&pool, &ledger), vec![2]);
    assert_eq!(pool.len(), 2);
    pool.revalidate(&ledger);
    assert_eq!(pool.len(), 1);
    assert_eq!(pool.position(2), Some(0));
}

#[test]
fn readmit_offers_each_transaction_in_turn() {
    let ledger = ledger_m();
    let mut pool = Mempool::new(2);
    let offers = vec![
        offer_m(1, vec![1], 10, 10),
        offer_m(2, vec![1], 50, 10),
        offer_m(3, vec![900], 50, 10),
        offer_m(4, vec![4], 5, 10),
        offer_m(5, vec![5], 7, 10),
        offer_m(6, vec![6], 7, 10),
    ];
    pool.readmit(&offers, &ledger);
    assert_eq!(ids_m(&pool, &ledger), vec![1, 5]);
}

fn step_m(state: &mut u64) -> u64 {
    *state = state.wrapping_mul(6364136223846793005).wrapping_add(1442695040888963407);
    *state >> 33
}

#[test]
fn a_pool_stays_in_order_without_conflicts_whatever_is_offered() {
    let ledger = ledger_m();
    let mut seed = 7u64;
    for capacity in [1usize, 3, 8, 50] {
        let mut pool = Mempool::new(capacity);
        for _ in 0..400 {
            let id = step_m(&mut seed) % 60;
            let serials: Vec<u64> =
                (0..step_m(&mut seed) % 3).map(|_| step_m(&mut seed) % 40).collect();
            let fee = (step_m(&mut seed) % 50) as i64 - 3;
            let size = (step_m(&mut seed) % 20) as usize;
            let lowest_before = pool
                .candidates(&ledger, usize::MAX)
                .iter()
                .map(|t| t.fee)
                .min();
            let full = pool.len() == capacity;
            let outcome = pool.try_admit(offer_m(id, serials, fee, size), &ledger);
            if let Admission::Replaced(_) = outcome {
                assert!(full);
                assert!(fee > lowest_before.unwrap());
            }
            if outcome == Admission::Rejected(RejectReason::CapacityExceeded) {
                assert!(full);
                assert!(capacity == 0 || fee <= lowest_before.unwrap());
            }
            let held = pool.candidates(&ledger, usize::MAX);
            assert_eq!(held.len(), pool.len());
            assert!(held.len() <= capacity);
            for (i, a) in held.iter().enumerate() {
                assert!(a.fee >= 0);
                for b in held.iter().skip(i + 1) {
                    assert!(ranks_above(a, b));
                    assert!(!ranks_above(b, a));
                    assert_ne!(a.id, b.id);
                    assert!(a.serial_numbers.iter().all(|s| !b.serial_numbers.contains(s)));
                }
            }
            if step_m(&mut seed) % 10 == 0 {
                let block = Block {
                    parent: 1000,
                    digest: 1001,
                    timestamp: 0,
                    nonce: 0,
                    difficulty_target: u64::MAX,
                    transactions: vec![offer_m(step_m(&mut seed) % 60, vec![step_m(&mut seed) % 40], 1, 1)],
                };
                pool.remove_confirmed(&block);
                for tx in pool.candidates(&ledger, usize::MAX) {
                    assert_ne!(tx.id, block.transactions[0].id);
                    assert!(!tx.serial_numbers.contains(&block.transactions[0].serial_numbers[0]));
                }
            }
        }
    }
}

#[test]
fn candidates_never_exceed_the_budget() {
    let ledger = ledger_m();
    let mut seed = 11u64;
    let mut pool = Mempool::new(40);
    for id in 0..40u64 {
        let fee = (step_m(&mut seed) % 90) as i64;
        let size = 1 + (step_m(&mut seed) % 30) as usize;
        assert_eq!(pool.try_admit(offer_m(id, vec![id], fee, size), &ledger), Admission::Admitted);
    }
    let all = pool.candidates(&ledger, usize::MAX);
    for budget in 0..200usize {
        let taken = pool.candidates(&ledger, budget);
        let mut room = budget;
        let mut expected: Vec<u64> = Vec::new();
        for tx in &all {
            if tx.size <= room {
                room -= tx.size;
                expected.push(tx.id);
            }
        }
        assert_eq!(taken.iter().map(|t| t.id).collect::<Vec<u64>>(), expected);
        assert!(taken.iter().map(|t| t.size).sum::<usize>() <= budget);
    }
}
