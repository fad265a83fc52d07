//! The pool of transactions that were validated and wait for a block.
//!
//! The pool is kept in the order in which a miner takes from it: by fee per
//! byte, highest first. No two pooled transactions share an identifier or a
//! serial number.

use crate::consensus::{
    body_verdict, body_verdict_from, check_transaction, tx_verdict, RejectReason, Verdict,
};
use crate::ledger::{chain_commitments, chain_serials, Ledger};
use crate::lists::{
    contains, disjoint, lemma_concat_all_at, lemma_concat_all_contains, lemma_concat_contains,
    lemma_disjoint_symmetric, meets_either,
};
use crate::types::{
    collect_ids, collect_serials, commitments_of, ids_of, lemma_total_size_front, serial_lists,
    serials_of, total_size, transaction_views, Block, BlockView, Transaction, TransactionView,
};
use vstd::prelude::*;

verus! {

/// The bytes that a transaction counts for when fees are weighed: its size,
/// and 1 for an empty one.
pub open spec fn weight(tx: TransactionView) -> int {
    if tx.size == 0 {
        1
    } else {
        tx.size as int
    }
}

/// The fee of `a` over the weight of `b`: fees per byte are weighed against
/// each other by cross-multiplication.
pub open spec fn cross(a: TransactionView, b: TransactionView) -> int {
    a.fee as int * weight(b)
}

/// `a` is taken before `b`: it pays more per byte, or as much under a lower
/// identifier.
pub open spec fn outranks(a: TransactionView, b: TransactionView) -> bool {
    cross(a, b) > cross(b, a) || (cross(a, b) == cross(b, a) && a.id < b.id)
}

/// The two transactions consume a common serial number.
pub open spec fn share_serial(a: TransactionView, b: TransactionView) -> bool {
    !disjoint(a.serial_numbers, b.serial_numbers)
}

/// What every pool satisfies: identifiers are unique, no serial number is
/// claimed twice, by one transaction or by two, and the order is that of
/// descending fee per byte.
pub open spec fn pool_wf(pool: Seq<TransactionView>) -> bool {
    &&& forall|i: int, j: int|
        0 <= i < j < pool.len() ==> (#[trigger] pool[i]).id != (#[trigger] pool[j]).id
    &&& forall|i: int| 0 <= i < pool.len() ==> (#[trigger] pool[i]).serial_numbers.no_duplicates()
    &&& forall|i: int, j: int|
        0 <= i < pool.len() && 0 <= j < pool.len() && i != j ==> !share_serial(
            #[trigger] pool[i],
            #[trigger] pool[j],
        )
    &&& forall|i: int, j: int|
        0 <= i < j < pool.len() ==> outranks(#[trigger] pool[i], #[trigger] pool[j])
}

/// Every pooled transaction validates against `spent` and `known`.
pub open spec fn valid_against(pool: Seq<TransactionView>, spent: Seq<u64>, known: Seq<u64>) -> bool {
    forall|i: int| 0 <= i < pool.len() ==> tx_verdict(#[trigger] pool[i], spent, known) is Accept
}

/// Some pooled transaction has identifier `id`.
pub open spec fn pooled(pool: Seq<TransactionView>, id: u64) -> bool {
    exists|i: int| 0 <= i < pool.len() && (#[trigger] pool[i]).id == id
}

/// Some pooled transaction consumes a serial number of `tx`.
pub open spec fn claimed(pool: Seq<TransactionView>, tx: TransactionView) -> bool {
    exists|i: int| 0 <= i < pool.len() && share_serial(tx, #[trigger] pool[i])
}

/// The place of the first transaction from `start` on that `tx` outranks, or
/// the length of the pool if there is none.
pub open spec fn rank_from(pool: Seq<TransactionView>, tx: TransactionView, start: int) -> int
    decreases pool.len() - start,
{
    if start < 0 || start >= pool.len() {
        pool.len() as int
    } else if outranks(tx, pool[start]) {
        start
    } else {
        rank_from(pool, tx, start + 1)
    }
}

/// The place at which `tx` enters the pool.
pub open spec fn rank_of(pool: Seq<TransactionView>, tx: TransactionView) -> int {
    rank_from(pool, tx, 0)
}

/// The place of the transaction that leaves a full pool: the one with the
/// lowest fee, and of several the one ranked last.
pub open spec fn lowest_fee_index(pool: Seq<TransactionView>) -> int
    decreases pool.len(),
{
    if pool.len() <= 1 {
        0
    } else {
        let before = lowest_fee_index(pool.drop_last());
        if pool.last().fee <= pool[before].fee {
            pool.len() - 1
        } else {
            before
        }
    }
}

/// What becomes of a transaction offered to the pool.
#[derive(PartialEq, Eq, Structural, Clone, Copy, Debug)]
pub enum Admission {
    /// The transaction entered the pool.
    Admitted,
    /// The transaction entered the pool, and the transaction with this
    /// identifier left it.
    Replaced(u64),
    /// The transaction was turned down.
    Rejected(RejectReason),
}

/// What becomes of `tx` offered to `pool` of capacity `capacity`, against
/// the serial numbers `spent` and the commitments `known` of the ledger.
pub open spec fn admission(
    pool: Seq<TransactionView>,
    tx: TransactionView,
    spent: Seq<u64>,
    known: Seq<u64>,
    capacity: usize,
) -> Admission {
    let verdict = tx_verdict(tx, spent, known);
    if verdict is Reject {
        Admission::Rejected(verdict->Reject_0)
    } else if pooled(pool, tx.id) {
        Admission::Rejected(RejectReason::AlreadyPooled)
    } else if claimed(pool, tx) {
        Admission::Rejected(RejectReason::PoolConflict)
    } else if pool.len() < capacity {
        Admission::Admitted
    } else if pool.len() > 0 && tx.fee > pool[lowest_fee_index(pool)].fee {
        Admission::Replaced(pool[lowest_fee_index(pool)].id)
    } else {
        Admission::Rejected(RejectReason::CapacityExceeded)
    }
}

/// The pool with `tx` at its rank.
pub open spec fn with_ranked(pool: Seq<TransactionView>, tx: TransactionView) -> Seq<TransactionView> {
    pool.insert(rank_of(pool, tx), tx)
}

/// The pool after `tx` was offered to it.
pub open spec fn after_admission(
    pool: Seq<TransactionView>,
    tx: TransactionView,
    spent: Seq<u64>,
    known: Seq<u64>,
    capacity: usize,
) -> Seq<TransactionView> {
    match admission(pool, tx, spent, known, capacity) {
        Admission::Admitted => with_ranked(pool, tx),
        Admission::Replaced(_) => with_ranked(pool.remove(lowest_fee_index(pool)), tx),
        Admission::Rejected(_) => pool,
    }
}

/// `tx` is confirmed by `block` or in conflict with it: the block holds a
/// transaction of the same identifier, or one that consumes a serial number
/// of `tx`.
pub open spec fn settled_by(tx: TransactionView, block: BlockView) -> bool {
    ids_of(block.transactions).contains(tx.id) || !disjoint(
        tx.serial_numbers,
        serials_of(block.transactions),
    )
}

/// A transaction that a block neither confirms nor conflicts with shares no
/// serial number and no identifier with any transaction of the block.
pub proof fn lemma_cleared_of_block(tx: TransactionView, block: BlockView, place: int)
    requires
        !settled_by(tx, block),
        0 <= place < block.transactions.len(),
    ensures
        !share_serial(tx, block.transactions[place]),
        tx.id != block.transactions[place].id,
{
    let other = block.transactions[place];
    let parts = serial_lists(block.transactions);
    assert(ids_of(block.transactions)[place] == other.id);
    assert forall|j: int| 0 <= j < tx.serial_numbers.len() implies !other.serial_numbers.contains(
        #[trigger] tx.serial_numbers[j],
    ) by {
        if other.serial_numbers.contains(tx.serial_numbers[j]) {
            let m = choose|m: int|
                0 <= m < other.serial_numbers.len() && other.serial_numbers[m]
                    == tx.serial_numbers[j];
            lemma_concat_all_at(parts, place, m);
            assert(serials_of(block.transactions).contains(tx.serial_numbers[j]));
        }
    }
}

/// The transactions of `pool` that `keep` holds of, in their order.
pub open spec fn retained(
    pool: Seq<TransactionView>,
    keep: spec_fn(TransactionView) -> bool,
) -> Seq<TransactionView>
    decreases pool.len(),
{
    if pool.len() == 0 {
        Seq::empty()
    } else if keep(pool.last()) {
        retained(pool.drop_last(), keep).push(pool.last())
    } else {
        retained(pool.drop_last(), keep)
    }
}

/// Holds of the transactions that `block` neither confirms nor conflicts
/// with.
pub open spec fn clear_of(block: BlockView) -> spec_fn(TransactionView) -> bool {
    |tx: TransactionView| !settled_by(tx, block)
}

/// Holds of the transactions that validate against `spent` and `known`.
pub open spec fn accepted_by(spent: Seq<u64>, known: Seq<u64>) -> spec_fn(TransactionView) -> bool {
    |tx: TransactionView| tx_verdict(tx, spent, known) is Accept
}

/// Holds of the transactions whose identifier is not among `ids`.
pub open spec fn not_among(ids: Seq<u64>) -> spec_fn(TransactionView) -> bool {
    |tx: TransactionView| !ids.contains(tx.id)
}

/// A list of which `keep` holds throughout is retained whole.
pub proof fn lemma_retained_all(pool: Seq<TransactionView>, keep: spec_fn(TransactionView) -> bool)
    requires
        forall|i: int| 0 <= i < pool.len() ==> keep(#[trigger] pool[i]),
    ensures
        retained(pool, keep) == pool,
    decreases pool.len(),
{
    if pool.len() > 0 {
        assert(keep(pool[pool.len() - 1]));
        assert forall|i: int| 0 <= i < pool.drop_last().len() implies keep(
            #[trigger] pool.drop_last()[i],
        ) by {
            assert(keep(pool[i]));
        }
        lemma_retained_all(pool.drop_last(), keep);
        assert(pool.drop_last().push(pool.last()) =~= pool);
    } else {
        assert(pool =~= Seq::<TransactionView>::empty());
    }
}

/// The pooled transactions that `block` neither confirms nor conflicts
/// with, in their order.
pub open spec fn unsettled(pool: Seq<TransactionView>, block: BlockView) -> Seq<TransactionView> {
    retained(pool, clear_of(block))
}

/// The pooled transactions that validate against `spent` and `known`, in
/// their order.
pub open spec fn still_valid(
    pool: Seq<TransactionView>,
    spent: Seq<u64>,
    known: Seq<u64>,
) -> Seq<TransactionView> {
    retained(pool, accepted_by(spent, known))
}

/// The pool after each of `txs` was offered to it in turn.
pub open spec fn after_offers(
    pool: Seq<TransactionView>,
    txs: Seq<TransactionView>,
    spent: Seq<u64>,
    known: Seq<u64>,
    capacity: usize,
) -> Seq<TransactionView>
    decreases txs.len(),
{
    if txs.len() == 0 {
        pool
    } else {
        after_admission(
            after_offers(pool, txs.drop_last(), spent, known, capacity),
            txs.last(),
            spent,
            known,
            capacity,
        )
    }
}

/// The transactions taken for a block from place `start` of the pool on,
/// with `room` bytes left: each one that validates against the ledger and
/// fits is taken, in the pool's order.
pub open spec fn selection_from(
    pool: Seq<TransactionView>,
    start: int,
    room: int,
    spent: Seq<u64>,
    known: Seq<u64>,
) -> Seq<TransactionView>
    decreases pool.len() - start,
{
    if start < 0 || start >= pool.len() {
        Seq::empty()
    } else if tx_verdict(pool[start], spent, known) is Accept && pool[start].size <= room {
        seq![pool[start]] + selection_from(pool, start + 1, room - pool[start].size, spent, known)
    } else {
        selection_from(pool, start + 1, room, spent, known)
    }
}

/// The transactions taken for a block of at most `max_bytes` bytes of
/// transactions.
pub open spec fn selection(
    pool: Seq<TransactionView>,
    max_bytes: usize,
    spent: Seq<u64>,
    known: Seq<u64>,
) -> Seq<TransactionView> {
    selection_from(pool, 0, max_bytes as int, spent, known)
}

/// Of two transactions with different identifiers one outranks the other.
pub proof fn lemma_outranks_total(a: TransactionView, b: TransactionView)
    requires
        a.id != b.id,
    ensures
        outranks(a, b) || outranks(b, a),
{
}

/// Cross-multiplied fractions with positive denominators are ordered
/// transitively.
pub proof fn lemma_cross_order(fa: int, wa: int, fb: int, wb: int, fc: int, wc: int)
    requires
        wa > 0,
        wb > 0,
        wc > 0,
        fa * wb >= fb * wa,
        fb * wc >= fc * wb,
    ensures
        fa * wc >= fc * wa,
        (fa * wb > fb * wa || fb * wc > fc * wb) ==> fa * wc > fc * wa,
{
    assert((fa * wb) * wc >= (fb * wa) * wc) by (nonlinear_arith)
        requires
            fa * wb >= fb * wa,
            wc > 0,
    ;
    assert((fb * wc) * wa >= (fc * wb) * wa) by (nonlinear_arith)
        requires
            fb * wc >= fc * wb,
            wa > 0,
    ;
    assert((fa * wb) * wc == (fa * wc) * wb) by (nonlinear_arith);
    assert((fb * wa) * wc == (fb * wc) * wa) by (nonlinear_arith);
    assert((fc * wb) * wa == (fc * wa) * wb) by (nonlinear_arith);
    assert(fa * wc >= fc * wa) by (nonlinear_arith)
        requires
            (fa * wc) * wb >= (fc * wa) * wb,
            wb > 0,
    ;
    if fa * wb > fb * wa {
        assert((fa * wb) * wc > (fb * wa) * wc) by (nonlinear_arith)
            requires
                fa * wb > fb * wa,
                wc > 0,
        ;
        assert(fa * wc > fc * wa) by (nonlinear_arith)
            requires
                (fa * wc) * wb > (fc * wa) * wb,
                wb > 0,
        ;
    }
    if fb * wc > fc * wb {
        assert((fb * wc) * wa > (fc * wb) * wa) by (nonlinear_arith)
            requires
                fb * wc > fc * wb,
                wa > 0,
        ;
        assert(fa * wc > fc * wa) by (nonlinear_arith)
            requires
                (fa * wc) * wb > (fc * wa) * wb,
                wb > 0,
        ;
    }
}

/// Ranking is transitive.
pub proof fn lemma_outranks_transitive(a: TransactionView, b: TransactionView, c: TransactionView)
    requires
        outranks(a, b),
        outranks(b, c),
    ensures
        outranks(a, c),
{
    lemma_cross_order(
        a.fee as int,
        weight(a),
        b.fee as int,
        weight(b),
        c.fee as int,
        weight(c),
    );
}

/// What the rank of a transaction is: every transaction before it is not
/// outranked by `tx`, and the one at it is.
pub proof fn lemma_rank_from(pool: Seq<TransactionView>, tx: TransactionView, start: int)
    requires
        0 <= start <= pool.len(),
    ensures
        start <= rank_from(pool, tx, start) <= pool.len(),
        forall|i: int| start <= i < rank_from(pool, tx, start) ==> !outranks(tx, #[trigger] pool[i]),
        rank_from(pool, tx, start) < pool.len() ==> outranks(
            tx,
            pool[rank_from(pool, tx, start)],
        ),
    decreases pool.len() - start,
{
    if start < pool.len() && !outranks(tx, pool[start]) {
        lemma_rank_from(pool, tx, start + 1);
    }
}

/// What the transaction that leaves a full pool is: none has a lower fee,
/// and none ranked after it has the same.
pub proof fn lemma_lowest_fee(pool: Seq<TransactionView>)
    requires
        pool.len() > 0,
    ensures
        0 <= lowest_fee_index(pool) < pool.len(),
        forall|i: int|
            0 <= i < pool.len() ==> pool[lowest_fee_index(pool)].fee <= (#[trigger] pool[i]).fee,
        forall|i: int|
            lowest_fee_index(pool) < i < pool.len() ==> pool[lowest_fee_index(pool)].fee < (
            #[trigger] pool[i]).fee,
    decreases pool.len(),
{
    if pool.len() > 1 {
        let shorter = pool.drop_last();
        lemma_lowest_fee(shorter);
        let before = lowest_fee_index(shorter);
        assert forall|i: int| 0 <= i < pool.len() implies pool[lowest_fee_index(pool)].fee <= (
        #[trigger] pool[i]).fee by {
            if i < pool.len() - 1 {
                assert(shorter[i] == pool[i]);
            }
        }
        assert forall|i: int| lowest_fee_index(pool) < i < pool.len() implies pool[lowest_fee_index(
            pool,
        )].fee < (#[trigger] pool[i]).fee by {
            if i < pool.len() - 1 {
                assert(shorter[i] == pool[i]);
            }
        }
    }
}

/// A pool without one of its transactions is a pool.
pub proof fn lemma_remove_keeps_wf(pool: Seq<TransactionView>, at: int)
    requires
        pool_wf(pool),
        0 <= at < pool.len(),
    ensures
        pool_wf(pool.remove(at)),
{
    let less = pool.remove(at);
    assert forall|i: int| 0 <= i < less.len() implies #[trigger] less[i] == pool[if i < at {
        i
    } else {
        i + 1
    }] by {}
    assert forall|i: int, j: int| 0 <= i < j < less.len() implies (#[trigger] less[i]).id != (
    #[trigger] less[j]).id by {
        let pi = if i < at { i } else { i + 1 };
        let pj = if j < at { j } else { j + 1 };
        assert(pool[pi].id != pool[pj].id);
    }
    assert forall|i: int| 0 <= i < less.len() implies (
    #[trigger] less[i]).serial_numbers.no_duplicates() by {
        let pi = if i < at { i } else { i + 1 };
        assert(pool[pi].serial_numbers.no_duplicates());
    }
    assert forall|i: int, j: int|
        0 <= i < less.len() && 0 <= j < less.len() && i != j implies !share_serial(
        #[trigger] less[i],
        #[trigger] less[j],
    ) by {
        let pi = if i < at { i } else { i + 1 };
        let pj = if j < at { j } else { j + 1 };
        assert(!share_serial(pool[pi], pool[pj]));
    }
    assert forall|i: int, j: int| 0 <= i < j < less.len() implies outranks(
        #[trigger] less[i],
        #[trigger] less[j],
    ) by {
        let pi = if i < at { i } else { i + 1 };
        let pj = if j < at { j } else { j + 1 };
        assert(outranks(pool[pi], pool[pj]));
    }
}

/// A pool with a transaction at its rank is a pool, where the transaction
/// brings a new identifier and serial numbers that nobody claims.
pub proof fn lemma_with_ranked_keeps_wf(pool: Seq<TransactionView>, tx: TransactionView)
    requires
        pool_wf(pool),
        !pooled(pool, tx.id),
        !claimed(pool, tx),
        tx.serial_numbers.no_duplicates(),
    ensures
        pool_wf(with_ranked(pool, tx)),
{
    let at = rank_of(pool, tx);
    lemma_rank_from(pool, tx, 0);
    let more = pool.insert(at, tx);
    assert forall|i: int| 0 <= i < more.len() && i != at implies #[trigger] more[i] == pool[if i
        < at {
        i
    } else {
        i - 1
    }] by {}
    assert(more[at] == tx);
    assert forall|i: int, j: int| 0 <= i < j < more.len() implies (#[trigger] more[i]).id != (
    #[trigger] more[j]).id by {
        let pi = if i < at { i } else { i - 1 };
        let pj = if j < at { j } else { j - 1 };
        if i == at {
            assert(pool[pj].id != tx.id);
        } else if j == at {
            assert(pool[pi].id != tx.id);
        } else {
            assert(pool[pi].id != pool[pj].id);
        }
    }
    assert forall|i: int| 0 <= i < more.len() implies (
    #[trigger] more[i]).serial_numbers.no_duplicates() by {
        let pi = if i < at { i } else { i - 1 };
        if i != at {
            assert(pool[pi].serial_numbers.no_duplicates());
        }
    }
    assert forall|i: int, j: int|
        0 <= i < more.len() && 0 <= j < more.len() && i != j implies !share_serial(
        #[trigger] more[i],
        #[trigger] more[j],
    ) by {
        let pi = if i < at { i } else { i - 1 };
        let pj = if j < at { j } else { j - 1 };
        if i == at {
            assert(!share_serial(tx, pool[pj]));
        } else if j == at {
            assert(!share_serial(tx, pool[pi]));
            lemma_disjoint_symmetric(tx.serial_numbers, pool[pi].serial_numbers);
        } else {
            assert(!share_serial(pool[pi], pool[pj]));
        }
    }
    assert forall|i: int, j: int| 0 <= i < j < more.len() implies outranks(
        #[trigger] more[i],
        #[trigger] more[j],
    ) by {
        let pi = if i < at { i } else { i - 1 };
        let pj = if j < at { j } else { j - 1 };
        if i == at {
            if pj > at {
                assert(outranks(pool[at], pool[pj]));
                lemma_outranks_transitive(tx, pool[at], pool[pj]);
            }
        } else if j == at {
            assert(!outranks(tx, pool[pi]));
            assert(pool[pi].id != tx.id);
            lemma_outranks_total(tx, pool[pi]);
        } else {
            assert(outranks(pool[pi], pool[pj]));
        }
    }
}

/// Offering a transaction to a pool leaves a pool, within its capacity, of
/// transactions that validate against the ledger if they did before.
pub proof fn lemma_admission_keeps_wf(
    pool: Seq<TransactionView>,
    tx: TransactionView,
    spent: Seq<u64>,
    known: Seq<u64>,
    capacity: usize,
)
    requires
        pool_wf(pool),
        pool.len() <= capacity,
    ensures
        pool_wf(after_admission(pool, tx, spent, known, capacity)),
        after_admission(pool, tx, spent, known, capacity).len() <= capacity,
        valid_against(pool, spent, known) ==> valid_against(
            after_admission(pool, tx, spent, known, capacity),
            spent,
            known,
        ),
{
    let after = after_admission(pool, tx, spent, known, capacity);
    match admission(pool, tx, spent, known, capacity) {
        Admission::Admitted => {
            lemma_with_ranked_keeps_wf(pool, tx);
            lemma_rank_from(pool, tx, 0);
            let at = rank_of(pool, tx);
            if valid_against(pool, spent, known) {
                assert forall|i: int| 0 <= i < after.len() implies tx_verdict(
                    #[trigger] after[i],
                    spent,
                    known,
                ) is Accept by {
                    if i != at {
                        assert(after[i] == pool[if i < at { i } else { i - 1 }]);
                    }
                }
            }
        },
        Admission::Replaced(_) => {
            lemma_lowest_fee(pool);
            let low = lowest_fee_index(pool);
            let less = pool.remove(low);
            lemma_remove_keeps_wf(pool, low);
            assert forall|i: int| 0 <= i < less.len() implies #[trigger] less[i] == pool[if i
                < low {
                i
            } else {
                i + 1
            }] by {}
            if pooled(less, tx.id) {
                let i = choose|i: int| 0 <= i < less.len() && (#[trigger] less[i]).id == tx.id;
                assert(pool[if i < low { i } else { i + 1 }].id == tx.id);
            }
            if claimed(less, tx) {
                let i = choose|i: int| 0 <= i < less.len() && share_serial(tx, #[trigger] less[i]);
                assert(share_serial(tx, pool[if i < low { i } else { i + 1 }]));
            }
            lemma_with_ranked_keeps_wf(less, tx);
            lemma_rank_from(less, tx, 0);
            let at = rank_of(less, tx);
            if valid_against(pool, spent, known) {
                assert forall|i: int| 0 <= i < after.len() implies tx_verdict(
                    #[trigger] after[i],
                    spent,
                    known,
                ) is Accept by {
                    if i != at {
                        let k = if i < at { i } else { i - 1 };
                        assert(after[i] == less[k]);
                        assert(less[k] == pool[if k < low { k } else { k + 1 }]);
                    }
                }
            }
        },
        Admission::Rejected(_) => {},
    }
}

/// `tx` is one of the pooled transactions from place `start` on.
pub open spec fn pooled_from(pool: Seq<TransactionView>, start: int, tx: TransactionView) -> bool {
    exists|i: int| start <= i < pool.len() && #[trigger] pool[i] == tx
}

/// What the transactions taken for a block are: pooled transactions that
/// validate against the ledger, no two of which consume a common serial
/// number, in the order of descending fee per byte, and of no more bytes
/// together than there is room.
pub proof fn lemma_selection(
    pool: Seq<TransactionView>,
    start: int,
    room: int,
    spent: Seq<u64>,
    known: Seq<u64>,
)
    requires
        pool_wf(pool),
        0 <= start <= pool.len(),
        0 <= room,
    ensures
        forall|j: int|
            0 <= j < selection_from(pool, start, room, spent, known).len() ==> pooled_from(
                pool,
                start,
                #[trigger] selection_from(pool, start, room, spent, known)[j],
            ),
        forall|j: int|
            0 <= j < selection_from(pool, start, room, spent, known).len() ==> tx_verdict(
                #[trigger] selection_from(pool, start, room, spent, known)[j],
                spent,
                known,
            ) is Accept,
        forall|i: int, j: int|
            0 <= i < selection_from(pool, start, room, spent, known).len() && 0 <= j
                < selection_from(pool, start, room, spent, known).len() && i != j ==> !share_serial(
                #[trigger] selection_from(pool, start, room, spent, known)[i],
                #[trigger] selection_from(pool, start, room, spent, known)[j],
            ),
        forall|i: int, j: int|
            0 <= i < j < selection_from(pool, start, room, spent, known).len() ==> outranks(
                #[trigger] selection_from(pool, start, room, spent, known)[i],
                #[trigger] selection_from(pool, start, room, spent, known)[j],
            ),
        total_size(selection_from(pool, start, room, spent, known)) <= room,
    decreases pool.len() - start,
{
    let chosen = selection_from(pool, start, room, spent, known);
    if start < pool.len() {
        let first = pool[start];
        if tx_verdict(first, spent, known) is Accept && first.size <= room {
            let rest = selection_from(pool, start + 1, room - first.size, spent, known);
            lemma_selection(pool, start + 1, room - first.size, spent, known);
            lemma_total_size_front(first, rest);
            assert forall|j: int| 0 <= j < chosen.len() implies pooled_from(
                pool,
                start,
                #[trigger] chosen[j],
            ) by {
                if j > 0 {
                    assert(chosen[j] == rest[j - 1]);
                    assert(pooled_from(pool, start + 1, rest[j - 1]));
                }
            }
            assert forall|j: int| 0 <= j < chosen.len() implies tx_verdict(
                #[trigger] chosen[j],
                spent,
                known,
            ) is Accept by {
                if j > 0 {
                    assert(chosen[j] == rest[j - 1]);
                }
            }
            assert forall|i: int, j: int|
                0 <= i < chosen.len() && 0 <= j < chosen.len() && i != j implies !share_serial(
                #[trigger] chosen[i],
                #[trigger] chosen[j],
            ) by {
                if i > 0 && j > 0 {
                    assert(chosen[i] == rest[i - 1] && chosen[j] == rest[j - 1]);
                } else if i == 0 {
                    assert(chosen[j] == rest[j - 1]);
                    assert(pooled_from(pool, start + 1, rest[j - 1]));
                    let m = choose|m: int| start + 1 <= m < pool.len() && #[trigger] pool[m]
                        == rest[j - 1];
                    assert(!share_serial(pool[start], pool[m]));
                } else {
                    assert(chosen[i] == rest[i - 1]);
                    assert(pooled_from(pool, start + 1, rest[i - 1]));
                    let m = choose|m: int| start + 1 <= m < pool.len() && #[trigger] pool[m]
                        == rest[i - 1];
                    assert(!share_serial(pool[m], pool[start]));
                }
            }
            assert forall|i: int, j: int| 0 <= i < j < chosen.len() implies outranks(
                #[trigger] chosen[i],
                #[trigger] chosen[j],
            ) by {
                assert(chosen[j] == rest[j - 1]);
                if i > 0 {
                    assert(chosen[i] == rest[i - 1]);
                } else {
                    assert(pooled_from(pool, start + 1, rest[j - 1]));
                    let m = choose|m: int| start + 1 <= m < pool.len() && #[trigger] pool[m]
                        == rest[j - 1];
                    assert(outranks(pool[start], pool[m]));
                }
            }
        } else {
            lemma_selection(pool, start + 1, room, spent, known);
            let rest = selection_from(pool, start + 1, room, spent, known);
            assert forall|j: int| 0 <= j < chosen.len() implies pooled_from(
                pool,
                start,
                #[trigger] chosen[j],
            ) by {
                assert(pooled_from(pool, start + 1, rest[j]));
            }
        }
    }
}

/// Transactions that each validate in their place in a block validate as
/// the block's body.
pub proof fn lemma_each_accepted(txs: Seq<TransactionView>, start: int, spent: Seq<u64>, known: Seq<u64>)
    requires
        0 <= start <= txs.len(),
        forall|j: int|
            start <= j < txs.len() ==> tx_verdict(
                #[trigger] txs[j],
                spent + serials_of(txs.take(j)),
                known + commitments_of(txs.take(j)),
            ) is Accept,
    ensures
        body_verdict_from(txs, start, spent, known) is Accept,
    decreases txs.len() - start,
{
    if start < txs.len() {
        assert(tx_verdict(
            txs[start],
            spent + serials_of(txs.take(start)),
            known + commitments_of(txs.take(start)),
        ) is Accept);
        lemma_each_accepted(txs, start + 1, spent, known);
    }
}

/// The transactions taken for a block make a body that the consensus rules
/// accept, of no more bytes than asked for.
pub proof fn lemma_selection_validates(
    pool: Seq<TransactionView>,
    max_bytes: usize,
    spent: Seq<u64>,
    known: Seq<u64>,
)
    requires
        pool_wf(pool),
    ensures
        body_verdict(selection(pool, max_bytes, spent, known), spent, known) is Accept,
        total_size(selection(pool, max_bytes, spent, known)) <= max_bytes,
{
    let chosen = selection(pool, max_bytes, spent, known);
    lemma_selection(pool, 0, max_bytes as int, spent, known);
    assert forall|j: int| 0 <= j < chosen.len() implies tx_verdict(
        #[trigger] chosen[j],
        spent + serials_of(chosen.take(j)),
        known + commitments_of(chosen.take(j)),
    ) is Accept by {
        let tx = chosen[j];
        let before = serials_of(chosen.take(j));
        assert(tx_verdict(tx, spent, known) is Accept);
        assert forall|k: int| 0 <= k < tx.serial_numbers.len() implies !(spent + before).contains(
            #[trigger] tx.serial_numbers[k],
        ) by {
            let x = tx.serial_numbers[k];
            lemma_concat_contains(spent, before, x);
            if before.contains(x) {
                lemma_concat_all_contains(serial_lists(chosen.take(j)), x);
                let i = choose|i: int|
                    0 <= i < serial_lists(chosen.take(j)).len() && (#[trigger] serial_lists(
                        chosen.take(j),
                    )[i]).contains(x);
                assert(chosen[i].serial_numbers.contains(x));
                assert(!share_serial(chosen[j], chosen[i]));
            }
        }
        assert forall|k: int| 0 <= k < tx.inputs.len() implies (known + commitments_of(
            chosen.take(j),
        )).contains(#[trigger] tx.inputs[k]) by {
            lemma_concat_contains(known, commitments_of(chosen.take(j)), tx.inputs[k]);
        }
    }
    lemma_each_accepted(chosen, 0, spent, known);
}

/// Whether `a` is taken before `b`.
pub fn ranks_above(a: &Transaction, b: &Transaction) -> (above: bool)
    ensures
        above == outranks(a@, b@),
{
    let weight_a: i128 = if a.size == 0 { 1 } else { a.size as i128 };
    let weight_b: i128 = if b.size == 0 { 1 } else { b.size as i128 };
    let fee_a: i128 = a.fee as i128;
    let fee_b: i128 = b.fee as i128;
    assert(-0x7fff_ffff_ffff_ffff_ffff_ffff_ffff_ffff <= fee_a * weight_b
        <= 0x7fff_ffff_ffff_ffff_ffff_ffff_ffff_ffff) by (nonlinear_arith)
        requires
            -0x8000_0000_0000_0000 <= fee_a <= 0x7fff_ffff_ffff_ffff,
            1 <= weight_b <= 0xffff_ffff_ffff_ffff,
    ;
    assert(-0x7fff_ffff_ffff_ffff_ffff_ffff_ffff_ffff <= fee_b * weight_a
        <= 0x7fff_ffff_ffff_ffff_ffff_ffff_ffff_ffff) by (nonlinear_arith)
        requires
            -0x8000_0000_0000_0000 <= fee_b <= 0x7fff_ffff_ffff_ffff,
            1 <= weight_a <= 0xffff_ffff_ffff_ffff,
    ;
    let left: i128 = fee_a * weight_b;
    let right: i128 = fee_b * weight_a;
    left > right || (left == right && a.id < b.id)
}

/// The pool of unconfirmed transactions.
pub struct Mempool {
    entries: Vec<Transaction>,
    capacity: usize,
}

impl View for Mempool {
    type V = Seq<TransactionView>;

    closed spec fn view(&self) -> Seq<TransactionView> {
        transaction_views(self.entries@)
    }
}

impl Mempool {
    /// The number of transactions that the pool holds at most.
    pub closed spec fn limit(&self) -> usize {
        self.capacity
    }

    /// The pool is well-formed and within its capacity.
    pub open spec fn wf(&self) -> bool {
        &&& pool_wf(self@)
        &&& self@.len() <= self.limit()
    }

    /// An empty pool for up to `capacity` transactions.
    pub fn new(capacity: usize) -> (pool: Mempool)
        ensures
            pool.wf(),
            pool@ == Seq::<TransactionView>::empty(),
            pool.limit() == capacity,
    {
        let pool = Mempool { entries: Vec::new(), capacity };
        assert(pool@ =~= Seq::<TransactionView>::empty());
        pool
    }

    /// The number of pooled transactions.
    pub fn len(&self) -> (n: usize)
        ensures
            n == self@.len(),
    {
        self.entries.len()
    }

    /// The number of transactions that the pool holds at most.
    pub fn capacity(&self) -> (n: usize)
        ensures
            n == self.limit(),
    {
        self.capacity
    }

    /// The place of the pooled transaction with identifier `id`.
    pub fn position(&self, id: u64) -> (place: Option<usize>)
        ensures
            place is Some <==> pooled(self@, id),
            place is Some ==> place->Some_0 < self@.len() && self@[place->Some_0 as int].id == id,
    {
        let mut i: usize = 0;
        while i < self.entries.len()
            invariant
                i <= self.entries.len(),
                forall|k: int| 0 <= k < i ==> (#[trigger] self@[k]).id != id,
            decreases self.entries.len() - i,
        {
            if self.entries[i].id == id {
                assert(self@[i as int].id == id);
                return Some(i);
            }
            i += 1;
        }
        None
    }

    /// The pooled transaction with identifier `id`.
    pub fn get(&self, id: u64) -> (found: Option<&Transaction>)
        ensures
            found is Some <==> pooled(self@, id),
            found is Some ==> found->Some_0@.id == id && self@.contains(found->Some_0@),
    {
        match self.position(id) {
            Some(place) => {
                assert(self@[place as int] == self.entries@[place as int]@);
                Some(&self.entries[place])
            },
            None => None,
        }
    }

    /// Whether some pooled transaction consumes a serial number of `tx`.
    fn claims(&self, tx: &Transaction) -> (found: bool)
        ensures
            found == claimed(self@, tx@),
    {
        let none: Vec<u64> = Vec::new();
        let mut i: usize = 0;
        while i < self.entries.len()
            invariant
                i <= self.entries.len(),
                none@.len() == 0,
                forall|k: int| 0 <= k < i ==> !share_serial(tx@, #[trigger] self@[k]),
            decreases self.entries.len() - i,
        {
            assert(self.entries@[i as int].serial_numbers@ + none@
                =~= self@[i as int].serial_numbers);
            if meets_either(&tx.serial_numbers, &self.entries[i].serial_numbers, &none) {
                return true;
            }
            i += 1;
        }
        false
    }

    /// The place of the transaction that would leave the pool.
    fn lowest_fee(&self) -> (place: usize)
        requires
            self@.len() > 0,
        ensures
            place == lowest_fee_index(self@),
            place < self@.len(),
    {
        let mut best: usize = 0;
        let mut i: usize = 1;
        assert(lowest_fee_index(self@.take(1)) == 0);
        while i < self.entries.len()
            invariant
                1 <= i <= self.entries.len(),
                best < i,
                best == lowest_fee_index(self@.take(i as int)),
            decreases self.entries.len() - i,
        {
            assert(self@.take(i + 1).drop_last() =~= self@.take(i as int));
            if self.entries[i].fee <= self.entries[best].fee {
                best = i;
            }
            i += 1;
        }
        assert(self@.take(self@.len() as int) =~= self@);
        best
    }

    /// The place at which `tx` would enter the pool.
    fn rank(&self, tx: &Transaction) -> (place: usize)
        ensures
            place == rank_of(self@, tx@),
            place <= self@.len(),
    {
        let mut i: usize = 0;
        while i < self.entries.len() && !ranks_above(tx, &self.entries[i])
            invariant
                i <= self.entries.len(),
                rank_from(self@, tx@, i as int) == rank_of(self@, tx@),
            decreases self.entries.len() - i,
        {
            i += 1;
        }
        i
    }

    /// Puts `tx` at its rank.
    fn place(&mut self, tx: Transaction)
        ensures
            final(self)@ == with_ranked(old(self)@, tx@),
            final(self).limit() == old(self).limit(),
    {
        let at = self.rank(&tx);
        self.entries.insert(at, tx);
        assert(self@ =~= with_ranked(old(self)@, tx@));
    }

    /// Offers `tx` to the pool. It is turned down where it does not validate
    /// against the ledger, is pooled already, or consumes a serial number
    /// that a pooled transaction claims. A full pool takes it only for a fee
    /// above the lowest pooled fee, and lets the transaction with that fee go.
    pub fn try_admit(&mut self, tx: Transaction, ledger: &Ledger) -> (outcome: Admission)
        requires
            old(self).wf(),
            ledger.wf(),
        ensures
            final(self).wf(),
            final(self).limit() == old(self).limit(),
            outcome == admission(
                old(self)@,
                tx@,
                chain_serials(ledger@),
                chain_commitments(ledger@),
                old(self).limit(),
            ),
            final(self)@ == after_admission(
                old(self)@,
                tx@,
                chain_serials(ledger@),
                chain_commitments(ledger@),
                old(self).limit(),
            ),
            valid_against(old(self)@, chain_serials(ledger@), chain_commitments(ledger@))
                ==> valid_against(
                final(self)@,
                chain_serials(ledger@),
                chain_commitments(ledger@),
            ),
    {
        proof {
            lemma_admission_keeps_wf(
                self@,
                tx@,
                chain_serials(ledger@),
                chain_commitments(ledger@),
                self.limit(),
            );
        }
        let none: Vec<u64> = Vec::new();
        assert(chain_serials(ledger@) + none@ =~= chain_serials(ledger@));
        assert(chain_commitments(ledger@) + none@ =~= chain_commitments(ledger@));
        let verdict = check_transaction(
            &tx,
            ledger.spent_serials(),
            &none,
            ledger.known_commitments(),
            &none,
        );
        match verdict {
            Verdict::Reject(reason) => {
                return Admission::Rejected(reason);
            },
            Verdict::Accept => {},
        }
        if self.position(tx.id).is_some() {
            return Admission::Rejected(RejectReason::AlreadyPooled);
        }
        if self.claims(&tx) {
            return Admission::Rejected(RejectReason::PoolConflict);
        }
        if self.entries.len() < self.capacity {
            self.place(tx);
            return Admission::Admitted;
        }
        if self.entries.len() == 0 {
            return Admission::Rejected(RejectReason::CapacityExceeded);
        }
        let low = self.lowest_fee();
        if tx.fee > self.entries[low].fee {
            let gone = self.entries.remove(low);
            assert(gone@ == old(self)@[low as int]);
            assert(self@ =~= old(self)@.remove(low as int));
            self.place(tx);
            Admission::Replaced(gone.id)
        } else {
            Admission::Rejected(RejectReason::CapacityExceeded)
        }
    }

    /// Drops the transactions whose mark is false.
    fn retain_marked(&mut self, marks: &Vec<bool>, Ghost(keep): Ghost<spec_fn(TransactionView) -> bool>)
        requires
            old(self).wf(),
            marks@.len() == old(self)@.len(),
            forall|i: int| 0 <= i < marks@.len() ==> marks@[i] == keep(#[trigger] old(self)@[i]),
        ensures
            final(self).wf(),
            final(self).limit() == old(self).limit(),
            final(self)@ == retained(old(self)@, keep),
            forall|i: int| 0 <= i < final(self)@.len() ==> keep(#[trigger] final(self)@[i]),
            forall|i: int|
                0 <= i < final(self)@.len() ==> old(self)@.contains(#[trigger] final(self)@[i]),
    {
        let ghost before = self@;
        let mut kept: usize = 0;
        let mut seen: usize = 0;
        let total = self.entries.len();
        assert(before.take(0) =~= Seq::<TransactionView>::empty());
        assert(self@ =~= retained(before.take(0), keep) + before.skip(0));
        while seen < total
            invariant
                seen <= total,
                total == before.len(),
                total == marks@.len(),
                kept <= seen,
                self.entries.len() == kept + (total - seen),
                self.limit() == old(self).limit(),
                before.len() <= self.limit(),
                forall|i: int| 0 <= i < marks@.len() ==> marks@[i] == keep(#[trigger] before[i]),
                pool_wf(self@),
                kept == retained(before.take(seen as int), keep).len(),
                self@ == retained(before.take(seen as int), keep) + before.skip(seen as int),
                forall|i: int| 0 <= i < kept ==> keep(#[trigger] self@[i]),
                forall|i: int| 0 <= i < self@.len() ==> before.contains(#[trigger] self@[i]),
            decreases total - seen,
        {
            let ghost now = self@;
            assert(before.take(seen + 1).drop_last() =~= before.take(seen as int));
            assert(now[kept as int] == before[seen as int]);
            if !marks[seen] {
                proof {
                    lemma_remove_keeps_wf(now, kept as int);
                }
                self.entries.remove(kept);
                assert(self@ =~= now.remove(kept as int));
                assert(self@ =~= retained(before.take(seen + 1), keep) + before.skip(seen + 1));
                assert forall|i: int| 0 <= i < self@.len() implies before.contains(
                    #[trigger] self@[i],
                ) by {
                    assert(self@[i] == now[if i < kept { i } else { i + 1 }]);
                }
            } else {
                assert(self@ =~= retained(before.take(seen + 1), keep) + before.skip(seen + 1));
                kept += 1;
            }
            seen += 1;
        }
        assert(before.take(total as int) =~= before);
        assert(self@ =~= retained(before, keep));
    }

    /// Drops the pooled transactions that `block` confirms and those that it
    /// leaves in conflict: afterwards no pooled transaction has the identifier
    /// of a transaction of the block or shares a serial number with one.
    pub fn remove_confirmed(&mut self, block: &Block)
        requires
            old(self).wf(),
        ensures
            final(self).wf(),
            final(self).limit() == old(self).limit(),
            final(self)@ == unsettled(old(self)@, block@),
            forall|i: int| 0 <= i < final(self)@.len() ==> !settled_by(#[trigger] final(self)@[i], block@),
            forall|i: int|
                0 <= i < final(self)@.len() ==> old(self)@.contains(#[trigger] final(self)@[i]),
    {
        let ids = collect_ids(&block.transactions);
        let serials = collect_serials(&block.transactions);
        let none: Vec<u64> = Vec::new();
        let mut marks: Vec<bool> = Vec::new();
        let mut i: usize = 0;
        assert(serials@ + none@ =~= serials@);
        while i < self.entries.len()
            invariant
                i <= self.entries.len(),
                marks@.len() == i,
                ids@ == ids_of(block@.transactions),
                serials@ + none@ == serials_of(block@.transactions),
                forall|k: int| 0 <= k < i ==> marks@[k] == !settled_by(#[trigger] self@[k], block@),
            decreases self.entries.len() - i,
        {
            assert(self@[i as int] == self.entries@[i as int]@);
            let settled = contains(&ids, self.entries[i].id) || meets_either(
                &self.entries[i].serial_numbers,
                &serials,
                &none,
            );
            marks.push(!settled);
            i += 1;
        }
        self.retain_marked(&marks, Ghost(clear_of(block@)));
    }

    /// Drops the pooled transactions that no longer validate against the
    /// ledger.
    pub fn revalidate(&mut self, ledger: &Ledger)
        requires
            old(self).wf(),
            ledger.wf(),
        ensures
            final(self).wf(),
            final(self).limit() == old(self).limit(),
            final(self)@ == still_valid(
                old(self)@,
                chain_serials(ledger@),
                chain_commitments(ledger@),
            ),
            valid_against(final(self)@, chain_serials(ledger@), chain_commitments(ledger@)),
    {
        let none: Vec<u64> = Vec::new();
        let mut marks: Vec<bool> = Vec::new();
        let mut i: usize = 0;
        assert(chain_serials(ledger@) + none@ =~= chain_serials(ledger@));
        assert(chain_commitments(ledger@) + none@ =~= chain_commitments(ledger@));
        while i < self.entries.len()
            invariant
                i <= self.entries.len(),
                marks@.len() == i,
                ledger.wf(),
                chain_serials(ledger@) + none@ == chain_serials(ledger@),
                chain_commitments(ledger@) + none@ == chain_commitments(ledger@),
                forall|k: int|
                    0 <= k < i ==> marks@[k] == (tx_verdict(
                        #[trigger] self@[k],
                        chain_serials(ledger@),
                        chain_commitments(ledger@),
                    ) is Accept),
            decreases self.entries.len() - i,
        {
            assert(self@[i as int] == self.entries@[i as int]@);
            let verdict = check_transaction(
                &self.entries[i],
                ledger.spent_serials(),
                &none,
                ledger.known_commitments(),
                &none,
            );
            marks.push(verdict == Verdict::Accept);
            i += 1;
        }
        self.retain_marked(
            &marks,
            Ghost(accepted_by(chain_serials(ledger@), chain_commitments(ledger@))),
        );
    }

    /// Offers a copy of each of `txs` to the pool, in their order, but for
    /// those whose identifier is among `confirmed`.
    pub fn readmit_except(&mut self, txs: &Vec<Transaction>, confirmed: &Vec<u64>, ledger: &Ledger)
        requires
            old(self).wf(),
            ledger.wf(),
        ensures
            final(self).wf(),
            final(self).limit() == old(self).limit(),
            final(self)@ == after_offers(
                old(self)@,
                retained(transaction_views(txs@), not_among(confirmed@)),
                chain_serials(ledger@),
                chain_commitments(ledger@),
                old(self).limit(),
            ),
            valid_against(old(self)@, chain_serials(ledger@), chain_commitments(ledger@))
                ==> valid_against(
                final(self)@,
                chain_serials(ledger@),
                chain_commitments(ledger@),
            ),
    {
        let ghost views = transaction_views(txs@);
        let ghost keep = not_among(confirmed@);
        let mut i: usize = 0;
        assert(views.take(0) =~= Seq::<TransactionView>::empty());
        while i < txs.len()
            invariant
                i <= txs.len(),
                self.wf(),
                ledger.wf(),
                self.limit() == old(self).limit(),
                views == transaction_views(txs@),
                keep == not_among(confirmed@),
                self@ == after_offers(
                    old(self)@,
                    retained(views.take(i as int), keep),
                    chain_serials(ledger@),
                    chain_commitments(ledger@),
                    old(self).limit(),
                ),
                valid_against(old(self)@, chain_serials(ledger@), chain_commitments(ledger@))
                    ==> valid_against(
                    self@,
                    chain_serials(ledger@),
                    chain_commitments(ledger@),
                ),
            decreases txs.len() - i,
        {
            let ghost before = retained(views.take(i as int), keep);
            assert(views.take(i + 1).drop_last() =~= views.take(i as int));
            assert(views[i as int] == txs@[i as int]@);
            if !contains(confirmed, txs[i].id) {
                assert(before.push(views[i as int]).drop_last() =~= before);
                let copy = txs[i].clone();
                self.try_admit(copy, ledger);
            }
            i += 1;
        }
        assert(views.take(txs.len() as int) =~= views);
    }

    /// Offers a copy of each of `txs` to the pool, in their order.
    pub fn readmit(&mut self, txs: &Vec<Transaction>, ledger: &Ledger)
        requires
            old(self).wf(),
            ledger.wf(),
        ensures
            final(self).wf(),
            final(self).limit() == old(self).limit(),
            final(self)@ == after_offers(
                old(self)@,
                transaction_views(txs@),
                chain_serials(ledger@),
                chain_commitments(ledger@),
                old(self).limit(),
            ),
            valid_against(old(self)@, chain_serials(ledger@), chain_commitments(ledger@))
                ==> valid_against(
                final(self)@,
                chain_serials(ledger@),
                chain_commitments(ledger@),
            ),
    {
        let none: Vec<u64> = Vec::new();
        proof {
            lemma_retained_all(transaction_views(txs@), not_among(none@));
        }
        self.readmit_except(txs, &none, ledger);
    }

    /// Copies of the pooled transactions for a block whose transactions take
    /// at most `max_bytes` bytes: in the order of descending fee per byte,
    /// each one that still validates against the ledger and fits in what the
    /// ones before it have left.
    pub fn candidates(&self, ledger: &Ledger, max_bytes: usize) -> (chosen: Vec<Transaction>)
        requires
            self.wf(),
            ledger.wf(),
        ensures
            transaction_views(chosen@) == selection(
                self@,
                max_bytes,
                chain_serials(ledger@),
                chain_commitments(ledger@),
            ),
    {
        let ghost spent = chain_serials(ledger@);
        let ghost known = chain_commitments(ledger@);
        let none: Vec<u64> = Vec::new();
        let mut chosen: Vec<Transaction> = Vec::new();
        let mut room: usize = max_bytes;
        let mut i: usize = 0;
        assert(transaction_views(chosen@) =~= Seq::<TransactionView>::empty());
        assert(chain_serials(ledger@) + none@ =~= chain_serials(ledger@));
        assert(chain_commitments(ledger@) + none@ =~= chain_commitments(ledger@));
        while i < self.entries.len()
            invariant
                i <= self.entries.len(),
                ledger.wf(),
                none@.len() == 0,
                spent == chain_serials(ledger@),
                known == chain_commitments(ledger@),
                spent + none@ == spent,
                known + none@ == known,
                transaction_views(chosen@) + selection_from(self@, i as int, room as int, spent, known)
                    == selection(self@, max_bytes, spent, known),
            decreases self.entries.len() - i,
        {
            let entry = &self.entries[i];
            assert(entry@ == self@[i as int]);
            let verdict = check_transaction(
                entry,
                ledger.spent_serials(),
                &none,
                ledger.known_commitments(),
                &none,
            );
            let ghost before = transaction_views(chosen@);
            if verdict == Verdict::Accept && entry.size <= room {
                chosen.push(entry.clone());
                assert(transaction_views(chosen@) =~= before.push(entry@));
                assert(before.push(entry@) + selection_from(
                    self@,
                    i + 1,
                    room - entry.size,
                    spent,
                    known,
                ) =~= before + selection_from(self@, i as int, room as int, spent, known));
                room -= entry.size;
            }
            i += 1;
        }
        assert(transaction_views(chosen@) + Seq::<TransactionView>::empty() =~= transaction_views(
            chosen@,
        ));
        chosen
    }
}

} // verus!
