//! The consensus rules: which transactions and which blocks a ledger
//! accepts. Every rule is a function of the candidate, the chain and the
//! parameters, and of the clock where a block's timestamp is judged.

use crate::ledger::{
    append_failure, chain_commitments, chain_serials, chain_wf, has_digest, Ledger,
};
use crate::lists::{
    all_within, disjoint, extend, has_duplicates, lemma_concat_all_step,
    lemma_concat_no_duplicates, meets_either, within_either,
};
use crate::params::{expected_target, ConsensusParameters, MAX_FUTURE_DRIFT};
use crate::types::{
    block_size, commitment_lists, commitments_of, serial_lists, serials_of, total_size,
    transaction_views, Block, BlockView, Transaction, TransactionView, BLOCK_HEADER_SIZE,
};
use vstd::prelude::*;

verus! {

/// Why a transaction or a block was turned down.
#[derive(PartialEq, Eq, Structural, Clone, Copy, Debug)]
pub enum RejectReason {
    /// The proof verifier did not accept the transaction's proof.
    InvalidProof,
    /// A serial number is spent already, or twice by the transaction.
    DoubleSpend,
    /// An input commitment is not in the commitment set.
    UnknownCommitment,
    /// The fee is negative.
    NegativeFee,
    /// The block's parent is not the tip.
    WrongParent,
    /// A block with this digest is in the chain already.
    DuplicateBlock,
    /// The block is larger than the parameters allow.
    Oversized,
    /// The nonce is beyond the largest nonce.
    NonceOutOfRange,
    /// The block's difficulty target is not the one owed on its parent.
    WrongDifficulty,
    /// The digest does not meet the difficulty target.
    InsufficientWork,
    /// The block is older than its parent.
    TimestampBeforeParent,
    /// The block's timestamp lies too far ahead of the clock.
    TimestampTooFarAhead,
    /// The transaction is pooled already.
    AlreadyPooled,
    /// A serial number is claimed by a pooled transaction.
    PoolConflict,
    /// The pool is full and the fee does not exceed the lowest pooled fee.
    CapacityExceeded,
}

/// The outcome of a validation.
#[derive(PartialEq, Eq, Structural, Clone, Copy, Debug)]
pub enum Verdict {
    Accept,
    Reject(RejectReason),
}

/// The verdict on a transaction against the serial numbers `spent` and the
/// commitments `known`: the first rule it breaks, of proof, serial numbers,
/// inputs and fee, in this order.
pub open spec fn tx_verdict(tx: TransactionView, spent: Seq<u64>, known: Seq<u64>) -> Verdict {
    if !tx.proof_verified {
        Verdict::Reject(RejectReason::InvalidProof)
    } else if !tx.serial_numbers.no_duplicates() || !disjoint(tx.serial_numbers, spent) {
        Verdict::Reject(RejectReason::DoubleSpend)
    } else if !all_within(tx.inputs, known) {
        Verdict::Reject(RejectReason::UnknownCommitment)
    } else if tx.fee < 0 {
        Verdict::Reject(RejectReason::NegativeFee)
    } else {
        Verdict::Accept
    }
}

/// The verdict on the transactions of a block from place `start` on, each
/// judged against `spent` and `known` as the transactions before it in the
/// block have extended them: the verdict on the first that fails.
pub open spec fn body_verdict_from(
    txs: Seq<TransactionView>,
    start: int,
    spent: Seq<u64>,
    known: Seq<u64>,
) -> Verdict
    decreases txs.len() - start,
{
    if start < 0 || start >= txs.len() {
        Verdict::Accept
    } else {
        let verdict = tx_verdict(
            txs[start],
            spent + serials_of(txs.take(start)),
            known + commitments_of(txs.take(start)),
        );
        if verdict is Reject {
            verdict
        } else {
            body_verdict_from(txs, start + 1, spent, known)
        }
    }
}

/// The verdict on the transactions of a block.
pub open spec fn body_verdict(txs: Seq<TransactionView>, spent: Seq<u64>, known: Seq<u64>) -> Verdict {
    body_verdict_from(txs, 0, spent, known)
}

/// The verdict on a block's header on top of `chain`: the first rule it
/// breaks, in the order written here.
pub open spec fn header_verdict(
    block: BlockView,
    chain: Seq<BlockView>,
    params: ConsensusParameters,
    now: i64,
) -> Verdict {
    let tip = chain.last();
    if block.parent != tip.digest {
        Verdict::Reject(RejectReason::WrongParent)
    } else if has_digest(chain, block.digest) {
        Verdict::Reject(RejectReason::DuplicateBlock)
    } else if block_size(block) > params.size_limit() {
        Verdict::Reject(RejectReason::Oversized)
    } else if block.nonce > params.nonce_limit() {
        Verdict::Reject(RejectReason::NonceOutOfRange)
    } else if block.difficulty_target != expected_target(
        tip.difficulty_target,
        tip.timestamp,
        block.timestamp,
        params.block_time(),
    ) {
        Verdict::Reject(RejectReason::WrongDifficulty)
    } else if block.digest > block.difficulty_target {
        Verdict::Reject(RejectReason::InsufficientWork)
    } else if block.timestamp < tip.timestamp {
        Verdict::Reject(RejectReason::TimestampBeforeParent)
    } else if block.timestamp > now + MAX_FUTURE_DRIFT {
        Verdict::Reject(RejectReason::TimestampTooFarAhead)
    } else {
        Verdict::Accept
    }
}

/// The verdict on a block on top of `chain`: that on its header, then that
/// on its transactions.
pub open spec fn block_verdict(
    block: BlockView,
    chain: Seq<BlockView>,
    params: ConsensusParameters,
    now: i64,
) -> Verdict {
    let header = header_verdict(block, chain, params, now);
    if header is Reject {
        header
    } else {
        body_verdict(block.transactions, chain_serials(chain), chain_commitments(chain))
    }
}

/// Where the transactions from `start` on are accepted and no serial number
/// was spent twice before `start`, none is spent twice at all.
pub proof fn lemma_accepted_body_spends_once(
    txs: Seq<TransactionView>,
    start: int,
    spent: Seq<u64>,
    known: Seq<u64>,
)
    requires
        0 <= start <= txs.len(),
        body_verdict_from(txs, start, spent, known) is Accept,
        (spent + serials_of(txs.take(start))).no_duplicates(),
    ensures
        (spent + serials_of(txs)).no_duplicates(),
    decreases txs.len() - start,
{
    if start == txs.len() {
        assert(txs.take(start) =~= txs);
    } else {
        let before = serials_of(txs.take(start));
        let own = txs[start].serial_numbers;
        assert(serial_lists(txs.take(start + 1)) =~= serial_lists(txs).take(start + 1));
        assert(serial_lists(txs.take(start)) =~= serial_lists(txs).take(start));
        lemma_concat_all_step(serial_lists(txs), start);
        lemma_concat_no_duplicates(spent + before, own);
        assert((spent + before) + own =~= spent + (before + own));
        lemma_accepted_body_spends_once(txs, start + 1, spent, known);
    }
}

/// A block that the rules accept is one that can stand on the chain.
pub proof fn lemma_accepted_block_commits(
    block: BlockView,
    chain: Seq<BlockView>,
    params: ConsensusParameters,
    now: i64,
)
    requires
        chain_wf(chain),
        block_verdict(block, chain, params, now) is Accept,
    ensures
        append_failure(chain, block) is None,
{
    assert(serials_of(block.transactions.take(0)) =~= Seq::<u64>::empty()) by {
        assert(serial_lists(block.transactions.take(0)) =~= Seq::<Seq<u64>>::empty());
    }
    assert(chain_serials(chain) + Seq::<u64>::empty() =~= chain_serials(chain));
    lemma_accepted_body_spends_once(block.transactions, 0, chain_serials(chain), chain_commitments(chain));
}

/// The sizes of the first `n` transactions sum to no more than the sizes of
/// all.
pub proof fn lemma_total_size_prefix(txs: Seq<TransactionView>, n: int)
    requires
        0 <= n <= txs.len(),
    ensures
        total_size(txs.take(n)) <= total_size(txs),
    decreases txs.len(),
{
    if n == txs.len() {
        assert(txs.take(n) =~= txs);
    } else {
        assert(txs.drop_last().take(n) =~= txs.take(n));
        lemma_total_size_prefix(txs.drop_last(), n);
    }
}

/// The verdict on `tx` against the serial numbers of `spent` and `also_spent`
/// and the commitments of `known` and `also_known`.
pub fn check_transaction(
    tx: &Transaction,
    spent: &Vec<u64>,
    also_spent: &Vec<u64>,
    known: &Vec<u64>,
    also_known: &Vec<u64>,
) -> (verdict: Verdict)
    ensures
        verdict == tx_verdict(tx@, spent@ + also_spent@, known@ + also_known@),
{
    if !tx.proof_verified {
        Verdict::Reject(RejectReason::InvalidProof)
    } else if has_duplicates(&tx.serial_numbers) || meets_either(
        &tx.serial_numbers,
        spent,
        also_spent,
    ) {
        Verdict::Reject(RejectReason::DoubleSpend)
    } else if !within_either(&tx.inputs, known, also_known) {
        Verdict::Reject(RejectReason::UnknownCommitment)
    } else if tx.fee < 0 {
        Verdict::Reject(RejectReason::NegativeFee)
    } else {
        Verdict::Accept
    }
}

/// Validates a transaction against the ledger: its proof must have been
/// verified, none of its serial numbers may be spent, every input commitment
/// must be known, and its fee must not be negative.
pub fn validate_transaction(tx: &Transaction, ledger: &Ledger) -> (verdict: Verdict)
    requires
        ledger.wf(),
    ensures
        verdict == tx_verdict(tx@, chain_serials(ledger@), chain_commitments(ledger@)),
{
    let none: Vec<u64> = Vec::new();
    assert(chain_serials(ledger@) + none@ =~= chain_serials(ledger@));
    assert(chain_commitments(ledger@) + none@ =~= chain_commitments(ledger@));
    check_transaction(tx, ledger.spent_serials(), &none, ledger.known_commitments(), &none)
}

/// Whether a block with these transactions is no larger than `limit` bytes.
pub fn fits_block(txs: &Vec<Transaction>, limit: usize) -> (fits: bool)
    ensures
        fits == (BLOCK_HEADER_SIZE + total_size(transaction_views(txs@)) <= limit),
{
    if limit < BLOCK_HEADER_SIZE {
        return false;
    }
    let ghost views = transaction_views(txs@);
    let mut room: usize = limit - BLOCK_HEADER_SIZE;
    let mut i: usize = 0;
    while i < txs.len()
        invariant
            i <= txs.len(),
            views == transaction_views(txs@),
            BLOCK_HEADER_SIZE + total_size(views.take(i as int)) + room == limit,
        decreases txs.len() - i,
    {
        proof {
            assert(views.take(i + 1).drop_last() =~= views.take(i as int));
            lemma_total_size_prefix(views, i + 1);
        }
        if txs[i].size > room {
            return false;
        }
        room -= txs[i].size;
        i += 1;
    }
    assert(views.take(txs.len() as int) =~= views);
    true
}

/// Validates the transactions of a block in order, each against the ledger
/// as the transactions before it have extended it.
pub fn validate_body(txs: &Vec<Transaction>, ledger: &Ledger) -> (verdict: Verdict)
    requires
        ledger.wf(),
    ensures
        verdict == body_verdict(
            transaction_views(txs@),
            chain_serials(ledger@),
            chain_commitments(ledger@),
        ),
{
    let ghost views = transaction_views(txs@);
    let ghost spent = chain_serials(ledger@);
    let ghost known = chain_commitments(ledger@);
    let mut block_spent: Vec<u64> = Vec::new();
    let mut block_known: Vec<u64> = Vec::new();
    let mut i: usize = 0;
    proof {
        assert(serial_lists(views.take(0)) =~= Seq::<Seq<u64>>::empty());
        assert(commitment_lists(views.take(0)) =~= Seq::<Seq<u64>>::empty());
    }
    while i < txs.len()
        invariant
            i <= txs.len(),
            ledger.wf(),
            views == transaction_views(txs@),
            spent == chain_serials(ledger@),
            known == chain_commitments(ledger@),
            block_spent@ == serials_of(views.take(i as int)),
            block_known@ == commitments_of(views.take(i as int)),
            body_verdict_from(views, i as int, spent, known) == body_verdict(views, spent, known),
        decreases txs.len() - i,
    {
        let verdict = check_transaction(
            &txs[i],
            ledger.spent_serials(),
            &block_spent,
            ledger.known_commitments(),
            &block_known,
        );
        match verdict {
            Verdict::Reject(_) => {
                return verdict;
            },
            Verdict::Accept => {},
        }
        proof {
            assert(serial_lists(views.take(i + 1)) =~= serial_lists(views).take(i + 1));
            assert(serial_lists(views.take(i as int)) =~= serial_lists(views).take(i as int));
            lemma_concat_all_step(serial_lists(views), i as int);
            assert(commitment_lists(views.take(i + 1)) =~= commitment_lists(views).take(i + 1));
            assert(commitment_lists(views.take(i as int)) =~= commitment_lists(views).take(
                i as int,
            ));
            lemma_concat_all_step(commitment_lists(views), i as int);
        }
        extend(&mut block_spent, &txs[i].serial_numbers);
        extend(&mut block_known, &txs[i].commitments);
        i += 1;
    }
    Verdict::Accept
}

/// Validates a block against the ledger, the parameters and the clock: it
/// must extend the tip under a digest not seen before, be no larger than
/// allowed, carry a nonce within the limit, the difficulty target owed on its
/// parent and a digest that meets it, be no older than its parent and not
/// too far ahead of `now`, and each transaction must validate in turn.
pub fn validate_block(block: &Block, ledger: &Ledger, params: &ConsensusParameters, now: i64) -> (verdict:
    Verdict)
    requires
        ledger.wf(),
    ensures
        verdict == block_verdict(block@, ledger@, *params, now),
{
    let tip = ledger.tip();
    if block.parent != tip.digest {
        return Verdict::Reject(RejectReason::WrongParent);
    }
    if ledger.height_of(block.digest).is_some() {
        return Verdict::Reject(RejectReason::DuplicateBlock);
    }
    if !fits_block(&block.transactions, params.max_block_size()) {
        return Verdict::Reject(RejectReason::Oversized);
    }
    if block.nonce > params.max_nonce() {
        return Verdict::Reject(RejectReason::NonceOutOfRange);
    }
    if block.difficulty_target != params.next_target(
        tip.difficulty_target,
        tip.timestamp,
        block.timestamp,
    ) {
        return Verdict::Reject(RejectReason::WrongDifficulty);
    }
    if block.digest > block.difficulty_target {
        return Verdict::Reject(RejectReason::InsufficientWork);
    }
    if block.timestamp < tip.timestamp {
        return Verdict::Reject(RejectReason::TimestampBeforeParent);
    }
    if block.timestamp as i128 > now as i128 + MAX_FUTURE_DRIFT as i128 {
        return Verdict::Reject(RejectReason::TimestampTooFarAhead);
    }
    validate_body(&block.transactions, ledger)
}

} // verus!
