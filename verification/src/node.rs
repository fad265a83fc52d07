//! The node's shared state: the ledger and the pool behind one owner, so
//! that every commit and every admission is one step.

use crate::consensus::{
    block_verdict, lemma_accepted_block_commits, tx_verdict, validate_block, RejectReason, Verdict,
};
use crate::fork::{after_fork, fork_outcome, reorganize, ForkOutcome};
use crate::ledger::{
    chain_commitments, chain_serials, chain_wf, has_digest, lemma_chain_serials_push, Ledger,
    StoreError,
};
use crate::lists::{concat_all, extend, lemma_concat_all_push, lemma_concat_contains};
use crate::mempool::{
    admission, after_admission, after_offers, not_among, pool_wf, retained, settled_by,
    still_valid, unsettled, valid_against, Admission, Mempool,
};
use crate::params::ConsensusParameters;
use crate::types::{
    block_views, collect_ids, commitments_of, ids_of, serials_of, transaction_views, Block,
    BlockView, Transaction, TransactionView,
};
use vstd::prelude::*;

verus! {

/// What became of a block handed to the node.
#[derive(PartialEq, Eq, Structural, Clone, Copy, Debug)]
pub enum BlockOutcome {
    /// The block was validated and is the new tip.
    Committed,
    /// A block with this digest is in the chain already; nothing was done.
    AlreadyKnown,
    /// The block failed validation; nothing was done.
    Rejected(RejectReason),
}

/// What becomes of `block` handed to a node with chain `chain`.
pub open spec fn block_outcome(
    chain: Seq<BlockView>,
    block: BlockView,
    params: ConsensusParameters,
    now: i64,
) -> BlockOutcome {
    if has_digest(chain, block.digest) {
        BlockOutcome::AlreadyKnown
    } else {
        match block_verdict(block, chain, params, now) {
            Verdict::Accept => BlockOutcome::Committed,
            Verdict::Reject(reason) => BlockOutcome::Rejected(reason),
        }
    }
}

/// The chain after `block` was handed to the node.
pub open spec fn applied(
    chain: Seq<BlockView>,
    block: BlockView,
    params: ConsensusParameters,
    now: i64,
) -> Seq<BlockView> {
    if block_outcome(chain, block, params, now) is Committed {
        chain.push(block)
    } else {
        chain
    }
}

/// Handing a block to the node a second time changes nothing: the chain
/// after the second time is the chain after the first, and a block that was
/// committed the first time is known the second time.
pub proof fn lemma_apply_idempotent(
    chain: Seq<BlockView>,
    block: BlockView,
    params: ConsensusParameters,
    now: i64,
    later: i64,
)
    ensures
        block_outcome(chain, block, params, now) is Committed ==> block_outcome(
            applied(chain, block, params, now),
            block,
            params,
            later,
        ) is AlreadyKnown,
        block_outcome(chain, block, params, now) is AlreadyKnown ==> applied(
            applied(chain, block, params, now),
            block,
            params,
            later,
        ) == chain,
        applied(applied(chain, block, params, now), block, params, now) == applied(
            chain,
            block,
            params,
            now,
        ),
{
    if block_outcome(chain, block, params, now) is Committed {
        let longer = chain.push(block);
        assert(longer[chain.len() as int].digest == block.digest);
    }
}

/// A transaction that validated before a block and that the block neither
/// confirms nor conflicts with validates after it.
pub proof fn lemma_still_accepted(
    tx: TransactionView,
    block: BlockView,
    spent: Seq<u64>,
    known: Seq<u64>,
)
    requires
        tx_verdict(tx, spent, known) is Accept,
        !settled_by(tx, block),
    ensures
        tx_verdict(
            tx,
            spent + serials_of(block.transactions),
            known + commitments_of(block.transactions),
        ) is Accept,
{
    let more_spent = spent + serials_of(block.transactions);
    let more_known = known + commitments_of(block.transactions);
    assert forall|k: int| 0 <= k < tx.serial_numbers.len() implies !more_spent.contains(
        #[trigger] tx.serial_numbers[k],
    ) by {
        lemma_concat_contains(spent, serials_of(block.transactions), tx.serial_numbers[k]);
    }
    assert forall|k: int| 0 <= k < tx.inputs.len() implies more_known.contains(
        #[trigger] tx.inputs[k],
    ) by {
        lemma_concat_contains(known, commitments_of(block.transactions), tx.inputs[k]);
    }
}

/// The pool after each of `blocks` was committed in turn.
pub open spec fn after_blocks(pool: Seq<TransactionView>, blocks: Seq<BlockView>) -> Seq<
    TransactionView,
>
    decreases blocks.len(),
{
    if blocks.len() == 0 {
        pool
    } else {
        unsettled(after_blocks(pool, blocks.drop_last()), blocks.last())
    }
}

/// The identifiers of the transactions of each of `blocks`.
pub open spec fn block_id_lists(blocks: Seq<BlockView>) -> Seq<Seq<u64>> {
    blocks.map_values(|b: BlockView| ids_of(b.transactions))
}

/// The identifiers of the transactions that `blocks` confirm, in order.
pub open spec fn confirmed_ids(blocks: Seq<BlockView>) -> Seq<u64> {
    concat_all(block_id_lists(blocks))
}

/// The pool after the transactions of each of `blocks` were offered to it in
/// turn, but for those whose identifier is among `confirmed`.
pub open spec fn reoffered(
    pool: Seq<TransactionView>,
    blocks: Seq<BlockView>,
    confirmed: Seq<u64>,
    spent: Seq<u64>,
    known: Seq<u64>,
    capacity: usize,
) -> Seq<TransactionView>
    decreases blocks.len(),
{
    if blocks.len() == 0 {
        pool
    } else {
        after_offers(
            reoffered(pool, blocks.drop_last(), confirmed, spent, known, capacity),
            retained(blocks.last().transactions, not_among(confirmed)),
            spent,
            known,
            capacity,
        )
    }
}

/// The pool after the chain `chain` took `suffix` in place of `discarded`:
/// without what the new blocks settle, without what no longer validates, and
/// with the transactions that only the discarded blocks held, as far as the
/// pool admits them again.
pub open spec fn pool_after_fork(
    pool: Seq<TransactionView>,
    chain: Seq<BlockView>,
    suffix: Seq<BlockView>,
    discarded: Seq<BlockView>,
    capacity: usize,
) -> Seq<TransactionView> {
    reoffered(
        still_valid(after_blocks(pool, suffix), chain_serials(chain), chain_commitments(chain)),
        discarded,
        confirmed_ids(suffix),
        chain_serials(chain),
        chain_commitments(chain),
        capacity,
    )
}

/// The ledger, the pool and the parameters of a node.
pub struct Node {
    ledger: Ledger,
    pool: Mempool,
    params: ConsensusParameters,
}

impl Node {
    /// The committed chain.
    pub closed spec fn chain(&self) -> Seq<BlockView> {
        self.ledger@
    }

    /// The pooled transactions, in the order in which a miner takes them.
    pub closed spec fn pooled(&self) -> Seq<TransactionView> {
        self.pool@
    }

    /// The capacity of the pool.
    pub closed spec fn pool_limit(&self) -> usize {
        self.pool.limit()
    }

    /// The consensus parameters.
    pub closed spec fn rules(&self) -> ConsensusParameters {
        self.params
    }

    /// Ledger and pool are well-formed, and every pooled transaction
    /// validates against the ledger.
    pub closed spec fn wf(&self) -> bool {
        &&& self.ledger.wf()
        &&& self.pool.wf()
        &&& valid_against(self.pool@, chain_serials(self.ledger@), chain_commitments(self.ledger@))
    }

    /// What well-formedness says of chain and pool.
    pub proof fn lemma_wf(&self)
        requires
            self.wf(),
        ensures
            chain_wf(self.chain()),
            pool_wf(self.pooled()),
            self.pooled().len() <= self.pool_limit(),
            valid_against(
                self.pooled(),
                chain_serials(self.chain()),
                chain_commitments(self.chain()),
            ),
    {
        self.ledger.lemma_wf();
    }

    /// A node whose chain is `genesis` alone and whose pool is empty. Fails
    /// where the genesis block spends a serial number twice.
    pub fn new(genesis: Block, params: ConsensusParameters, pool_capacity: usize) -> (made: Result<
        Node,
        StoreError,
    >)
        ensures
            made is Ok <==> serials_of(genesis@.transactions).no_duplicates(),
            made is Ok ==> made->Ok_0.wf() && made->Ok_0.chain() == seq![genesis@]
                && made->Ok_0.pooled() == Seq::<TransactionView>::empty()
                && made->Ok_0.pool_limit() == pool_capacity && made->Ok_0.rules() == params,
            made is Err ==> made->Err_0 == StoreError::SerialReuse,
    {
        match Ledger::new(genesis) {
            Ok(ledger) => Ok(Node { ledger, pool: Mempool::new(pool_capacity), params }),
            Err(error) => Err(error),
        }
    }

    /// A node on a ledger that was restored, with an empty pool.
    pub fn with_ledger(ledger: Ledger, params: ConsensusParameters, pool_capacity: usize) -> (made:
        Node)
        requires
            ledger.wf(),
        ensures
            made.wf(),
            made.chain() == ledger@,
            made.pooled() == Seq::<TransactionView>::empty(),
            made.pool_limit() == pool_capacity,
            made.rules() == params,
    {
        Node { ledger, pool: Mempool::new(pool_capacity), params }
    }

    /// Offers a copy of each of `txs` to the pool, in their order: the way
    /// in for the transactions that were pooled when the node last ran.
    pub fn readmit(&mut self, txs: &Vec<Transaction>)
        requires
            old(self).wf(),
        ensures
            final(self).wf(),
            final(self).chain() == old(self).chain(),
            final(self).rules() == old(self).rules(),
            final(self).pool_limit() == old(self).pool_limit(),
            final(self).pooled() == after_offers(
                old(self).pooled(),
                transaction_views(txs@),
                chain_serials(old(self).chain()),
                chain_commitments(old(self).chain()),
                old(self).pool_limit(),
            ),
    {
        self.pool.readmit(txs, &self.ledger);
    }

    /// Lets the pool go of the transactions that no longer validate against
    /// the ledger.
    pub fn housekeep(&mut self)
        requires
            old(self).wf(),
        ensures
            final(self).wf(),
            final(self).chain() == old(self).chain(),
            final(self).rules() == old(self).rules(),
            final(self).pool_limit() == old(self).pool_limit(),
            final(self).pooled() == still_valid(
                old(self).pooled(),
                chain_serials(old(self).chain()),
                chain_commitments(old(self).chain()),
            ),
    {
        self.pool.revalidate(&self.ledger);
    }

    /// The ledger, to read.
    pub fn ledger(&self) -> (ledger: &Ledger)
        requires
            self.wf(),
        ensures
            ledger.wf(),
            ledger@ == self.chain(),
    {
        &self.ledger
    }

    /// The pool, to read.
    pub fn pool(&self) -> (pool: &Mempool)
        requires
            self.wf(),
        ensures
            pool.wf(),
            pool@ == self.pooled(),
            pool.limit() == self.pool_limit(),
    {
        &self.pool
    }

    /// The consensus parameters.
    pub fn params(&self) -> (params: &ConsensusParameters)
        ensures
            *params == self.rules(),
    {
        &self.params
    }

    /// Offers a transaction to the pool.
    pub fn submit_transaction(&mut self, tx: Transaction) -> (outcome: Admission)
        requires
            old(self).wf(),
        ensures
            final(self).wf(),
            final(self).chain() == old(self).chain(),
            final(self).rules() == old(self).rules(),
            final(self).pool_limit() == old(self).pool_limit(),
            outcome == admission(
                old(self).pooled(),
                tx@,
                chain_serials(old(self).chain()),
                chain_commitments(old(self).chain()),
                old(self).pool_limit(),
            ),
            final(self).pooled() == after_admission(
                old(self).pooled(),
                tx@,
                chain_serials(old(self).chain()),
                chain_commitments(old(self).chain()),
                old(self).pool_limit(),
            ),
    {
        self.pool.try_admit(tx, &self.ledger)
    }

    /// Hands a block to the node. A block whose digest is in the chain is
    /// known, and nothing is done. Any other block is validated against the
    /// ledger; if it is accepted it is committed, and the pool lets go of the
    /// transactions that it confirms or leaves in conflict.
    pub fn apply_block(&mut self, block: Block, now: i64) -> (outcome: BlockOutcome)
        requires
            old(self).wf(),
        ensures
            final(self).wf(),
            final(self).rules() == old(self).rules(),
            final(self).pool_limit() == old(self).pool_limit(),
            outcome == block_outcome(old(self).chain(), block@, old(self).rules(), now),
            final(self).chain() == applied(old(self).chain(), block@, old(self).rules(), now),
            final(self).pooled() == (if outcome is Committed {
                unsettled(old(self).pooled(), block@)
            } else {
                old(self).pooled()
            }),
    {
        if self.ledger.height_of(block.digest).is_some() {
            return BlockOutcome::AlreadyKnown;
        }
        match validate_block(&block, &self.ledger, &self.params, now) {
            Verdict::Reject(reason) => BlockOutcome::Rejected(reason),
            Verdict::Accept => {
                let ghost view = block@;
                let ghost spent = chain_serials(self.ledger@);
                let ghost known = chain_commitments(self.ledger@);
                let ghost before = self.pool@;
                proof {
                    self.ledger.lemma_wf();
                    lemma_accepted_block_commits(view, self.ledger@, self.params, now);
                    lemma_chain_serials_push(self.ledger@, view);
                }
                self.ledger.attach(block);
                self.pool.remove_confirmed(self.ledger.tip());
                proof {
                    assert forall|i: int| 0 <= i < self.pool@.len() implies tx_verdict(
                        #[trigger] self.pool@[i],
                        chain_serials(self.ledger@),
                        chain_commitments(self.ledger@),
                    ) is Accept by {
                        let tx = self.pool@[i];
                        assert(before.contains(tx));
                        let k = choose|k: int| 0 <= k < before.len() && before[k] == tx;
                        assert(tx_verdict(before[k], spent, known) is Accept);
                        lemma_still_accepted(tx, view, spent, known);
                    }
                }
                BlockOutcome::Committed
            },
        }
    }

    /// Tries to replace the blocks above height `ancestor` by `suffix`, as
    /// fork resolution has it. Where the suffix is adopted, the pool lets go
    /// of what the new blocks settle and of what no longer validates, and the
    /// transactions that only the discarded blocks held are offered to it
    /// again.
    pub fn resolve_fork(&mut self, ancestor: u64, suffix: Vec<Block>, now: i64) -> (outcome:
        ForkOutcome)
        requires
            old(self).wf(),
        ensures
            final(self).wf(),
            final(self).rules() == old(self).rules(),
            final(self).pool_limit() == old(self).pool_limit(),
            outcome == fork_outcome(
                old(self).chain(),
                ancestor as int,
                block_views(suffix@),
                old(self).rules(),
                now,
            ),
            final(self).chain() == after_fork(
                old(self).chain(),
                ancestor as int,
                block_views(suffix@),
                old(self).rules(),
                now,
            ),
            final(self).pooled() == (if outcome is Adopted {
                pool_after_fork(
                    old(self).pooled(),
                    final(self).chain(),
                    block_views(suffix@),
                    old(self).chain().skip(ancestor + 1),
                    old(self).pool_limit(),
                )
            } else {
                old(self).pooled()
            }),
    {
        let ghost views = block_views(suffix@);
        let ghost pool_before = self.pool@;
        let resolution = reorganize(&mut self.ledger, ancestor, suffix, &self.params, now);
        match resolution.outcome {
            ForkOutcome::Adopted => {},
            _ => {
                return resolution.outcome;
            },
        }
        let ghost chain = self.ledger@;
        let top = self.ledger.height();
        let first = ancestor + 1;
        let mut height = first;
        let mut confirmed: Vec<u64> = Vec::new();
        assert(chain.subrange(first as int, first as int) =~= Seq::<BlockView>::empty());
        assert(block_id_lists(Seq::<BlockView>::empty()) =~= Seq::<Seq<u64>>::empty());
        while height <= top
            invariant
                first <= height <= top + 1,
                top == chain.len() - 1,
                top < u64::MAX,
                chain == self.ledger@,
                self.ledger.wf(),
                self.pool.wf(),
                self.pool.limit() == old(self).pool.limit(),
                self.params == old(self).params,
                self.pool@ == after_blocks(pool_before, chain.subrange(first as int, height as int)),
                confirmed@ == confirmed_ids(chain.subrange(first as int, height as int)),
            decreases top + 1 - height,
        {
            let ghost done = chain.subrange(first as int, height as int);
            assert(chain.subrange(first as int, height + 1).drop_last() =~= done);
            let found = self.ledger.block_at(height);
            let block = found.unwrap();
            proof {
                assert(block_id_lists(chain.subrange(first as int, height + 1))
                    =~= block_id_lists(done).push(ids_of(block@.transactions)));
                lemma_concat_all_push(block_id_lists(done), ids_of(block@.transactions));
            }
            self.pool.remove_confirmed(block);
            let ids = collect_ids(&block.transactions);
            extend(&mut confirmed, &ids);
            height += 1;
        }
        assert(chain.subrange(first as int, chain.len() as int) =~= views);
        self.pool.revalidate(&self.ledger);
        let ghost discarded = block_views(resolution.discarded@);
        let ghost cleared = self.pool@;
        let mut i: usize = 0;
        assert(discarded.take(0) =~= Seq::<BlockView>::empty());
        while i < resolution.discarded.len()
            invariant
                i <= resolution.discarded.len(),
                discarded == block_views(resolution.discarded@),
                chain == self.ledger@,
                self.ledger.wf(),
                self.pool.wf(),
                self.pool.limit() == old(self).pool.limit(),
                self.params == old(self).params,
                valid_against(self.pool@, chain_serials(chain), chain_commitments(chain)),
                confirmed@ == confirmed_ids(views),
                self.pool@ == reoffered(
                    cleared,
                    discarded.take(i as int),
                    confirmed@,
                    chain_serials(chain),
                    chain_commitments(chain),
                    old(self).pool.limit(),
                ),
            decreases resolution.discarded.len() - i,
        {
            assert(discarded.take(i + 1).drop_last() =~= discarded.take(i as int));
            assert(discarded[i as int] == resolution.discarded@[i as int]@);
            self.pool.readmit_except(
                &resolution.discarded[i].transactions,
                &confirmed,
                &self.ledger,
            );
            i += 1;
        }
        assert(discarded.take(resolution.discarded.len() as int) =~= discarded);
        resolution.outcome
    }
}

} // verus!
