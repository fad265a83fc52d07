//! The ledger store: the committed chain of blocks with the serial numbers
//! spent and the commitments produced along it.

use crate::consensus::{
    block_verdict, lemma_accepted_block_commits, validate_block, RejectReason, Verdict,
};
use crate::lists::{
    concat_all, extend, has_duplicates, lemma_concat_all_at, lemma_concat_all_distinct,
    lemma_concat_all_prefix, lemma_concat_all_push, lemma_concat_all_step,
    lemma_concat_no_duplicates, meets_either,
};
use crate::params::{block_work, work_of, ConsensusParameters};
use crate::types::{
    block_views, collect_commitments, collect_serials, commitments_of, serial_lists, serials_of,
    transaction_views, Block, BlockView, Transaction,
};
use vstd::prelude::*;

verus! {

/// Why the store refused a block.
#[derive(PartialEq, Eq, Structural, Clone, Copy, Debug)]
pub enum StoreError {
    /// The block's parent is not the tip: the tip moved since the block was
    /// validated, or the block never belonged here.
    StaleTip,
    /// A block with this digest is in the chain already.
    DuplicateBlock,
    /// A serial number of the block is spent already, in the chain or earlier
    /// in the block.
    SerialReuse,
    /// There is no genesis block to start from.
    NoGenesis,
    /// The block breaks a consensus rule: it was not validated before it was
    /// handed in.
    NotValidated(RejectReason),
}

/// The serial numbers consumed by each block of a chain.
pub open spec fn block_serial_lists(chain: Seq<BlockView>) -> Seq<Seq<u64>> {
    chain.map_values(|b: BlockView| serials_of(b.transactions))
}

/// The commitments produced by each block of a chain.
pub open spec fn block_commitment_lists(chain: Seq<BlockView>) -> Seq<Seq<u64>> {
    chain.map_values(|b: BlockView| commitments_of(b.transactions))
}

/// Every serial number spent along a chain, in order.
pub open spec fn chain_serials(chain: Seq<BlockView>) -> Seq<u64> {
    concat_all(block_serial_lists(chain))
}

/// Every commitment produced along a chain, in order.
pub open spec fn chain_commitments(chain: Seq<BlockView>) -> Seq<u64> {
    concat_all(block_commitment_lists(chain))
}

/// The block at height `height` names the block below it as its parent.
pub open spec fn extends_parent(chain: Seq<BlockView>, height: int) -> bool {
    chain[height].parent == chain[height - 1].digest
}

/// Each block after the first names its predecessor as its parent.
pub open spec fn linked(chain: Seq<BlockView>) -> bool {
    forall|i: int| 1 <= i < chain.len() ==> #[trigger] extends_parent(chain, i)
}

/// No two blocks of the chain have the same digest.
pub open spec fn distinct_digests(chain: Seq<BlockView>) -> bool {
    forall|i: int, j: int|
        0 <= i < j < chain.len() ==> (#[trigger] chain[i]).digest != (#[trigger] chain[j]).digest
}

/// Whether a block of the chain has digest `digest`.
pub open spec fn has_digest(chain: Seq<BlockView>, digest: u64) -> bool {
    exists|i: int| 0 <= i < chain.len() && (#[trigger] chain[i]).digest == digest
}

/// What every committed chain satisfies: it starts at a genesis block, each
/// block extends its predecessor, digests identify blocks, and no serial
/// number is spent twice.
pub open spec fn chain_wf(chain: Seq<BlockView>) -> bool {
    &&& chain.len() >= 1
    &&& linked(chain)
    &&& distinct_digests(chain)
    &&& chain_serials(chain).no_duplicates()
}

/// Why `block` cannot stand on top of `chain`, if it cannot, whatever the
/// consensus rules say of it: what the store itself answers for.
pub open spec fn append_failure(chain: Seq<BlockView>, block: BlockView) -> Option<StoreError> {
    if block.parent != chain.last().digest {
        Some(StoreError::StaleTip)
    } else if has_digest(chain, block.digest) {
        Some(StoreError::DuplicateBlock)
    } else if !(chain_serials(chain) + serials_of(block.transactions)).no_duplicates() {
        Some(StoreError::SerialReuse)
    } else {
        None
    }
}

/// Why `block` cannot be committed on top of `chain` at time `now`, if it
/// cannot: it is stale where its parent is not the tip, and not validated
/// where it breaks another consensus rule.
pub open spec fn commit_failure(
    chain: Seq<BlockView>,
    block: BlockView,
    params: ConsensusParameters,
    now: i64,
) -> Option<StoreError> {
    match block_verdict(block, chain, params, now) {
        Verdict::Accept => None,
        Verdict::Reject(RejectReason::WrongParent) => Some(StoreError::StaleTip),
        Verdict::Reject(reason) => Some(StoreError::NotValidated(reason)),
    }
}

/// The serial numbers of a chain with one more block.
pub proof fn lemma_chain_serials_push(chain: Seq<BlockView>, block: BlockView)
    ensures
        chain_serials(chain.push(block)) == chain_serials(chain) + serials_of(block.transactions),
        chain_commitments(chain.push(block)) == chain_commitments(chain) + commitments_of(
            block.transactions,
        ),
{
    assert(block_serial_lists(chain.push(block)) =~= block_serial_lists(chain).push(
        serials_of(block.transactions),
    ));
    lemma_concat_all_push(block_serial_lists(chain), serials_of(block.transactions));
    assert(block_commitment_lists(chain.push(block)) =~= block_commitment_lists(chain).push(
        commitments_of(block.transactions),
    ));
    lemma_concat_all_push(block_commitment_lists(chain), commitments_of(block.transactions));
}

/// A block that the store does not refuse extends a well-formed chain to a
/// well-formed chain, and a block that it refuses does not.
pub proof fn lemma_append_failure(chain: Seq<BlockView>, block: BlockView)
    requires
        chain_wf(chain),
    ensures
        append_failure(chain, block) is None <==> chain_wf(chain.push(block)),
{
    let longer = chain.push(block);
    lemma_chain_serials_push(chain, block);
    if append_failure(chain, block) is None {
        assert forall|i: int, j: int| 0 <= i < j < longer.len() implies (#[trigger] longer[i]).digest
            != (#[trigger] longer[j]).digest by {
            if j == chain.len() {
                assert(chain[i].digest != block.digest);
            } else {
                assert(chain[i].digest != chain[j].digest);
            }
        }
        assert forall|i: int| 1 <= i < longer.len() implies #[trigger] extends_parent(longer, i) by {
            if i < chain.len() {
                assert(extends_parent(chain, i));
            }
        }
    }
    if chain_wf(longer) {
        assert(extends_parent(longer, chain.len() as int));
        if has_digest(chain, block.digest) {
            let i = choose|i: int| 0 <= i < chain.len() && (#[trigger] chain[i]).digest
                == block.digest;
            assert(longer[i].digest != longer[chain.len() as int].digest);
        }
    }
}

/// Every prefix of a well-formed chain that holds the genesis block is
/// well-formed.
pub proof fn lemma_prefix_wf(chain: Seq<BlockView>, n: int)
    requires
        chain_wf(chain),
        1 <= n <= chain.len(),
    ensures
        chain_wf(chain.take(n)),
{
    let prefix = chain.take(n);
    assert forall|i: int| 1 <= i < prefix.len() implies #[trigger] extends_parent(prefix, i) by {
        assert(extends_parent(chain, i));
    }
    assert forall|i: int, j: int| 0 <= i < j < prefix.len() implies (#[trigger] prefix[i]).digest
        != (#[trigger] prefix[j]).digest by {
        assert(chain[i].digest != chain[j].digest);
    }
    let rest = lemma_concat_all_prefix(block_serial_lists(chain), n);
    assert(block_serial_lists(chain).take(n) =~= block_serial_lists(prefix));
    lemma_concat_no_duplicates(chain_serials(prefix), rest);
}

/// Why the blocks of `blocks` from place `from` on cannot be committed one
/// after the other on those before them, if they cannot: the failure of the
/// first that fails.
pub open spec fn replay_failure(blocks: Seq<BlockView>, from: int) -> Option<StoreError>
    decreases blocks.len() - from,
{
    if from < 1 || from >= blocks.len() {
        None
    } else {
        match append_failure(blocks.take(from), blocks[from]) {
            Some(error) => Some(error),
            None => replay_failure(blocks, from + 1),
        }
    }
}

/// Why `blocks` are no chain to start from, if they are none.
pub open spec fn restore_failure(blocks: Seq<BlockView>) -> Option<StoreError> {
    if blocks.len() == 0 {
        Some(StoreError::NoGenesis)
    } else if !serials_of(blocks[0].transactions).no_duplicates() {
        Some(StoreError::SerialReuse)
    } else {
        replay_failure(blocks, 1)
    }
}

/// A chain of the genesis block alone is well-formed exactly when the block
/// spends no serial number twice.
pub proof fn lemma_genesis_wf(genesis: BlockView)
    ensures
        chain_wf(seq![genesis]) <==> serials_of(genesis.transactions).no_duplicates(),
        chain_serials(seq![genesis]) == serials_of(genesis.transactions),
        chain_commitments(seq![genesis]) == commitments_of(genesis.transactions),
{
    let empty = Seq::<BlockView>::empty();
    assert(seq![genesis] =~= empty.push(genesis));
    lemma_chain_serials_push(empty, genesis);
    assert(block_serial_lists(empty) =~= Seq::<Seq<u64>>::empty());
    assert(block_commitment_lists(empty) =~= Seq::<Seq<u64>>::empty());
    assert(chain_serials(seq![genesis]) =~= serials_of(genesis.transactions));
    assert(chain_commitments(seq![genesis]) =~= commitments_of(genesis.transactions));
}

/// Blocks can be committed one after the other from place `from` on exactly
/// when they make a well-formed chain, where those before `from` do.
pub proof fn lemma_replay_failure(blocks: Seq<BlockView>, from: int)
    requires
        1 <= from <= blocks.len(),
        chain_wf(blocks.take(from)),
    ensures
        replay_failure(blocks, from) is None <==> chain_wf(blocks),
    decreases blocks.len() - from,
{
    if from == blocks.len() {
        assert(blocks.take(from) =~= blocks);
    } else {
        lemma_append_failure(blocks.take(from), blocks[from]);
        assert(blocks.take(from).push(blocks[from]) =~= blocks.take(from + 1));
        if append_failure(blocks.take(from), blocks[from]) is None {
            lemma_replay_failure(blocks, from + 1);
        } else {
            if chain_wf(blocks) {
                lemma_prefix_wf(blocks, from + 1);
            }
        }
    }
}

/// Blocks are a chain to start from exactly when they make a well-formed
/// chain.
pub proof fn lemma_restore_failure(blocks: Seq<BlockView>)
    ensures
        restore_failure(blocks) is None <==> chain_wf(blocks),
{
    if blocks.len() > 0 {
        lemma_genesis_wf(blocks[0]);
        assert(blocks.take(1) =~= seq![blocks[0]]);
        if serials_of(blocks[0].transactions).no_duplicates() {
            lemma_replay_failure(blocks, 1);
        } else {
            if chain_wf(blocks) {
                lemma_prefix_wf(blocks, 1);
            }
        }
    }
}

/// The serial numbers of `list` if none of them occurs in `spent` or twice in
/// `list`.
fn unspent_serials(list: &Vec<Transaction>, spent: &Vec<u64>) -> (fresh: Option<Vec<u64>>)
    requires
        spent@.no_duplicates(),
    ensures
        fresh is Some <==> (spent@ + serials_of(transaction_views(list@))).no_duplicates(),
        fresh is Some ==> fresh->Some_0@ == serials_of(transaction_views(list@)),
{
    let ghost parts = serial_lists(transaction_views(list@));
    let mut fresh: Vec<u64> = Vec::new();
    let mut i: usize = 0;
    assert(concat_all(parts.take(0)) =~= Seq::<u64>::empty());
    assert(spent@ + fresh@ =~= spent@);
    while i < list.len()
        invariant
            i <= list.len(),
            parts == serial_lists(transaction_views(list@)),
            fresh@ == concat_all(parts.take(i as int)),
            (spent@ + fresh@).no_duplicates(),
        decreases list.len() - i,
    {
        let serials = &list[i].serial_numbers;
        proof {
            lemma_concat_all_step(parts, i as int);
            lemma_concat_no_duplicates(spent@ + fresh@, serials@);
            assert((spent@ + fresh@) + serials@ =~= spent@ + (fresh@ + serials@));
        }
        if has_duplicates(serials) || meets_either(serials, spent, &fresh) {
            proof {
                let rest = lemma_concat_all_prefix(parts, i + 1);
                let upto = fresh@ + serials@;
                assert(spent@ + (upto + rest) =~= (spent@ + upto) + rest);
                lemma_concat_no_duplicates(spent@ + upto, rest);
            }
            return None;
        }
        extend(&mut fresh, serials);
        i += 1;
    }
    assert(parts.take(list.len() as int) =~= parts);
    Some(fresh)
}

/// The work that a list of blocks stands for: the sum of the work of each.
pub open spec fn chain_work(blocks: Seq<BlockView>) -> int
    decreases blocks.len(),
{
    if blocks.len() == 0 {
        0
    } else {
        chain_work(blocks.drop_last()) + block_work(blocks.last().difficulty_target)
    }
}

/// The work of the blocks of `blocks` from place `from` on; none where there
/// are no such blocks.
pub fn total_work(blocks: &Vec<Block>, from: usize) -> (work: u128)
    ensures
        work == (if from <= blocks@.len() {
            chain_work(block_views(blocks@).skip(from as int))
        } else {
            0
        }),
{
    if from > blocks.len() {
        return 0;
    }
    let ghost views = block_views(blocks@);
    let mut work: u128 = 0;
    let mut i: usize = from;
    while i < blocks.len()
        invariant
            from <= i <= blocks.len(),
            views == block_views(blocks@),
            work == chain_work(views.subrange(from as int, i as int)),
            work <= (i - from) * 0x1_0000_0000_0000_0000,
        decreases blocks.len() - i,
    {
        assert(views.subrange(from as int, i + 1).drop_last() =~= views.subrange(
            from as int,
            i as int,
        ));
        let step = work_of(blocks[i].difficulty_target);
        work = work + step;
        i += 1;
    }
    assert(views.subrange(from as int, blocks.len() as int) =~= views.skip(from as int));
    work
}

/// The blocks of `list` in the opposite order.
pub fn reversed(list: Vec<Block>) -> (turned: Vec<Block>)
    ensures
        turned@.len() == list@.len(),
        forall|k: int| 0 <= k < list@.len() ==> #[trigger] turned@[k] == list@[list@.len() - 1 - k],
{
    let ghost given = list@;
    let mut rest = list;
    let mut turned: Vec<Block> = Vec::new();
    while rest.len() > 0
        invariant
            rest@.len() + turned@.len() == given.len(),
            rest@ == given.take(rest@.len() as int),
            forall|k: int| 0 <= k < turned@.len() ==> #[trigger] turned@[k] == given[given.len() - 1 - k],
        decreases rest.len(),
    {
        let last = rest.pop();
        match last {
            Some(block) => {
                turned.push(block);
            },
            None => {},
        }
    }
    turned
}

/// The committed chain, from the genesis block to the tip.
pub struct Ledger {
    blocks: Vec<Block>,
    spent: Vec<u64>,
    commitments: Vec<u64>,
}

impl View for Ledger {
    type V = Seq<BlockView>;

    closed spec fn view(&self) -> Seq<BlockView> {
        block_views(self.blocks@)
    }
}

impl Ledger {
    /// The chain is well-formed and the two derived sets are those of the
    /// chain.
    pub closed spec fn wf(&self) -> bool {
        &&& chain_wf(self@)
        &&& self.spent@ == chain_serials(self@)
        &&& self.commitments@ == chain_commitments(self@)
    }

    /// What well-formedness says of the chain.
    pub proof fn lemma_wf(&self)
        requires
            self.wf(),
        ensures
            chain_wf(self@),
    {
    }

    /// No serial number is spent twice along a committed chain: the serial
    /// numbers at two different places, whether in one transaction, in two
    /// transactions of a block or in two blocks, differ.
    pub proof fn lemma_no_double_spend(
        &self,
        block: int,
        tx: int,
        serial: int,
        other_block: int,
        other_tx: int,
        other_serial: int,
    )
        requires
            self.wf(),
            0 <= block < self@.len(),
            0 <= tx < self@[block].transactions.len(),
            0 <= serial < self@[block].transactions[tx].serial_numbers.len(),
            0 <= other_block < self@.len(),
            0 <= other_tx < self@[other_block].transactions.len(),
            0 <= other_serial < self@[other_block].transactions[other_tx].serial_numbers.len(),
            block != other_block || tx != other_tx || serial != other_serial,
        ensures
            chain_serials(self@).no_duplicates(),
            self@[block].transactions[tx].serial_numbers[serial]
                != self@[other_block].transactions[other_tx].serial_numbers[other_serial],
    {
        let chain = self@;
        let parts = block_serial_lists(chain);
        let here = serial_lists(chain[block].transactions);
        let there = serial_lists(chain[other_block].transactions);
        lemma_concat_all_at(here, tx, serial);
        lemma_concat_all_at(there, other_tx, other_serial);
        let at = concat_all(here.take(tx)).len() + serial;
        let other_at = concat_all(there.take(other_tx)).len() + other_serial;
        assert(parts[block] == concat_all(here));
        assert(parts[other_block] == concat_all(there));
        if block != other_block {
            lemma_concat_all_distinct(parts, block, at, other_block, other_at);
        } else {
            assert forall|p: int, q: int|
                0 <= p < parts[block].len() && 0 <= q < parts[block].len() && p != q implies parts[block][p]
                != parts[block][q] by {
                lemma_concat_all_distinct(parts, block, p, block, q);
            }
            lemma_concat_all_distinct(here, tx, serial, other_tx, other_serial);
        }
    }

    /// Every block after the genesis block names the block below it as its
    /// parent.
    pub proof fn lemma_parent_links(&self, height: int)
        requires
            self.wf(),
            1 <= height < self@.len(),
        ensures
            self@[height].parent == self@[height - 1].digest,
    {
        assert(extends_parent(self@, height));
    }

    /// A ledger that holds `genesis` alone. Fails with `SerialReuse` where
    /// the genesis block spends a serial number twice.
    pub fn new(genesis: Block) -> (made: Result<Ledger, StoreError>)
        ensures
            made is Ok <==> serials_of(genesis@.transactions).no_duplicates(),
            made is Ok ==> made->Ok_0.wf() && made->Ok_0@ == seq![genesis@],
            made is Err ==> made->Err_0 == StoreError::SerialReuse,
    {
        let none: Vec<u64> = Vec::new();
        assert(none@ + serials_of(genesis@.transactions) =~= serials_of(genesis@.transactions));
        match unspent_serials(&genesis.transactions, &none) {
            None => Err(StoreError::SerialReuse),
            Some(spent) => {
                let commitments = collect_commitments(&genesis.transactions);
                let mut blocks: Vec<Block> = Vec::new();
                blocks.push(genesis);
                let ledger = Ledger { blocks, spent, commitments };
                proof {
                    assert(ledger@ =~= seq![genesis@]);
                    lemma_genesis_wf(genesis@);
                }
                Ok(ledger)
            },
        }
    }

    /// The ledger of a chain that was committed before: `blocks` from the
    /// genesis block to the tip. The chain and the two derived sets are
    /// built anew, each block held to what the store itself answers for.
    pub fn restore(blocks: Vec<Block>) -> (made: Result<Ledger, StoreError>)
        ensures
            match restore_failure(block_views(blocks@)) {
                None => made is Ok && made->Ok_0.wf() && made->Ok_0@ == block_views(blocks@),
                Some(error) => made is Err && made->Err_0 == error,
            },
    {
        let ghost views = block_views(blocks@);
        let count = blocks.len();
        let mut stack = reversed(blocks);
        if stack.len() == 0 {
            return Err(StoreError::NoGenesis);
        }
        let first = stack.pop();
        let genesis = first.unwrap();
        assert(genesis@ == views[0]);
        let mut ledger = match Ledger::new(genesis) {
            Ok(ledger) => ledger,
            Err(error) => {
                return Err(error);
            },
        };
        assert(ledger@ =~= views.take(1));
        while stack.len() > 0
            invariant
                ledger.wf(),
                count == views.len(),
                views == block_views(blocks@),
                1 <= count - stack@.len() <= count,
                ledger@ == views.take(count - stack@.len()),
                forall|k: int|
                    0 <= k < stack@.len() ==> (#[trigger] stack@[k])@ == views[count - 1 - k],
                replay_failure(views, count - stack@.len()) == restore_failure(views),
            decreases stack.len(),
        {
            let ghost at = count - stack@.len();
            let next = stack.pop();
            let block = next.unwrap();
            assert(block@ == views[at]);
            assert(views.take(at).push(views[at]) =~= views.take(at + 1));
            match ledger.append(block) {
                Ok(()) => {},
                Err(error) => {
                    return Err(error);
                },
            }
        }
        assert(views.take(count as int) =~= views);
        Ok(ledger)
    }

    /// The digests of the chain from the tip downwards, `depth` of them at
    /// most and one at least.
    pub fn locator(&self, depth: usize) -> (digests: Vec<u64>)
        requires
            self.wf(),
        ensures
            digests@.len() == (if depth == 0 {
                1
            } else if depth < self@.len() {
                depth as int
            } else {
                self@.len() as int
            }),
            forall|k: int|
                0 <= k < digests@.len() ==> #[trigger] digests@[k] == self@[self@.len() - 1 - k].digest,
    {
        let wanted = if depth == 0 {
            1
        } else if depth < self.blocks.len() {
            depth
        } else {
            self.blocks.len()
        };
        let mut digests: Vec<u64> = Vec::new();
        let mut k: usize = 0;
        while k < wanted
            invariant
                k <= wanted <= self.blocks.len(),
                self.blocks.len() == self@.len(),
                digests@.len() == k,
                forall|j: int|
                    0 <= j < k ==> #[trigger] digests@[j] == self@[self@.len() - 1 - j].digest,
            decreases wanted - k,
        {
            digests.push(self.blocks[self.blocks.len() - 1 - k].digest);
            k += 1;
        }
        digests
    }

    /// Copies of the blocks at the heights `from` to `to`, both included, as
    /// far as the chain holds them.
    pub fn blocks_between(&self, from: u64, to: u64) -> (blocks: Vec<Block>)
        requires
            self.wf(),
        ensures
            block_views(blocks@) == (if from <= to && from < self@.len() {
                self@.subrange(
                    from as int,
                    if to < self@.len() {
                        to + 1
                    } else {
                        self@.len() as int
                    },
                )
            } else {
                Seq::<BlockView>::empty()
            }),
    {
        let mut blocks: Vec<Block> = Vec::new();
        assert(block_views(blocks@) =~= Seq::<BlockView>::empty());
        if from > to || from >= self.blocks.len() as u64 {
            return blocks;
        }
        let first = from as usize;
        let end = if to < self.blocks.len() as u64 {
            to as usize + 1
        } else {
            self.blocks.len()
        };
        let mut i: usize = first;
        assert(self@.subrange(first as int, first as int) =~= Seq::<BlockView>::empty());
        while i < end
            invariant
                first <= i <= end <= self.blocks.len(),
                self.blocks.len() == self@.len(),
                blocks@.len() == i - first,
                block_views(blocks@) == self@.subrange(first as int, i as int),
            decreases end - i,
        {
            let copy = self.blocks[i].clone();
            blocks.push(copy);
            i += 1;
            assert(block_views(blocks@) =~= self@.subrange(first as int, i as int));
        }
        blocks
    }

    /// Height of the tip; the genesis block has height 0.
    pub fn height(&self) -> (h: u64)
        requires
            self.wf(),
        ensures
            h == self@.len() - 1,
            h < u64::MAX,
    {
        (self.blocks.len() - 1) as u64
    }

    /// The block at the tip.
    pub fn tip(&self) -> (block: &Block)
        requires
            self.wf(),
        ensures
            block@ == self@.last(),
    {
        &self.blocks[self.blocks.len() - 1]
    }

    /// Digest of the block at the tip.
    pub fn current_digest(&self) -> (digest: u64)
        requires
            self.wf(),
        ensures
            digest == self@.last().digest,
    {
        self.blocks[self.blocks.len() - 1].digest
    }

    /// Whether `serial` was spent along the chain.
    pub fn contains_serial(&self, serial: u64) -> (found: bool)
        requires
            self.wf(),
        ensures
            found == chain_serials(self@).contains(serial),
    {
        crate::lists::contains(&self.spent, serial)
    }

    /// Whether `commitment` was produced along the chain.
    pub fn contains_commitment(&self, commitment: u64) -> (found: bool)
        requires
            self.wf(),
        ensures
            found == chain_commitments(self@).contains(commitment),
    {
        crate::lists::contains(&self.commitments, commitment)
    }

    /// The block at `height`, if the chain reaches that far.
    pub fn block_at(&self, height: u64) -> (block: Option<&Block>)
        requires
            self.wf(),
        ensures
            block is Some <==> height < self@.len(),
            block is Some ==> block->Some_0@ == self@[height as int],
    {
        if height < self.blocks.len() as u64 {
            Some(&self.blocks[height as usize])
        } else {
            None
        }
    }

    /// Height of the block with digest `digest`, if the chain holds one.
    pub fn height_of(&self, digest: u64) -> (height: Option<u64>)
        requires
            self.wf(),
        ensures
            height is Some <==> has_digest(self@, digest),
            height is Some ==> height->Some_0 < self@.len() && self@[height->Some_0 as int].digest
                == digest,
    {
        let mut i: usize = 0;
        while i < self.blocks.len()
            invariant
                i <= self.blocks.len(),
                forall|k: int| 0 <= k < i ==> (#[trigger] self@[k]).digest != digest,
            decreases self.blocks.len() - i,
        {
            if self.blocks[i].digest == digest {
                assert(self@[i as int].digest == digest);
                return Some(i as u64);
            }
            i += 1;
        }
        None
    }

    /// The serial numbers spent along the chain, in order.
    pub fn spent_serials(&self) -> (list: &Vec<u64>)
        requires
            self.wf(),
        ensures
            list@ == chain_serials(self@),
    {
        &self.spent
    }

    /// The commitments produced along the chain, in order.
    pub fn known_commitments(&self) -> (list: &Vec<u64>)
        requires
            self.wf(),
        ensures
            list@ == chain_commitments(self@),
    {
        &self.commitments
    }

    /// The work of the blocks above `height`; none where the chain does not
    /// reach above it.
    pub fn work_above(&self, height: u64) -> (work: u128)
        requires
            self.wf(),
        ensures
            work == (if height < self@.len() {
                chain_work(self@.skip(height + 1))
            } else {
                0
            }),
    {
        assert(self.blocks.len() == self@.len());
        if height >= self.blocks.len() as u64 {
            return 0;
        }
        let from: usize = height as usize + 1;
        let work = total_work(&self.blocks, from);
        assert(self@.skip(from as int) == self@.skip(height + 1));
        work
    }

    /// Takes the tip off the chain.
    fn pop_tip(&mut self) -> (block: Block)
        requires
            old(self).wf(),
            old(self)@.len() >= 2,
        ensures
            final(self).wf(),
            final(self)@ == old(self)@.drop_last(),
            block@ == old(self)@.last(),
    {
        let ghost chain = self@;
        let ghost shorter = chain.drop_last();
        proof {
            assert(chain =~= shorter.push(chain.last()));
            lemma_chain_serials_push(shorter, chain.last());
            assert(chain.take(chain.len() - 1) =~= shorter);
            lemma_prefix_wf(chain, chain.len() - 1);
        }
        let tip = &self.blocks[self.blocks.len() - 1];
        assert(tip@ == chain.last());
        let spent_here = collect_serials(&tip.transactions).len();
        let made_here = collect_commitments(&tip.transactions).len();
        let keep_spent = self.spent.len() - spent_here;
        let keep_made = self.commitments.len() - made_here;
        self.spent.truncate(keep_spent);
        self.commitments.truncate(keep_made);
        let last = self.blocks.pop();
        proof {
            assert(self@ =~= shorter);
            assert(self.spent@ =~= chain_serials(shorter));
            assert(self.commitments@ =~= chain_commitments(shorter));
        }
        last.unwrap()
    }

    /// Takes the blocks above `height` off the chain and returns them, lowest
    /// first.
    pub(crate) fn truncate_to(&mut self, height: u64) -> (removed: Vec<Block>)
        requires
            old(self).wf(),
            height < old(self)@.len(),
        ensures
            final(self).wf(),
            final(self)@ == old(self)@.take(height + 1),
            block_views(removed@) == old(self)@.skip(height + 1),
    {
        let ghost chain = self@;
        let mut stack: Vec<Block> = Vec::new();
        assert(self@ =~= chain.take(self@.len() as int));
        while self.blocks.len() as u64 > height + 1
            invariant
                self.wf(),
                height < self@.len() <= chain.len(),
                self.blocks.len() == self@.len(),
                self@ == chain.take(self@.len() as int),
                stack@.len() == chain.len() - self@.len(),
                forall|k: int|
                    0 <= k < stack@.len() ==> (#[trigger] stack@[k])@ == chain[chain.len() - 1 - k],
            decreases self.blocks.len(),
        {
            let block = self.pop_tip();
            assert(self@ =~= chain.take(self@.len() as int));
            stack.push(block);
        }
        let removed = reversed(stack);
        assert(block_views(removed@) =~= chain.skip(height + 1));
        removed
    }

    /// Puts `blocks` back on the chain, where the chain with them is
    /// well-formed.
    pub(crate) fn reattach(&mut self, blocks: Vec<Block>)
        requires
            old(self).wf(),
            chain_wf(old(self)@ + block_views(blocks@)),
        ensures
            final(self).wf(),
            final(self)@ == old(self)@ + block_views(blocks@),
    {
        let ghost base = self@;
        let ghost views = block_views(blocks@);
        let ghost whole = base + views;
        let mut stack = reversed(blocks);
        let count = stack.len();
        assert(self@ =~= whole.take(base.len() as int));
        while stack.len() > 0
            invariant
                self.wf(),
                chain_wf(whole),
                whole == base + views,
                count == views.len(),
                stack@.len() <= count,
                self@ == whole.take(base.len() + count - stack@.len()),
                forall|k: int|
                    0 <= k < stack@.len() ==> (#[trigger] stack@[k])@ == views[count - 1 - k],
            decreases stack.len(),
        {
            let ghost at = self@.len() as int;
            let next = stack.pop();
            let block = next.unwrap();
            proof {
                assert(block@ == whole[at]);
                lemma_prefix_wf(whole, at + 1);
                assert(whole.take(at + 1) =~= self@.push(block@));
                lemma_append_failure(self@, block@);
            }
            self.attach(block);
        }
        assert(whole.take(whole.len() as int) =~= whole);
    }

    /// Commits `block`: appends it to the chain, the serial numbers it spends
    /// to the spent set and the commitments it produces to the commitment set,
    /// all three or none. The block is held to the consensus rules once more,
    /// against the ledger as it is now: a block whose parent is no longer the
    /// tip is refused as stale, and one that breaks another rule as not
    /// validated; the ledger then stays as it was.
    pub fn commit(&mut self, block: Block, params: &ConsensusParameters, now: i64) -> (done: Result<
        (),
        StoreError,
    >)
        requires
            old(self).wf(),
        ensures
            final(self).wf(),
            match commit_failure(old(self)@, block@, *params, now) {
                None => done is Ok && final(self)@ == old(self)@.push(block@) && block@.parent
                    == old(self)@.last().digest,
                Some(error) => done == Err::<(), StoreError>(error) && final(self)@ == old(self)@,
            },
    {
        match validate_block(&block, self, params, now) {
            Verdict::Reject(RejectReason::WrongParent) => Err(StoreError::StaleTip),
            Verdict::Reject(reason) => Err(StoreError::NotValidated(reason)),
            Verdict::Accept => {
                proof {
                    lemma_accepted_block_commits(block@, self@, *params, now);
                }
                self.attach(block);
                Ok(())
            },
        }
    }

    /// Appends a block that can stand on the chain, the serial numbers it
    /// spends to the spent set and the commitments it produces to the
    /// commitment set.
    pub(crate) fn attach(&mut self, block: Block)
        requires
            old(self).wf(),
            append_failure(old(self)@, block@) is None,
        ensures
            final(self).wf(),
            final(self)@ == old(self)@.push(block@),
    {
        let fresh = collect_serials(&block.transactions);
        let produced = collect_commitments(&block.transactions);
        proof {
            lemma_append_failure(self@, block@);
            lemma_chain_serials_push(self@, block@);
            assert(block_views(self.blocks@.push(block)) =~= self@.push(block@));
        }
        extend(&mut self.spent, &fresh);
        extend(&mut self.commitments, &produced);
        self.blocks.push(block);
    }

    /// Appends `block` to the chain, the serial numbers it spends to the spent
    /// set and the commitments it produces to the commitment set, all three or
    /// none: where the block does not extend the tip, repeats a digest or spends
    /// a serial number again, the ledger stays as it was.
    fn append(&mut self, block: Block) -> (done: Result<(), StoreError>)
        requires
            old(self).wf(),
        ensures
            final(self).wf(),
            match append_failure(old(self)@, block@) {
                None => done is Ok && final(self)@ == old(self)@.push(block@) && block@.parent
                    == old(self)@.last().digest,
                Some(error) => done == Err::<(), StoreError>(error) && final(self)@ == old(self)@,
            },
    {
        if block.parent != self.current_digest() {
            return Err(StoreError::StaleTip);
        }
        if self.height_of(block.digest).is_some() {
            return Err(StoreError::DuplicateBlock);
        }
        match unspent_serials(&block.transactions, &self.spent) {
            None => Err(StoreError::SerialReuse),
            Some(fresh) => {
                let produced = collect_commitments(&block.transactions);
                proof {
                    lemma_append_failure(self@, block@);
                    lemma_chain_serials_push(self@, block@);
                    assert(block_views(self.blocks@.push(block)) =~= self@.push(block@));
                }
                extend(&mut self.spent, &fresh);
                extend(&mut self.commitments, &produced);
                self.blocks.push(block);
                Ok(())
            },
        }
    }
}

} // verus!
