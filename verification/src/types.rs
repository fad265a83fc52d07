//! Transactions and blocks, and the views that contracts speak of.

use crate::lists::{concat_all, copy_of, extend, lemma_concat_all_step};
use vstd::prelude::*;

verus! {

/// Serialized size of a block without its transactions, in bytes.
pub const BLOCK_HEADER_SIZE: usize = 36;

/// A proof-carrying transfer. The proof itself stays with the verifier,
/// which judges it before the record reaches the rules; the record carries
/// the verdict.
#[derive(Debug)]
pub struct Transaction {
    /// Identifier of the transaction.
    pub id: u64,
    /// Serial numbers that the transaction consumes.
    pub serial_numbers: Vec<u64>,
    /// Commitments that the transaction produces.
    pub commitments: Vec<u64>,
    /// Commitments that the transaction refers to as its inputs.
    pub inputs: Vec<u64>,
    /// Fee offered to the miner.
    pub fee: i64,
    /// Serialized size in bytes.
    pub size: usize,
    /// Whether the proof verifier accepted the transaction's proof.
    pub proof_verified: bool,
}

/// What a transaction is to the contracts.
pub struct TransactionView {
    pub id: u64,
    pub serial_numbers: Seq<u64>,
    pub commitments: Seq<u64>,
    pub inputs: Seq<u64>,
    pub fee: i64,
    pub size: usize,
    pub proof_verified: bool,
}

impl View for Transaction {
    type V = TransactionView;

    open spec fn view(&self) -> TransactionView {
        TransactionView {
            id: self.id,
            serial_numbers: self.serial_numbers@,
            commitments: self.commitments@,
            inputs: self.inputs@,
            fee: self.fee,
            size: self.size,
            proof_verified: self.proof_verified,
        }
    }
}

impl Clone for Transaction {
    fn clone(&self) -> (copy: Self)
        ensures
            copy@ == self@,
    {
        Transaction {
            id: self.id,
            serial_numbers: copy_of(&self.serial_numbers),
            commitments: copy_of(&self.commitments),
            inputs: copy_of(&self.inputs),
            fee: self.fee,
            size: self.size,
            proof_verified: self.proof_verified,
        }
    }
}

/// The views of a list of transactions.
pub open spec fn transaction_views(list: Seq<Transaction>) -> Seq<TransactionView> {
    list.map_values(|t: Transaction| t@)
}

/// A block: a header and the transactions it confirms. The digest is that of
/// the block's contents under the network's hash function; whoever makes the
/// value computes it, and the rules read it.
#[derive(Debug)]
pub struct Block {
    /// Digest of the parent block.
    pub parent: u64,
    /// Digest of this block.
    pub digest: u64,
    /// Seconds since the epoch at which the block was made.
    pub timestamp: i64,
    /// Nonce found by the proof-of-work search.
    pub nonce: u32,
    /// Largest digest that counts as sufficient work for this block.
    pub difficulty_target: u64,
    /// The transactions, in the order in which they apply.
    pub transactions: Vec<Transaction>,
}

/// What a block is to the contracts.
pub struct BlockView {
    pub parent: u64,
    pub digest: u64,
    pub timestamp: i64,
    pub nonce: u32,
    pub difficulty_target: u64,
    pub transactions: Seq<TransactionView>,
}

impl View for Block {
    type V = BlockView;

    open spec fn view(&self) -> BlockView {
        BlockView {
            parent: self.parent,
            digest: self.digest,
            timestamp: self.timestamp,
            nonce: self.nonce,
            difficulty_target: self.difficulty_target,
            transactions: transaction_views(self.transactions@),
        }
    }
}

/// The views of a list of blocks.
pub open spec fn block_views(list: Seq<Block>) -> Seq<BlockView> {
    list.map_values(|b: Block| b@)
}

/// A copy of a list of transactions.
pub fn copy_transactions(list: &Vec<Transaction>) -> (copy: Vec<Transaction>)
    ensures
        transaction_views(copy@) == transaction_views(list@),
{
    let mut copy: Vec<Transaction> = Vec::new();
    let mut i: usize = 0;
    while i < list.len()
        invariant
            i <= list.len(),
            copy.len() == i,
            transaction_views(copy@) == transaction_views(list@).take(i as int),
        decreases list.len() - i,
    {
        let item = list[i].clone();
        copy.push(item);
        i += 1;
        assert(transaction_views(copy@) =~= transaction_views(list@).take(i as int));
    }
    assert(transaction_views(list@).take(list.len() as int) =~= transaction_views(list@));
    copy
}

impl Clone for Block {
    fn clone(&self) -> (copy: Self)
        ensures
            copy@ == self@,
    {
        Block {
            parent: self.parent,
            digest: self.digest,
            timestamp: self.timestamp,
            nonce: self.nonce,
            difficulty_target: self.difficulty_target,
            transactions: copy_transactions(&self.transactions),
        }
    }
}

/// The serial numbers of each transaction of a list.
pub open spec fn serial_lists(list: Seq<TransactionView>) -> Seq<Seq<u64>> {
    list.map_values(|t: TransactionView| t.serial_numbers)
}

/// The commitments of each transaction of a list.
pub open spec fn commitment_lists(list: Seq<TransactionView>) -> Seq<Seq<u64>> {
    list.map_values(|t: TransactionView| t.commitments)
}

/// The serial numbers that a list of transactions consumes, in order.
pub open spec fn serials_of(list: Seq<TransactionView>) -> Seq<u64> {
    concat_all(serial_lists(list))
}

/// The commitments that a list of transactions produces, in order.
pub open spec fn commitments_of(list: Seq<TransactionView>) -> Seq<u64> {
    concat_all(commitment_lists(list))
}

/// The serial numbers that `list` consumes.
pub fn collect_serials(list: &Vec<Transaction>) -> (all: Vec<u64>)
    ensures
        all@ == serials_of(transaction_views(list@)),
{
    let ghost parts = serial_lists(transaction_views(list@));
    let mut all: Vec<u64> = Vec::new();
    let mut i: usize = 0;
    assert(concat_all(parts.take(0)) =~= Seq::<u64>::empty());
    while i < list.len()
        invariant
            i <= list.len(),
            parts == serial_lists(transaction_views(list@)),
            all@ == concat_all(parts.take(i as int)),
        decreases list.len() - i,
    {
        proof {
            lemma_concat_all_step(parts, i as int);
        }
        extend(&mut all, &list[i].serial_numbers);
        i += 1;
    }
    assert(parts.take(list.len() as int) =~= parts);
    all
}

/// The commitments that `list` produces.
pub fn collect_commitments(list: &Vec<Transaction>) -> (all: Vec<u64>)
    ensures
        all@ == commitments_of(transaction_views(list@)),
{
    let ghost parts = commitment_lists(transaction_views(list@));
    let mut all: Vec<u64> = Vec::new();
    let mut i: usize = 0;
    assert(concat_all(parts.take(0)) =~= Seq::<u64>::empty());
    while i < list.len()
        invariant
            i <= list.len(),
            parts == commitment_lists(transaction_views(list@)),
            all@ == concat_all(parts.take(i as int)),
        decreases list.len() - i,
    {
        proof {
            lemma_concat_all_step(parts, i as int);
        }
        extend(&mut all, &list[i].commitments);
        i += 1;
    }
    assert(parts.take(list.len() as int) =~= parts);
    all
}

/// The identifiers of a list of transactions, in order.
pub open spec fn ids_of(list: Seq<TransactionView>) -> Seq<u64> {
    list.map_values(|t: TransactionView| t.id)
}

/// The identifiers of `list`.
pub fn collect_ids(list: &Vec<Transaction>) -> (all: Vec<u64>)
    ensures
        all@ == ids_of(transaction_views(list@)),
{
    let mut all: Vec<u64> = Vec::new();
    let mut i: usize = 0;
    while i < list.len()
        invariant
            i <= list.len(),
            all@ == ids_of(transaction_views(list@)).take(i as int),
        decreases list.len() - i,
    {
        all.push(list[i].id);
        i += 1;
        assert(all@ =~= ids_of(transaction_views(list@)).take(i as int));
    }
    assert(all@ =~= ids_of(transaction_views(list@)));
    all
}

/// Sum of the serialized sizes of a list of transactions.
pub open spec fn total_size(list: Seq<TransactionView>) -> nat
    decreases list.len(),
{
    if list.len() == 0 {
        0
    } else {
        total_size(list.drop_last()) + list.last().size as nat
    }
}

/// The sizes of a transaction and of those after it sum to the size of all.
pub proof fn lemma_total_size_front(first: TransactionView, rest: Seq<TransactionView>)
    ensures
        total_size(seq![first] + rest) == first.size + total_size(rest),
    decreases rest.len(),
{
    let all = seq![first] + rest;
    if rest.len() == 0 {
        assert(all.drop_last() =~= Seq::<TransactionView>::empty());
        assert(all.last() == first);
        assert(total_size(all.drop_last()) == 0);
        assert(total_size(rest) == 0);
    } else {
        assert(all.drop_last() =~= seq![first] + rest.drop_last());
        assert(all.last() == rest.last());
        lemma_total_size_front(first, rest.drop_last());
    }
}

/// Serialized size of a block.
pub open spec fn block_size(block: BlockView) -> nat {
    BLOCK_HEADER_SIZE as nat + total_size(block.transactions)
}

} // verus!
