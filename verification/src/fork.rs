//! Fork resolution: replacing the blocks above a common ancestor by a
//! competing suffix that stands for more work, all of it or none.

use crate::consensus::{
    block_verdict, lemma_accepted_block_commits, validate_block, RejectReason, Verdict,
};
use crate::ledger::{chain_wf, chain_work, reversed, total_work, Ledger};
use crate::params::ConsensusParameters;
use crate::types::{block_views, Block, BlockView};
use vstd::prelude::*;

verus! {

/// The verdict on a list of blocks put on `base` one after the other: the
/// verdict on the first block that fails, each judged on the chain that the
/// blocks before it have made.
pub open spec fn suffix_verdict(
    base: Seq<BlockView>,
    suffix: Seq<BlockView>,
    params: ConsensusParameters,
    now: i64,
) -> Verdict
    decreases suffix.len(),
{
    if suffix.len() == 0 {
        Verdict::Accept
    } else {
        let first = block_verdict(suffix.first(), base, params, now);
        if first is Reject {
            first
        } else {
            suffix_verdict(base.push(suffix.first()), suffix.drop_first(), params, now)
        }
    }
}

/// The suffix stands for strictly more work than the blocks of `chain` above
/// `ancestor`.
pub open spec fn heavier(chain: Seq<BlockView>, ancestor: int, suffix: Seq<BlockView>) -> bool {
    chain_work(suffix) > chain_work(chain.skip(ancestor + 1))
}

/// How an attempt to switch to a competing suffix ended.
#[derive(PartialEq, Eq, Structural, Clone, Copy, Debug)]
pub enum ForkOutcome {
    /// The suffix replaced the blocks above the ancestor.
    Adopted,
    /// The suffix does not stand for more work than the blocks it would
    /// replace.
    NotHeavier,
    /// A block of the suffix failed validation.
    Invalid(RejectReason),
    /// The chain does not reach the height given as the ancestor's.
    UnknownAncestor,
}

/// How an attempt to put `suffix` on the block at height `ancestor` ends.
pub open spec fn fork_outcome(
    chain: Seq<BlockView>,
    ancestor: int,
    suffix: Seq<BlockView>,
    params: ConsensusParameters,
    now: i64,
) -> ForkOutcome {
    if ancestor >= chain.len() {
        ForkOutcome::UnknownAncestor
    } else if !heavier(chain, ancestor, suffix) {
        ForkOutcome::NotHeavier
    } else {
        match suffix_verdict(chain.take(ancestor + 1), suffix, params, now) {
            Verdict::Accept => ForkOutcome::Adopted,
            Verdict::Reject(reason) => ForkOutcome::Invalid(reason),
        }
    }
}

/// The chain after an attempt to put `suffix` on the block at height
/// `ancestor`.
pub open spec fn after_fork(
    chain: Seq<BlockView>,
    ancestor: int,
    suffix: Seq<BlockView>,
    params: ConsensusParameters,
    now: i64,
) -> Seq<BlockView> {
    if fork_outcome(chain, ancestor, suffix, params, now) is Adopted {
        chain.take(ancestor + 1) + suffix
    } else {
        chain
    }
}

/// Fork resolution is all or nothing: unless every block of the suffix
/// validates, the chain is the one from before.
pub proof fn lemma_fork_all_or_nothing(
    chain: Seq<BlockView>,
    ancestor: int,
    suffix: Seq<BlockView>,
    params: ConsensusParameters,
    now: i64,
)
    requires
        0 <= ancestor < chain.len(),
        suffix_verdict(chain.take(ancestor + 1), suffix, params, now) is Reject,
    ensures
        after_fork(chain, ancestor, suffix, params, now) == chain,
{
}

/// The heavier chain wins, whatever the heights: a valid suffix replaces the
/// blocks above the ancestor exactly when it stands for strictly more work
/// than they do.
pub proof fn lemma_heavier_chain_wins(
    chain: Seq<BlockView>,
    ancestor: int,
    suffix: Seq<BlockView>,
    params: ConsensusParameters,
    now: i64,
)
    requires
        0 <= ancestor < chain.len(),
        suffix_verdict(chain.take(ancestor + 1), suffix, params, now) is Accept,
    ensures
        chain_work(suffix) > chain_work(chain.skip(ancestor + 1)) ==> after_fork(
            chain,
            ancestor,
            suffix,
            params,
            now,
        ) == chain.take(ancestor + 1) + suffix,
        chain_work(suffix) <= chain_work(chain.skip(ancestor + 1)) ==> after_fork(
            chain,
            ancestor,
            suffix,
            params,
            now,
        ) == chain,
{
}

/// What an attempt to switch chains hands back.
pub struct Resolution {
    /// How the attempt ended.
    pub outcome: ForkOutcome,
    /// The blocks that left the chain, lowest first; empty unless the suffix
    /// was adopted.
    pub discarded: Vec<Block>,
}

/// Tries to replace the blocks above height `ancestor` by `suffix`. The
/// suffix wins where it stands for strictly more work than the blocks it
/// would replace and each of its blocks validates on the chain that the
/// blocks before it make. Where it does not win, the ledger is as before.
pub fn reorganize(
    ledger: &mut Ledger,
    ancestor: u64,
    suffix: Vec<Block>,
    params: &ConsensusParameters,
    now: i64,
) -> (resolution: Resolution)
    requires
        old(ledger).wf(),
    ensures
        final(ledger).wf(),
        resolution.outcome == fork_outcome(
            old(ledger)@,
            ancestor as int,
            block_views(suffix@),
            *params,
            now,
        ),
        final(ledger)@ == after_fork(
            old(ledger)@,
            ancestor as int,
            block_views(suffix@),
            *params,
            now,
        ),
        block_views(resolution.discarded@) == (if resolution.outcome is Adopted {
            old(ledger)@.skip(ancestor + 1)
        } else {
            Seq::<BlockView>::empty()
        }),
{
    let ghost chain = ledger@;
    let ghost views = block_views(suffix@);
    proof {
        ledger.lemma_wf();
    }
    if ancestor > ledger.height() {
        let resolution = Resolution { outcome: ForkOutcome::UnknownAncestor, discarded: Vec::new() };
        assert(block_views(resolution.discarded@) =~= Seq::<BlockView>::empty());
        return resolution;
    }
    assert(views.skip(0) =~= views);
    if total_work(&suffix, 0) <= ledger.work_above(ancestor) {
        let resolution = Resolution { outcome: ForkOutcome::NotHeavier, discarded: Vec::new() };
        assert(block_views(resolution.discarded@) =~= Seq::<BlockView>::empty());
        return resolution;
    }
    let ghost base = chain.take(ancestor + 1);
    let count = suffix.len();
    let removed = ledger.truncate_to(ancestor);
    let mut stack = reversed(suffix);
    assert(ledger@ =~= base + views.take(0));
    assert(views.skip(0) =~= views);
    while stack.len() > 0
        invariant
            ledger.wf(),
            count == views.len(),
            stack@.len() <= count,
            chain == old(ledger)@,
            views == block_views(suffix@),
            base == chain.take(ancestor + 1),
            ancestor < chain.len(),
            chain_wf(chain),
            heavier(chain, ancestor as int, views),
            block_views(removed@) == chain.skip(ancestor + 1),
            ledger@ == base + views.take(count - stack@.len()),
            forall|k: int| 0 <= k < stack@.len() ==> (#[trigger] stack@[k])@ == views[count - 1 - k],
            suffix_verdict(ledger@, views.skip(count - stack@.len()), *params, now)
                == suffix_verdict(base, views, *params, now),
        decreases stack.len(),
    {
        let ghost done = count - stack@.len();
        let ghost current = ledger@;
        let next = stack.pop();
        let block = next.unwrap();
        proof {
            assert(block@ == views[done]);
            assert(views.skip(done).first() == views[done]);
            assert(views.skip(done).drop_first() =~= views.skip(done + 1));
        }
        match validate_block(&block, ledger, params, now) {
            Verdict::Reject(reason) => {
                assert(suffix_verdict(current, views.skip(done), *params, now) == Verdict::Reject(
                    reason,
                ));
                proof {
                    ledger.lemma_wf();
                }
                ledger.truncate_to(ancestor);
                proof {
                    assert(ledger@ =~= base);
                    assert(base + chain.skip(ancestor + 1) =~= chain);
                }
                ledger.reattach(removed);
                return Resolution { outcome: ForkOutcome::Invalid(reason), discarded: Vec::new() };
            },
            Verdict::Accept => {
                proof {
                    ledger.lemma_wf();
                    lemma_accepted_block_commits(block@, ledger@, *params, now);
                    assert(ledger@.push(block@) =~= base + views.take(done + 1));
                }
                ledger.attach(block);
            },
        }
    }
    proof {
        assert(views.take(count as int) =~= views);
        assert(views.skip(count as int) =~= Seq::<BlockView>::empty());
    }
    Resolution { outcome: ForkOutcome::Adopted, discarded: removed }
}

} // verus!
