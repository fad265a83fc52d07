//! The consensus parameters of a session and the difficulty rule derived
//! from them.

use vstd::prelude::*;

verus! {

/// How far ahead of the local clock a block's timestamp may lie, in seconds.
pub const MAX_FUTURE_DRIFT: i64 = 7200;

/// The number of possible digests; the work of a block is this over the
/// number of digests that meet its target.
pub const DIGEST_SPACE: u128 = 0x1_0000_0000_0000_0000;

/// Parameters that every component reads and none changes.
#[derive(Clone, Copy, Debug)]
pub struct ConsensusParameters {
    max_block_size: usize,
    max_nonce: u32,
    target_block_time: i64,
}

/// The time between two blocks as the difficulty rule counts it: never under
/// half the target block time, never over twice.
pub open spec fn clamp_elapsed(elapsed: int, spacing: int) -> int {
    if elapsed < spacing / 2 {
        spacing / 2
    } else if elapsed > spacing * 2 {
        spacing * 2
    } else {
        elapsed
    }
}

/// The difficulty target owed by a block made at `block_time` on a parent
/// made at `parent_time` with target `parent_target`: the parent's target
/// scaled by the counted time between them over the target block time, kept
/// within 1 and the largest digest.
pub open spec fn expected_target(
    parent_target: u64,
    parent_time: i64,
    block_time: i64,
    spacing: i64,
) -> u64 {
    let scaled = (parent_target as int * clamp_elapsed(block_time - parent_time, spacing as int))
        / (spacing as int);
    if scaled < 1 {
        1
    } else if scaled > u64::MAX {
        u64::MAX
    } else {
        scaled as u64
    }
}

/// The work that a block with target `target` stands for.
pub open spec fn block_work(target: u64) -> int {
    DIGEST_SPACE as int / (target as int + 1)
}

/// The work that `target` stands for: at least 1, at most the number of
/// digests.
pub fn work_of(target: u64) -> (work: u128)
    ensures
        work == block_work(target),
        1 <= work <= DIGEST_SPACE,
{
    let divisor: u128 = target as u128 + 1;
    assert(1 <= DIGEST_SPACE as int / divisor as int <= DIGEST_SPACE as int) by (nonlinear_arith)
        requires
            1 <= divisor <= DIGEST_SPACE,
    ;
    DIGEST_SPACE / divisor
}

impl ConsensusParameters {
    #[verifier::type_invariant]
    spec fn positive_block_time(self) -> bool {
        self.target_block_time > 0
    }

    /// Largest serialized size of a block, in bytes.
    pub closed spec fn size_limit(self) -> usize {
        self.max_block_size
    }

    /// Largest nonce of a block.
    pub closed spec fn nonce_limit(self) -> u32 {
        self.max_nonce
    }

    /// Seconds aimed at between two blocks.
    pub closed spec fn block_time(self) -> i64 {
        self.target_block_time
    }

    /// Parameters with the given limits, if the target block time is
    /// positive.
    pub fn new(max_block_size: usize, max_nonce: u32, target_block_time: i64) -> (made: Option<
        ConsensusParameters,
    >)
        ensures
            made is Some <==> target_block_time > 0,
            made is Some ==> made->Some_0.size_limit() == max_block_size
                && made->Some_0.nonce_limit() == max_nonce
                && made->Some_0.block_time() == target_block_time,
    {
        if target_block_time > 0 {
            Some(ConsensusParameters { max_block_size, max_nonce, target_block_time })
        } else {
            None
        }
    }

    /// The parameters of the main network: blocks of up to a billion bytes,
    /// every 32-bit nonce, ten seconds between blocks.
    pub fn standard() -> (made: ConsensusParameters)
        ensures
            made.size_limit() == 1_000_000_000,
            made.nonce_limit() == u32::MAX,
            made.block_time() == 10,
    {
        ConsensusParameters {
            max_block_size: 1_000_000_000,
            max_nonce: u32::MAX,
            target_block_time: 10,
        }
    }

    /// Largest serialized size of a block, in bytes.
    pub fn max_block_size(&self) -> (limit: usize)
        ensures
            limit == self.size_limit(),
    {
        self.max_block_size
    }

    /// Largest nonce of a block.
    pub fn max_nonce(&self) -> (limit: u32)
        ensures
            limit == self.nonce_limit(),
    {
        self.max_nonce
    }

    /// Seconds aimed at between two blocks.
    pub fn target_block_time(&self) -> (seconds: i64)
        ensures
            seconds == self.block_time(),
            seconds > 0,
    {
        proof {
            use_type_invariant(self);
        }
        self.target_block_time
    }

    /// The difficulty target owed by a block made at `block_time` on a parent
    /// made at `parent_time` with target `parent_target`.
    pub fn next_target(&self, parent_target: u64, parent_time: i64, block_time: i64) -> (target:
        u64)
        ensures
            target == expected_target(parent_target, parent_time, block_time, self.block_time()),
    {
        proof {
            use_type_invariant(self);
        }
        let spacing: u128 = self.target_block_time as u128;
        let low: u128 = spacing / 2;
        let high: u128 = spacing * 2;
        let elapsed: i128 = block_time as i128 - parent_time as i128;
        let counted: u128 = if elapsed < low as i128 {
            low
        } else if elapsed > high as i128 {
            high
        } else {
            elapsed as u128
        };
        assert(counted == clamp_elapsed(block_time - parent_time, self.target_block_time as int));
        assert(parent_target as int * counted as int <= 0xffff_ffff_ffff_ffff
            * 0xffff_ffff_ffff_ffff) by (nonlinear_arith)
            requires
                0 <= parent_target <= 0xffff_ffff_ffff_ffff,
                0 <= counted <= 0xffff_ffff_ffff_ffff,
        ;
        let product: u128 = parent_target as u128 * counted;
        let scaled: u128 = product / spacing;
        if scaled < 1 {
            1
        } else if scaled > u64::MAX as u128 {
            u64::MAX
        } else {
            scaled as u64
        }
    }
}

} // verus!
