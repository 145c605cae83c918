//! From a Unix timestamp to the first block that is not older.
//!
//! Block timestamps never fall as block numbers rise, so the block is found
//! by bisection. A `BlockSearch` holds the state of one bisection: whoever
//! drives it asks for the next block to look up, looks it up, and hands the
//! block's timestamp back, until no block is asked for any more.

use vstd::prelude::*;

verus! {

/// Whether the timestamps, indexed by block number, never fall.
pub open spec fn is_monotonic(timestamps: Seq<u64>) -> bool {
    forall|i: int, j: int| 0 <= i <= j < timestamps.len() ==> timestamps[i] <= timestamps[j]
}

/// Whether `block` is what `target` resolves to in a chain with the given
/// block timestamps: the first block whose timestamp is `target` or later, or
/// the latest block if all are older.
pub open spec fn is_resolution(timestamps: Seq<u64>, target: u64, block: int) -> bool {
    &&& 0 <= block < timestamps.len()
    &&& forall|n: int| 0 <= n < block ==> timestamps[n] < target
    &&& block == timestamps.len() - 1 || timestamps[block] >= target
}

/// The state of one bisection: the block sought lies in `low..=high`.
#[derive(Clone, Copy, Debug, PartialEq, Eq)]
pub struct BlockSearch {
    pub target: u64,
    pub low: u64,
    pub high: u64,
}

impl BlockSearch {
    /// Whether the search is over.
    pub open spec fn is_done(self) -> bool {
        self.low >= self.high
    }

    /// The block in the middle of the range.
    pub open spec fn middle(self) -> u64 {
        (self.low + (self.high - self.low) / 2) as u64
    }

    /// The state after the middle block was seen to have `block_timestamp`:
    /// the upper half of the range if the block is older than the target,
    /// else the lower half with the block itself.
    pub open spec fn after(self, block_timestamp: u64) -> BlockSearch {
        if self.is_done() {
            self
        } else if block_timestamp < self.target {
            BlockSearch { target: self.target, low: (self.middle() + 1) as u64, high: self.high }
        } else {
            BlockSearch { target: self.target, low: self.low, high: self.middle() }
        }
    }

    /// Whether the range holds what the target resolves to in a chain with
    /// the given block timestamps.
    pub open spec fn brackets(self, timestamps: Seq<u64>) -> bool {
        &&& self.low <= self.high < timestamps.len()
        &&& forall|n: int| 0 <= n < self.low ==> timestamps[n] < self.target
        &&& self.high == timestamps.len() - 1 || timestamps[self.high as int] >= self.target
    }

    /// A search for `target` among the blocks `0..=latest_block`.
    pub fn new(target: u64, latest_block: u64) -> (search: BlockSearch)
        ensures
            search == (BlockSearch { target, low: 0, high: latest_block }),
    {
        BlockSearch { target, low: 0, high: latest_block }
    }

    /// The block whose timestamp is wanted next, or `None` when the search
    /// is over.
    pub fn next_probe(&self) -> (block: Option<u64>)
        ensures
            block == (if self.is_done() {
                None
            } else {
                Some(self.middle())
            }),
    {
        if self.low < self.high {
            Some(self.low + (self.high - self.low) / 2)
        } else {
            None
        }
    }

    /// Takes in the timestamp of the block that `next_probe` asked for, which
    /// halves the range at least. A search that is over stays as it is.
    pub fn observe(&mut self, block_timestamp: u64)
        ensures
            *final(self) == old(self).after(block_timestamp),
            !old(self).is_done() ==> final(self).high - final(self).low <= (old(self).high
                - old(self).low) / 2,
    {
        if self.low < self.high {
            let middle = self.low + (self.high - self.low) / 2;
            if block_timestamp < self.target {
                self.low = middle + 1;
            } else {
                self.high = middle;
            }
        }
    }

    /// The block found; it is final once the search is over.
    pub fn block(&self) -> (block: u64)
        ensures
            block == self.low,
    {
        self.low
    }
}

/// A fresh search brackets the resolution.
pub proof fn lemma_search_starts(timestamps: Seq<u64>, target: u64, latest_block: u64)
    requires
        timestamps.len() == latest_block + 1,
    ensures
        (BlockSearch { target, low: 0, high: latest_block }).brackets(timestamps),
{
}

/// Observing the true timestamp of the middle block keeps the resolution
/// bracketed.
pub proof fn lemma_search_step(search: BlockSearch, timestamps: Seq<u64>)
    requires
        is_monotonic(timestamps),
        search.brackets(timestamps),
        !search.is_done(),
    ensures
        search.after(timestamps[search.middle() as int]).brackets(timestamps),
{
    let middle = search.middle() as int;
    let next = search.after(timestamps[middle]);
    if timestamps[middle] < search.target {
        assert forall|n: int| 0 <= n < next.low implies timestamps[n] < search.target by {
            assert(timestamps[n] <= timestamps[middle]);
        }
    }
}

/// A finished search that brackets the resolution has found it.
pub proof fn lemma_search_ends(search: BlockSearch, timestamps: Seq<u64>)
    requires
        search.brackets(timestamps),
        search.is_done(),
    ensures
        is_resolution(timestamps, search.target, search.low as int),
{
}

/// A timestamp resolves to one block only.
pub proof fn lemma_resolution_unique(timestamps: Seq<u64>, target: u64, first: int, second: int)
    requires
        is_resolution(timestamps, target, first),
        is_resolution(timestamps, target, second),
    ensures
        first == second,
{
}

/// A later timestamp never resolves to an earlier block.
pub proof fn lemma_resolution_monotonic(
    timestamps: Seq<u64>,
    earlier: u64,
    later: u64,
    earlier_block: int,
    later_block: int,
)
    requires
        earlier < later,
        is_resolution(timestamps, earlier, earlier_block),
        is_resolution(timestamps, later, later_block),
    ensures
        earlier_block <= later_block,
{
}

/// Resolves `target` in a chain whose block timestamps, indexed by block
/// number, are all at hand: the first block whose timestamp is `target` or
/// later, or the latest block if all are older.
pub fn resolve_in_table(timestamps: &[u64], target: u64) -> (block: u64)
    requires
        timestamps@.len() > 0,
        timestamps@.len() <= u64::MAX,
        is_monotonic(timestamps@),
    ensures
        is_resolution(timestamps@, target, block as int),
{
    let latest: u64 = (timestamps.len() - 1) as u64;
    let mut search = BlockSearch::new(target, latest);
    loop
        invariant
            is_monotonic(timestamps@),
            search.brackets(timestamps@),
            search.target == target,
        ensures
            search.is_done(),
        decreases search.high - search.low,
    {
        match search.next_probe() {
            Some(block) => {
                proof {
                    lemma_search_step(search, timestamps@);
                }
                search.observe(timestamps[block as usize]);
            },
            None => {
                break;
            },
        }
    }
    search.block()
}

} // verus!
