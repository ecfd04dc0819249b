//! The alignment of two token sequences: the runs of tokens that both
//! share, in order, as `difflib` finds them.

use difflib::sequencematcher::SequenceMatcher;
use vstd::prelude::*;

verus! {

/// A run of `size` tokens that stands at `first_start` in the first sequence
/// and at `second_start` in the second.
#[derive(Clone, Copy, Debug, PartialEq, Eq)]
pub struct MatchingBlock {
    pub first_start: usize,
    pub second_start: usize,
    pub size: usize,
}

/// Where the block before `blocks[k]` ends in the first sequence; 0 for the
/// first block.
pub open spec fn first_end_before(blocks: Seq<MatchingBlock>, k: int) -> int {
    if k <= 0 {
        0
    } else {
        blocks[k - 1].first_start + blocks[k - 1].size
    }
}

/// Where the block before `blocks[k]` ends in the second sequence; 0 for the
/// first block.
pub open spec fn second_end_before(blocks: Seq<MatchingBlock>, k: int) -> int {
    if k <= 0 {
        0
    } else {
        blocks[k - 1].second_start + blocks[k - 1].size
    }
}

/// `blocks[k]` starts no earlier than the block before it ends, and ends
/// inside both sequences.
pub open spec fn block_fits(
    blocks: Seq<MatchingBlock>,
    k: int,
    first_len: int,
    second_len: int,
) -> bool {
    let block = blocks[k];
    &&& first_end_before(blocks, k) <= block.first_start
    &&& block.first_start + block.size <= first_len
    &&& second_end_before(blocks, k) <= block.second_start
    &&& block.second_start + block.size <= second_len
}

/// `blocks` is an alignment of two sequences of the given lengths: the blocks
/// come in order without overlap, none but the last is empty, and the last is
/// the empty block at the end of both sequences.
pub open spec fn is_alignment(blocks: Seq<MatchingBlock>, first_len: int, second_len: int) -> bool {
    &&& blocks.len() > 0
    &&& forall|k: int| 0 <= k < blocks.len() ==> block_fits(blocks, k, first_len, second_len)
    &&& forall|k: int| 0 <= k < blocks.len() - 1 ==> (#[trigger] blocks[k]).size > 0
    &&& blocks.last().first_start == first_len
    &&& blocks.last().second_start == second_len
    &&& blocks.last().size == 0
}

/// The matching blocks that `difflib` reports for two sequences of strings.
pub uninterp spec fn aligned_blocks(first: Seq<Seq<char>>, second: Seq<Seq<char>>) -> Seq<
    MatchingBlock,
>;

/// Builds a `SequenceMatcher` over the two sequences and asks it for
/// `get_matching_blocks`. The matcher compares and hashes the strings and
/// nothing else, so the blocks depend on the two sequences alone; what they
/// are is left to `difflib`.
#[verifier::external_body]
pub(crate) fn matching_blocks(first: &Vec<String>, second: &Vec<String>) -> (blocks: Vec<
    MatchingBlock,
>)
    ensures
        blocks@ == aligned_blocks(first.deep_view(), second.deep_view()),
{
    let mut matcher = SequenceMatcher::new(first, second);
    matcher.get_matching_blocks().into_iter().map(
        |m| MatchingBlock { first_start: m.first_start, second_start: m.second_start, size: m.size },
    ).collect()
}

/// Whether `blocks` is an alignment of two sequences of the given lengths.
pub fn check_alignment(blocks: &Vec<MatchingBlock>, first_len: usize, second_len: usize) -> (ok:
    bool)
    ensures
        ok == is_alignment(blocks@, first_len as int, second_len as int),
{
    let n = blocks.len();
    if n == 0 {
        return false;
    }
    let mut first_end: usize = 0;
    let mut second_end: usize = 0;
    let mut k: usize = 0;
    while k < n
        invariant
            n == blocks.len(),
            0 <= k <= n,
            first_end == first_end_before(blocks@, k as int),
            second_end == second_end_before(blocks@, k as int),
            first_end <= first_len,
            second_end <= second_len,
            forall|j: int| 0 <= j < k ==> block_fits(blocks@, j, first_len as int, second_len as int),
            forall|j: int| 0 <= j < k && j < n - 1 ==> (#[trigger] blocks@[j]).size > 0,
        decreases n - k,
    {
        let block = blocks[k];
        if block.first_start < first_end || block.first_start > first_len || block.size > first_len
            - block.first_start {
            assert(!block_fits(blocks@, k as int, first_len as int, second_len as int));
            return false;
        }
        if block.second_start < second_end || block.second_start > second_len || block.size
            > second_len - block.second_start {
            assert(!block_fits(blocks@, k as int, first_len as int, second_len as int));
            return false;
        }
        if k + 1 < n && block.size == 0 {
            return false;
        }
        first_end = block.first_start + block.size;
        second_end = block.second_start + block.size;
        k += 1;
    }
    let last = blocks[n - 1];
    last.first_start == first_len && last.second_start == second_len && last.size == 0
}

} // verus!
