//! The diff block model: normalized change blocks with half-open line ranges.

use vstd::prelude::*;

verus! {

/// The operation a diff block performs.
#[derive(Clone, Copy, Debug, PartialEq, Eq, Structural)]
pub enum DiffOp {
    Insert,
    Delete,
    Modify,
}

/// One raw hunk as reported by the diff backend: two half-open line ranges
/// and an operation, not yet validated.
#[derive(Clone, Copy, Debug, PartialEq, Eq, Structural)]
pub struct RawHunk {
    pub left_start: u32,
    pub left_end: u32,
    pub right_start: u32,
    pub right_end: u32,
    pub op: DiffOp,
}

/// One validated contiguous change: `left_start..left_end` on the left text,
/// `right_start..right_end` on the right text (0-based, half-open).
///
/// Invariants (checked by [`compute_blocks`]): both ranges are well formed;
/// an `Insert` has an empty left range, a `Delete` an empty right range, and
/// a `Modify` two non-empty ranges.
#[derive(Clone, Copy, Debug, PartialEq, Eq, Structural)]
pub struct DiffBlock {
    pub left_start: u32,
    pub left_end: u32,
    pub right_start: u32,
    pub right_end: u32,
    pub op: DiffOp,
}

/// Why a raw hunk list was rejected.
#[derive(Clone, Copy, Debug, PartialEq, Eq, Structural)]
pub enum BlockError {
    /// Some hunk has a range whose end lies before its start.
    InvalidRange,
    /// Some hunk's emptiness pattern contradicts its operation.
    InvalidOperation,
    /// The hunks are not in ascending, non-overlapping order on both sides.
    OutOfOrder,
}

/// Both ranges of the hunk are well formed (end not before start).
pub open spec fn hunk_ranges_valid(h: RawHunk) -> bool {
    h.left_start <= h.left_end && h.right_start <= h.right_end
}

/// The hunk's emptiness pattern agrees with its operation: an insertion has
/// an empty left range, a deletion an empty right range, a modification two
/// non-empty ranges.
pub open spec fn hunk_op_consistent(h: RawHunk) -> bool {
    match h.op {
        DiffOp::Insert => h.left_start == h.left_end,
        DiffOp::Delete => h.right_start == h.right_end,
        DiffOp::Modify => h.left_start < h.left_end && h.right_start < h.right_end,
    }
}

/// Consecutive hunks do not overlap and appear in ascending order on both
/// sides.
pub open spec fn hunks_ordered(hs: Seq<RawHunk>) -> bool {
    forall|i: int| 0 < i < hs.len() ==> #[trigger] hs[i].left_start >= hs[i - 1].left_end
        && hs[i].right_start >= hs[i - 1].right_end
}

/// The block carrying the same ranges and operation as a raw hunk.
pub open spec fn block_of_hunk(h: RawHunk) -> DiffBlock {
    DiffBlock {
        left_start: h.left_start,
        left_end: h.left_end,
        right_start: h.right_start,
        right_end: h.right_end,
        op: h.op,
    }
}

/// Well-formedness of a validated block: what [`compute_blocks`] guarantees
/// of each element of its output.
pub open spec fn block_wf(b: DiffBlock) -> bool {
    &&& b.left_start <= b.left_end
    &&& b.right_start <= b.right_end
    &&& match b.op {
        DiffOp::Insert => b.left_start == b.left_end,
        DiffOp::Delete => b.right_start == b.right_end,
        DiffOp::Modify => b.left_start < b.left_end && b.right_start < b.right_end,
    }
}

/// Consecutive blocks do not overlap and appear in ascending order on both
/// sides.
pub open spec fn blocks_ordered(bs: Seq<DiffBlock>) -> bool {
    forall|i: int| 0 < i < bs.len() ==> #[trigger] bs[i].left_start >= bs[i - 1].left_end
        && bs[i].right_start >= bs[i - 1].right_end
}

/// A well-formed block list: every block well formed, and the list ordered.
pub open spec fn blocks_wf(bs: Seq<DiffBlock>) -> bool {
    &&& forall|i: int| 0 <= i < bs.len() ==> #[trigger] block_wf(bs[i])
    &&& blocks_ordered(bs)
}

/// Normalizes the diff backend's raw hunk list into validated [`DiffBlock`]s.
///
/// A malformed range, an operation that contradicts its ranges, or hunks out
/// of order are programming errors in the upstream diff computation and are
/// rejected rather than silently tolerated. On success the output carries the
/// input's ranges and operations unchanged, in order.
pub fn compute_blocks(hunks: &Vec<RawHunk>) -> (r: Result<Vec<DiffBlock>, BlockError>)
    ensures
        match r {
            Ok(bs) => {
                &&& forall|i: int| 0 <= i < hunks@.len() ==> hunk_ranges_valid(#[trigger] hunks@[i])
                    && hunk_op_consistent(hunks@[i])
                &&& hunks_ordered(hunks@)
                &&& bs@.len() == hunks@.len()
                &&& forall|i: int| 0 <= i < bs@.len() ==> #[trigger] bs@[i] == block_of_hunk(
                    hunks@[i],
                )
                &&& blocks_wf(bs@)
            },
            Err(e) => {
                &&& e == BlockError::InvalidRange <==> exists|i: int| 0 <= i < hunks@.len()
                    && !hunk_ranges_valid(#[trigger] hunks@[i])
                &&& e == BlockError::InvalidOperation <==> {
                    &&& forall|i: int| 0 <= i < hunks@.len() ==> hunk_ranges_valid(
                        #[trigger] hunks@[i],
                    )
                    &&& exists|i: int| 0 <= i < hunks@.len() && !hunk_op_consistent(
                        #[trigger] hunks@[i],
                    )
                }
                &&& e == BlockError::OutOfOrder <==> {
                    &&& forall|i: int| 0 <= i < hunks@.len() ==> hunk_ranges_valid(
                        #[trigger] hunks@[i],
                    ) && hunk_op_consistent(hunks@[i])
                    &&& !hunks_ordered(hunks@)
                }
            },
        },
{
    let n = hunks.len();
    let mut i: usize = 0;
    while i < n
        invariant
            n == hunks@.len(),
            i <= n,
            forall|j: int| 0 <= j < i ==> hunk_ranges_valid(#[trigger] hunks@[j]),
        decreases n - i,
    {
        let h = hunks[i];
        if h.left_end < h.left_start || h.right_end < h.right_start {
            return Err(BlockError::InvalidRange);
        }
        i = i + 1;
    }

    let mut i: usize = 0;
    while i < n
        invariant
            n == hunks@.len(),
            i <= n,
            forall|j: int| 0 <= j < n ==> hunk_ranges_valid(#[trigger] hunks@[j]),
            forall|j: int| 0 <= j < i ==> hunk_op_consistent(#[trigger] hunks@[j]),
        decreases n - i,
    {
        let h = hunks[i];
        let consistent = match h.op {
            DiffOp::Insert => h.left_start == h.left_end,
            DiffOp::Delete => h.right_start == h.right_end,
            DiffOp::Modify => h.left_start < h.left_end && h.right_start < h.right_end,
        };
        if !consistent {
            return Err(BlockError::InvalidOperation);
        }
        i = i + 1;
    }

    let mut i: usize = 1;
    while i < n
        invariant
            n == hunks@.len(),
            1 <= i,
            n > 0 ==> i <= n,
            forall|j: int| 0 <= j < n ==> hunk_ranges_valid(#[trigger] hunks@[j])
                && hunk_op_consistent(hunks@[j]),
            forall|j: int| 0 < j < i ==> #[trigger] hunks@[j].left_start >= hunks@[j
                - 1].left_end && hunks@[j].right_start >= hunks@[j - 1].right_end,
        decreases n - i,
    {
        let prev = hunks[i - 1];
        let cur = hunks[i];
        if cur.left_start < prev.left_end || cur.right_start < prev.right_end {
            return Err(BlockError::OutOfOrder);
        }
        i = i + 1;
    }

    let mut out: Vec<DiffBlock> = Vec::new();
    let mut i: usize = 0;
    while i < n
        invariant
            n == hunks@.len(),
            i <= n,
            out@.len() == i,
            forall|j: int| 0 <= j < i ==> #[trigger] out@[j] == block_of_hunk(hunks@[j]),
        decreases n - i,
    {
        let h = hunks[i];
        out.push(
            DiffBlock {
                left_start: h.left_start,
                left_end: h.left_end,
                right_start: h.right_start,
                right_end: h.right_end,
                op: h.op,
            },
        );
        i = i + 1;
    }

    proof {
        assert forall|j: int| 0 <= j < out@.len() implies #[trigger] block_wf(out@[j]) by {
            assert(out@[j] == block_of_hunk(hunks@[j]));
            assert(hunk_ranges_valid(hunks@[j]));
            assert(hunk_op_consistent(hunks@[j]));
        }
        assert forall|j: int| 0 < j < out@.len() implies #[trigger] out@[j].left_start >= out@[j
            - 1].left_end && out@[j].right_start >= out@[j - 1].right_end by {
            assert(out@[j] == block_of_hunk(hunks@[j]));
            assert(out@[j - 1] == block_of_hunk(hunks@[j - 1]));
            assert(hunks@[j].left_start >= hunks@[j - 1].left_end && hunks@[j].right_start
                >= hunks@[j - 1].right_end);
        }
    }
    Ok(out)
}

/// The edit that undoes one block, carrying the right text back to the left
/// text's content for that block.
#[derive(Clone, Copy, Debug, PartialEq, Eq, Structural)]
pub enum RevertAction {
    /// Replace right lines `right_start..right_end` with left lines
    /// `left_start..left_end`.
    ReplaceRight { left_start: u32, left_end: u32, right_start: u32, right_end: u32 },
    /// Insert left lines `left_start..left_end` at the given right line.
    InsertRight { left_start: u32, left_end: u32, right_line: u32 },
    /// Delete right lines `right_start..right_end`.
    DeleteRight { right_start: u32, right_end: u32 },
    /// Nothing to do: the block carries no revertible change.
    Keep,
}

/// The revert edit a block calls for: modifications and deletions copy the
/// left range over the right range (inserting below the right start line
/// when the right range is empty); insertions delete the right range;
/// degenerate blocks change nothing.
pub open spec fn revert_action_spec(b: DiffBlock) -> RevertAction {
    match b.op {
        DiffOp::Modify | DiffOp::Delete => {
            if b.left_start < b.left_end {
                if b.right_start == b.right_end {
                    RevertAction::InsertRight {
                        left_start: b.left_start,
                        left_end: b.left_end,
                        right_line: (b.right_start + 1) as u32,
                    }
                } else {
                    RevertAction::ReplaceRight {
                        left_start: b.left_start,
                        left_end: b.left_end,
                        right_start: b.right_start,
                        right_end: b.right_end,
                    }
                }
            } else {
                RevertAction::Keep
            }
        },
        DiffOp::Insert => {
            if b.right_start < b.right_end {
                RevertAction::DeleteRight { right_start: b.right_start, right_end: b.right_end }
            } else {
                RevertAction::Keep
            }
        },
    }
}

/// Decides the edit that reverts one block, per [`revert_action_spec`]; the
/// host applies it to the right buffer.
pub fn revert_action(b: &DiffBlock) -> (r: RevertAction)
    requires
        b.right_start < 0xffffffff,
    ensures
        r == revert_action_spec(*b),
{
    match b.op {
        DiffOp::Modify | DiffOp::Delete => {
            if b.left_start < b.left_end {
                if b.right_start == b.right_end {
                    RevertAction::InsertRight {
                        left_start: b.left_start,
                        left_end: b.left_end,
                        right_line: b.right_start + 1,
                    }
                } else {
                    RevertAction::ReplaceRight {
                        left_start: b.left_start,
                        left_end: b.left_end,
                        right_start: b.right_start,
                        right_end: b.right_end,
                    }
                }
            } else {
                RevertAction::Keep
            }
        },
        DiffOp::Insert => {
            if b.right_start < b.right_end {
                RevertAction::DeleteRight { right_start: b.right_start, right_end: b.right_end }
            } else {
                RevertAction::Keep
            }
        },
    }
}

/// The number of newline bytes in a text.
pub open spec fn newline_count(content: Seq<u8>) -> int
    decreases content.len(),
{
    if content.len() == 0 {
        0
    } else {
        newline_count(content.drop_last()) + if content.last() == 10u8 {
            1int
        } else {
            0int
        }
    }
}

/// The number of lines a text occupies: the number of newline-separated
/// segments, with the empty text counting as one line.
pub open spec fn line_count_spec(content: Seq<u8>) -> int {
    1 + newline_count(content)
}

/// Counts the lines of a text given as bytes: one more than the number of
/// newline bytes, so the empty text has one line.
pub fn count_lines(content: &[u8]) -> (r: usize)
    requires
        content@.len() < usize::MAX,
    ensures
        r == line_count_spec(content@),
{
    let n = content.len();
    let mut count: usize = 1;
    let mut i: usize = 0;
    proof {
        assert(content@.subrange(0, 0) =~= Seq::<u8>::empty());
    }
    while i < n
        invariant
            n == content@.len(),
            n < usize::MAX,
            i <= n,
            count == 1 + newline_count(content@.subrange(0, i as int)),
            count <= 1 + i,
        decreases n - i,
    {
        proof {
            let pref = content@.subrange(0, i as int);
            let pref1 = content@.subrange(0, i + 1);
            assert(pref1.drop_last() =~= pref);
            assert(pref1.last() == content@[i as int]);
        }
        if content[i] == 10u8 {
            count = count + 1;
        }
        i = i + 1;
    }
    proof {
        assert(content@.subrange(0, n as int) =~= content@);
    }
    count
}

} // verus!
