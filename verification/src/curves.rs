//! Connector curve descriptors: one alignment descriptor per non-degenerate
//! diff block.

use vstd::prelude::*;
use vstd::math::max;

use crate::blocks::{blocks_ordered, blocks_wf, block_wf, DiffBlock, DiffOp};

verus! {

/// The kind of change a connector represents; mirrors the block's operation.
#[derive(Clone, Copy, Debug, PartialEq, Eq, Structural)]
pub enum ConnectorKind {
    Insert,
    Delete,
    Modify,
}

/// One alignment descriptor per diff block with at least one non-empty side.
///
/// `left_start..=left_end` and `right_start..=right_end` are inclusive line
/// bounds, meaningful only on a side that is not crushed; on a crushed side
/// both bounds equal the block's start line. `focus_line` anchors a crushed
/// side's indicator: the other side's start line expressed in the crushed
/// side's own coordinate space.
#[derive(Clone, Copy, Debug, PartialEq, Eq, Structural)]
pub struct ConnectorCurve {
    pub left_start: u32,
    pub left_end: u32,
    pub right_start: u32,
    pub right_end: u32,
    pub kind: ConnectorKind,
    pub left_crushed: bool,
    pub right_crushed: bool,
    pub block_index: usize,
    pub focus_line: u32,
}

/// The connector kind that mirrors a block operation.
pub open spec fn kind_of_op(op: DiffOp) -> ConnectorKind {
    match op {
        DiffOp::Insert => ConnectorKind::Insert,
        DiffOp::Delete => ConnectorKind::Delete,
        DiffOp::Modify => ConnectorKind::Modify,
    }
}

/// The curve derived from the block at index `idx`, given the cumulative
/// excess of inserted lines (`ins`) and of deleted lines (`del`) seen in all
/// prior blocks.
pub open spec fn curve_of_block(b: DiffBlock, idx: int, ins: int, del: int) -> ConnectorCurve {
    let left_crushed = b.left_start == b.left_end;
    let right_crushed = b.right_start == b.right_end;
    ConnectorCurve {
        left_start: b.left_start,
        left_end: if left_crushed {
            b.left_start
        } else {
            (b.left_end - 1) as u32
        },
        right_start: b.right_start,
        right_end: if right_crushed {
            b.right_start
        } else {
            (b.right_end - 1) as u32
        },
        kind: kind_of_op(b.op),
        left_crushed,
        right_crushed,
        block_index: idx as usize,
        focus_line: if left_crushed {
            max(b.right_start - ins, 0) as u32
        } else if right_crushed {
            max(b.left_start - del, 0) as u32
        } else {
            b.left_start
        },
    }
}

/// The number of lines of the block's left range.
pub open spec fn block_left_len(b: DiffBlock) -> int {
    b.left_end - b.left_start
}

/// The number of lines of the block's right range.
pub open spec fn block_right_len(b: DiffBlock) -> int {
    b.right_end - b.right_start
}

/// The curves for the blocks from index `i` on, given the cumulative inserted
/// and deleted excess accumulated over the blocks before `i`.
pub open spec fn curves_from(blocks: Seq<DiffBlock>, i: int, ins: int, del: int) -> Seq<
    ConnectorCurve,
>
    decreases blocks.len() - i,
{
    if i < 0 || i >= blocks.len() {
        Seq::empty()
    } else {
        let b = blocks[i];
        let llen = block_left_len(b);
        let rlen = block_right_len(b);
        let rest = curves_from(blocks, i + 1, ins + max(rlen - llen, 0), del + max(llen - rlen, 0));
        if llen == 0 && rlen == 0 {
            rest
        } else {
            seq![curve_of_block(b, i, ins, del)] + rest
        }
    }
}

/// The full curve list for a block list: blocks with both sides empty are
/// dropped; every other block yields one curve, in order.
pub open spec fn curves_spec(blocks: Seq<DiffBlock>) -> Seq<ConnectorCurve> {
    curves_from(blocks, 0, 0, 0)
}

/// Derives one connector curve per diff block that has at least one non-empty
/// side. A crushed (empty) side gets collapsed bounds at its start line and a
/// focus line computed from the other side's start, corrected by the
/// cumulative excess of lines that appeared only on the non-crushed side in
/// prior blocks.
pub fn build_connector_curves(blocks: &Vec<DiffBlock>) -> (r: Vec<ConnectorCurve>)
    requires
        blocks_wf(blocks@),
    ensures
        r@ == curves_spec(blocks@),
{
    let n = blocks.len();
    let mut out: Vec<ConnectorCurve> = Vec::new();
    let mut ins: u32 = 0;
    let mut del: u32 = 0;
    let mut i: usize = 0;
    while i < n
        invariant
            n == blocks@.len(),
            blocks_wf(blocks@),
            i <= n,
            i < n ==> ins <= blocks@[i as int].right_start && del <= blocks@[i as int].left_start,
            i == n && n > 0 ==> ins <= blocks@[i - 1].right_end && del <= blocks@[i - 1].left_end,
            curves_spec(blocks@) =~= out@ + curves_from(blocks@, i as int, ins as int, del as int),
        decreases n - i,
    {
        let b = blocks[i];
        proof {
            assert(block_wf(blocks@[i as int]));
        }
        let llen = b.left_end - b.left_start;
        let rlen = b.right_end - b.right_start;
        let ghost pre_ins = ins as int;
        let ghost pre_del = del as int;
        if !(llen == 0 && rlen == 0) {
            let left_crushed = llen == 0;
            let right_crushed = rlen == 0;
            let curve = ConnectorCurve {
                left_start: b.left_start,
                left_end: if left_crushed {
                    b.left_start
                } else {
                    b.left_end - 1
                },
                right_start: b.right_start,
                right_end: if right_crushed {
                    b.right_start
                } else {
                    b.right_end - 1
                },
                kind: match b.op {
                    DiffOp::Insert => ConnectorKind::Insert,
                    DiffOp::Delete => ConnectorKind::Delete,
                    DiffOp::Modify => ConnectorKind::Modify,
                },
                left_crushed,
                right_crushed,
                block_index: i,
                focus_line: if left_crushed {
                    b.right_start - ins
                } else if right_crushed {
                    b.left_start - del
                } else {
                    b.left_start
                },
            };
            proof {
                assert(curve == curve_of_block(blocks@[i as int], i as int, pre_ins, pre_del));
            }
            out.push(curve);
        }
        if rlen > llen {
            ins = ins + (rlen - llen);
        } else {
            del = del + (llen - rlen);
        }
        proof {
            let bi = blocks@[i as int];
            assert(ins == pre_ins + max(block_right_len(bi) - block_left_len(bi), 0));
            assert(del == pre_del + max(block_left_len(bi) - block_right_len(bi), 0));
            if i + 1 < n {
                assert(blocks@[i + 1].left_start >= blocks@[i as int].left_end);
                assert(blocks@[i + 1].right_start >= blocks@[i as int].right_end);
            }
            assert(curves_from(blocks@, i as int, pre_ins, pre_del) =~= (if block_left_len(bi)
                == 0 && block_right_len(bi) == 0 {
                curves_from(blocks@, i + 1, ins as int, del as int)
            } else {
                seq![curve_of_block(bi, i as int, pre_ins, pre_del)] + curves_from(
                    blocks@,
                    i + 1,
                    ins as int,
                    del as int,
                )
            }));
        }
        i = i + 1;
    }
    proof {
        assert(curves_from(blocks@, n as int, ins as int, del as int) =~= Seq::<
            ConnectorCurve,
        >::empty());
        assert(out@ =~= curves_spec(blocks@));
    }
    out
}

/// Well-formedness of a single curve, as the builder guarantees it: bounds
/// ordered, a crushed side collapsed to its start line, and at most one side
/// crushed.
pub open spec fn curve_wf(c: ConnectorCurve) -> bool {
    &&& c.left_start <= c.left_end
    &&& c.right_start <= c.right_end
    &&& c.left_crushed ==> c.left_start == c.left_end
    &&& c.right_crushed ==> c.right_start == c.right_end
    &&& !(c.left_crushed && c.right_crushed)
    &&& !c.left_crushed ==> c.left_end < u32::MAX
    &&& !c.right_crushed ==> c.right_end < u32::MAX
}

/// The left line following the curve's left extent: the start line itself for
/// a crushed side, one past the inclusive end otherwise.
pub open spec fn curve_left_after(c: ConnectorCurve) -> int {
    if c.left_crushed {
        c.left_start as int
    } else {
        c.left_end + 1
    }
}

/// The right line following the curve's right extent.
pub open spec fn curve_right_after(c: ConnectorCurve) -> int {
    if c.right_crushed {
        c.right_start as int
    } else {
        c.right_end + 1
    }
}

/// A well-formed curve list: every curve well formed, and consecutive curves
/// in ascending, non-overlapping order on both sides. In particular the list
/// is monotonically non-decreasing in both `left_start` and `right_start`.
pub open spec fn curves_wf(cs: Seq<ConnectorCurve>) -> bool {
    &&& forall|i: int| 0 <= i < cs.len() ==> #[trigger] curve_wf(cs[i])
    &&& forall|i: int| 0 < i < cs.len() ==> #[trigger] cs[i].left_start >= curve_left_after(
        cs[i - 1],
    ) && cs[i].right_start >= curve_right_after(cs[i - 1])
}

proof fn lemma_curves_from_wf(blocks: Seq<DiffBlock>, i: int, ins: int, del: int)
    requires
        blocks_wf(blocks),
        0 <= i,
    ensures
        curves_wf(curves_from(blocks, i, ins, del)),
        curves_from(blocks, i, ins, del).len() > 0 ==> curves_from(
            blocks,
            i,
            ins,
            del,
        )[0].left_start >= (if i < blocks.len() {
            blocks[i].left_start as int
        } else {
            0
        }) && curves_from(blocks, i, ins, del)[0].right_start >= (if i < blocks.len() {
            blocks[i].right_start as int
        } else {
            0
        }),
    decreases blocks.len() - i,
{
    if i < blocks.len() {
        let b = blocks[i];
        let llen = block_left_len(b);
        let rlen = block_right_len(b);
        let ins2 = ins + max(rlen - llen, 0);
        let del2 = del + max(llen - rlen, 0);
        lemma_curves_from_wf(blocks, i + 1, ins2, del2);
        let rest = curves_from(blocks, i + 1, ins2, del2);
        let cur = curves_from(blocks, i, ins, del);
        assert(block_wf(b));
        if llen == 0 && rlen == 0 {
            assert(cur =~= rest);
        } else {
            let c = curve_of_block(b, i, ins, del);
            assert(curve_wf(c));
            assert(cur =~= seq![c] + rest);
            if rest.len() > 0 {
                assert(i + 1 < blocks.len());
                assert(blocks[i + 1].left_start >= b.left_end);
                assert(blocks[i + 1].right_start >= b.right_end);
                assert(rest[0].left_start >= curve_left_after(c));
                assert(rest[0].right_start >= curve_right_after(c));
            }
            assert forall|j: int| 0 <= j < cur.len() implies #[trigger] curve_wf(cur[j]) by {
                if j == 0 {
                } else {
                    assert(cur[j] == rest[j - 1]);
                }
            }
            assert forall|j: int| 0 < j < cur.len() implies #[trigger] cur[j].left_start
                >= curve_left_after(cur[j - 1]) && cur[j].right_start >= curve_right_after(
                cur[j - 1],
            ) by {
                if j == 1 {
                    assert(cur[1] == rest[0]);
                } else {
                    assert(cur[j] == rest[j - 1]);
                    assert(cur[j - 1] == rest[j - 2]);
                }
            }
        }
    }
}

/// The curves built from a well-formed block list are themselves well formed:
/// bounds ordered, at most one side crushed per curve, and the list
/// monotonically non-decreasing in both start lines.
pub proof fn lemma_curves_spec_wf(blocks: Seq<DiffBlock>)
    requires
        blocks_wf(blocks),
    ensures
        curves_wf(curves_spec(blocks)),
{
    lemma_curves_from_wf(blocks, 0, 0, 0);
}

/// Building connector curves is a pure function of the block list: two runs
/// on the same blocks yield identical output.
pub proof fn lemma_build_connector_curves_deterministic(b1: Seq<DiffBlock>, b2: Seq<DiffBlock>)
    requires
        b1 == b2,
    ensures
        curves_spec(b1) == curves_spec(b2),
{
}

} // verus!
