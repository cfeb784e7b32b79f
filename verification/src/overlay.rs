//! Geometry handed to the rendering layer: which rows each block highlights,
//! and where a crushed block's one-row indicator sits once collapsed regions
//! are accounted for. The pixel work itself stays with the host.

use vstd::prelude::*;

use crate::blocks::{DiffBlock, DiffOp};
use crate::collapse::{calc_collapsed_offset, collapsed_offset_spec, regions_wf, CollapsedRegion, Side};
use crate::curves::{curves_wf, curve_left_after, curve_right_after, ConnectorCurve};
use crate::mapping::ROW_SCALE;

verus! {

/// One row range to paint with a diff background: inclusive rows
/// `start_row..=end_row` on `side`, colored after `op`.
#[derive(Clone, Copy, Debug, PartialEq, Eq, Structural)]
pub struct HighlightSpan {
    pub side: Side,
    pub op: DiffOp,
    pub start_row: u32,
    pub end_row: u32,
}

/// The span covering a block's range on one side: its start row through the
/// row before its end.
pub open spec fn span_of(side: Side, op: DiffOp, start: u32, end: u32) -> HighlightSpan {
    HighlightSpan { side, op, start_row: start, end_row: (end - 1) as u32 }
}

/// The highlight spans of one block: a deletion paints its left range, an
/// insertion its right range, a modification both; empty ranges paint
/// nothing.
pub open spec fn block_spans(b: DiffBlock) -> Seq<HighlightSpan> {
    match b.op {
        DiffOp::Delete => if b.left_start < b.left_end {
            seq![span_of(Side::Left, DiffOp::Delete, b.left_start, b.left_end)]
        } else {
            Seq::empty()
        },
        DiffOp::Insert => if b.right_start < b.right_end {
            seq![span_of(Side::Right, DiffOp::Insert, b.right_start, b.right_end)]
        } else {
            Seq::empty()
        },
        DiffOp::Modify => (if b.left_start < b.left_end {
            seq![span_of(Side::Left, DiffOp::Modify, b.left_start, b.left_end)]
        } else {
            Seq::empty()
        }) + (if b.right_start < b.right_end {
            seq![span_of(Side::Right, DiffOp::Modify, b.right_start, b.right_end)]
        } else {
            Seq::empty()
        }),
    }
}

/// The spans of the blocks from index `i` on, in order.
pub open spec fn spans_from(blocks: Seq<DiffBlock>, i: int) -> Seq<HighlightSpan>
    decreases blocks.len() - i,
{
    if i < 0 || i >= blocks.len() {
        Seq::empty()
    } else {
        block_spans(blocks[i]) + spans_from(blocks, i + 1)
    }
}

/// Computes every row range the diff highlights, in block order.
pub fn highlight_spans(blocks: &Vec<DiffBlock>) -> (r: Vec<HighlightSpan>)
    ensures
        r@ == spans_from(blocks@, 0),
{
    let n = blocks.len();
    let mut out: Vec<HighlightSpan> = Vec::new();
    let mut i: usize = 0;
    while i < n
        invariant
            n == blocks@.len(),
            i <= n,
            spans_from(blocks@, 0) =~= out@ + spans_from(blocks@, i as int),
        decreases n - i,
    {
        let b = blocks[i];
        let ghost pre = out@;
        match b.op {
            DiffOp::Delete => {
                if b.left_start < b.left_end {
                    out.push(
                        HighlightSpan {
                            side: Side::Left,
                            op: DiffOp::Delete,
                            start_row: b.left_start,
                            end_row: b.left_end - 1,
                        },
                    );
                }
            },
            DiffOp::Insert => {
                if b.right_start < b.right_end {
                    out.push(
                        HighlightSpan {
                            side: Side::Right,
                            op: DiffOp::Insert,
                            start_row: b.right_start,
                            end_row: b.right_end - 1,
                        },
                    );
                }
            },
            DiffOp::Modify => {
                if b.left_start < b.left_end {
                    out.push(
                        HighlightSpan {
                            side: Side::Left,
                            op: DiffOp::Modify,
                            start_row: b.left_start,
                            end_row: b.left_end - 1,
                        },
                    );
                }
                if b.right_start < b.right_end {
                    out.push(
                        HighlightSpan {
                            side: Side::Right,
                            op: DiffOp::Modify,
                            start_row: b.right_start,
                            end_row: b.right_end - 1,
                        },
                    );
                }
            },
        }
        proof {
            assert(out@ =~= pre + block_spans(blocks@[i as int]));
            assert(pre + (block_spans(blocks@[i as int]) + spans_from(blocks@, i + 1)) =~= out@
                + spans_from(blocks@, i + 1));
        }
        i = i + 1;
    }
    proof {
        assert(out@ =~= spans_from(blocks@, 0));
    }
    out
}

/// Where one crushed block's indicator is drawn: the originating block and
/// the scaled row of the one-row marker on the crushed side, after the rows
/// hidden by collapsed regions above it are subtracted.
#[derive(Clone, Copy, Debug, PartialEq, Eq, Structural)]
pub struct CrushedIndicator {
    pub block_index: usize,
    pub row: i64,
}

/// The inclusive left length of a curve as the overlay counts it.
pub open spec fn incl_left_len(c: ConnectorCurve) -> int {
    c.left_end - c.left_start + 1
}

/// The inclusive right length of a curve as the overlay counts it.
pub open spec fn incl_right_len(c: ConnectorCurve) -> int {
    c.right_end - c.right_start + 1
}

/// The excess accumulated after passing curve `c`: rows that exist only on
/// the other side and shift every later indicator on `side` downward.
pub open spec fn excess_after(c: ConnectorCurve, side: Side, excess: int) -> int {
    match side {
        Side::Left => {
            if c.left_crushed {
                excess
            } else if c.right_crushed {
                excess + incl_left_len(c)
            } else if incl_right_len(c) < incl_left_len(c) {
                excess + incl_left_len(c) - incl_right_len(c)
            } else {
                excess
            }
        },
        Side::Right => {
            if c.left_crushed {
                excess + incl_right_len(c)
            } else if c.right_crushed {
                excess
            } else if incl_left_len(c) < incl_right_len(c) {
                excess + incl_right_len(c) - incl_left_len(c)
            } else {
                excess
            }
        },
    }
}

/// Whether the curve is crushed on the given side.
pub open spec fn crushed_on(c: ConnectorCurve, side: Side) -> bool {
    match side {
        Side::Left => c.left_crushed,
        Side::Right => c.right_crushed,
    }
}

/// The indicator row for a crushed curve: its focus line shifted down by the
/// accumulated excess, minus the rows collapsed regions hide above it.
pub open spec fn indicator_row(
    c: ConnectorCurve,
    excess: int,
    regions: Seq<CollapsedRegion>,
    side: Side,
) -> int {
    let base = (c.focus_line + excess) * (ROW_SCALE as int);
    base - collapsed_offset_spec(regions, side, base) * (ROW_SCALE as int)
}

/// The extent already passed on one side before curve `i`: the line
/// following the previous curve's span on that side (0 before the first).
pub open spec fn prev_extent(curves: Seq<ConnectorCurve>, i: int, side: Side) -> int {
    if i <= 0 {
        0
    } else {
        match side {
            Side::Left => curve_left_after(curves[i - 1]),
            Side::Right => curve_right_after(curves[i - 1]),
        }
    }
}

/// The indicators for the curves from index `i` on, given the excess
/// accumulated over the curves before `i`.
pub open spec fn indicators_from(
    curves: Seq<ConnectorCurve>,
    i: int,
    excess: int,
    regions: Seq<CollapsedRegion>,
    side: Side,
) -> Seq<CrushedIndicator>
    decreases curves.len() - i,
{
    if i < 0 || i >= curves.len() {
        Seq::empty()
    } else {
        let c = curves[i];
        let excess2 = excess_after(c, side, excess);
        let rest = indicators_from(curves, i + 1, excess2, regions, side);
        if crushed_on(c, side) {
            seq![(CrushedIndicator {
                block_index: c.block_index,
                row: indicator_row(c, excess2, regions, side) as i64,
            })] + rest
        } else {
            rest
        }
    }
}

/// Computes the scaled indicator row of every curve crushed on `side`: the
/// anchor where the host paints the one-row marker standing in for lines
/// that exist only on the other side.
pub fn crushed_indicator_rows(
    curves: &Vec<ConnectorCurve>,
    regions: &Vec<CollapsedRegion>,
    side: Side,
) -> (r: Vec<CrushedIndicator>)
    requires
        curves_wf(curves@),
        regions_wf(regions@),
    ensures
        r@ == indicators_from(curves@, 0, 0, regions@, side),
{
    let n = curves.len();
    let mut out: Vec<CrushedIndicator> = Vec::new();
    let mut excess: u64 = 0;
    let mut i: usize = 0;
    while i < n
        invariant
            n == curves@.len(),
            i <= n,
            curves_wf(curves@),
            regions_wf(regions@),
            excess as int <= prev_extent(curves@, i as int, side),
            prev_extent(curves@, i as int, side) <= 0x100000000,
            indicators_from(curves@, 0, 0, regions@, side) =~= out@ + indicators_from(
                curves@,
                i as int,
                excess as int,
                regions@,
                side,
            ),
        decreases n - i,
    {
        let c = curves[i];
        proof {
            assert(crate::curves::curve_wf(curves@[i as int]));
            if i > 0 {
                assert(curves@[i as int].left_start >= curve_left_after(curves@[i - 1]));
                assert(curves@[i as int].right_start >= curve_right_after(curves@[i - 1]));
            }
        }
        let left_len = (c.left_end as u64) - (c.left_start as u64) + 1;
        let right_len = (c.right_end as u64) - (c.right_start as u64) + 1;
        let ghost pre_excess = excess as int;
        match side {
            Side::Left => {
                if c.left_crushed {
                } else if c.right_crushed {
                    excess = excess + left_len;
                } else if right_len < left_len {
                    excess = excess + (left_len - right_len);
                }
            },
            Side::Right => {
                if c.left_crushed {
                    excess = excess + right_len;
                } else if c.right_crushed {
                } else if left_len < right_len {
                    excess = excess + (right_len - left_len);
                }
            },
        }
        proof {
            assert(excess as int == excess_after(curves@[i as int], side, pre_excess));
        }
        let crushed_here = match side {
            Side::Left => c.left_crushed,
            Side::Right => c.right_crushed,
        };
        if crushed_here {
            let base: i64 = ((c.focus_line as i64) + (excess as i64)) * ROW_SCALE;
            let offset = calc_collapsed_offset(regions, side, base);
            proof {
                crate::collapse::lemma_collapsed_offset_bound(regions@, side, base as int);
            }
            out.push(
                CrushedIndicator { block_index: c.block_index, row: base - offset * ROW_SCALE },
            );
        }
        proof {
            let cc = curves@[i as int];
            let rest = indicators_from(curves@, i + 1, excess as int, regions@, side);
            assert(indicators_from(curves@, i as int, pre_excess, regions@, side)
                == (if crushed_on(cc, side) {
                seq![(CrushedIndicator {
                    block_index: cc.block_index,
                    row: indicator_row(cc, excess as int, regions@, side) as i64,
                })] + rest
            } else {
                rest
            }));
            if i + 1 < n {
                assert(curves@[i + 1].left_start >= curve_left_after(cc));
                assert(curves@[i + 1].right_start >= curve_right_after(cc));
            }
        }
        i = i + 1;
    }
    proof {
        assert(out@ =~= indicators_from(curves@, 0, 0, regions@, side));
    }
    out
}

} // verus!
