//! The collapsed range planner: which spans of unchanged lines are long
//! enough to hide behind a placeholder, with collapse boundaries
//! synchronized between the two sides.

use vstd::math::{max, min};
use vstd::prelude::*;

use crate::blocks::{blocks_wf, DiffBlock};
use crate::mapping::ROW_SCALE;

verus! {

/// Default number of unchanged lines kept visible at each end of a
/// collapsed gap.
pub const CONTEXT_LINES: u32 = 3;

/// Default minimum number of lines a gap must hide, beyond the visible
/// context, before it is worth collapsing.
pub const MINIMUM_COLLAPSE_THRESHOLD: u32 = 4;

/// Which side of the diff a row position belongs to.
#[derive(Clone, Copy, Debug, PartialEq, Eq, Structural)]
pub enum Side {
    Left,
    Right,
}

/// A synchronized pair of hidden spans, one per side, sharing a stable
/// `region_id`. Both spans are half-open line ranges; `line_count` is the
/// number of lines the placeholder reports, the smaller of the two spans so
/// the label never overstates the visible correspondence.
#[derive(Clone, Copy, Debug, PartialEq, Eq, Structural)]
pub struct CollapsedRegion {
    pub region_id: u32,
    pub left_start: u32,
    pub left_end: u32,
    pub right_start: u32,
    pub right_end: u32,
    pub line_count: u32,
}

/// The region planned for the unchanged gap running from `start_left` /
/// `start_right` up to `gap_end_left` / `gap_end_right`, if the gap is long
/// enough on both sides: `context_lines` rows stay visible at each end, and
/// the gap collapses only when its shorter side still leaves a positive span.
pub open spec fn gap_region(
    start_left: int,
    start_right: int,
    gap_end_left: int,
    gap_end_right: int,
    context_lines: int,
    min_threshold: int,
) -> Option<CollapsedRegion> {
    let left_len = max(gap_end_left - start_left, 0);
    let right_len = max(gap_end_right - start_right, 0);
    let min_len = min(left_len, right_len);
    if min_len >= 2 * context_lines + min_threshold {
        let collapse_left_start = start_left + context_lines;
        let collapse_left_end = max(gap_end_left - context_lines, 0);
        let collapse_right_start = start_right + context_lines;
        let collapse_right_end = max(gap_end_right - context_lines, 0);
        if collapse_left_end > collapse_left_start && collapse_right_end > collapse_right_start {
            Some(
                CollapsedRegion {
                    region_id: collapse_left_start as u32,
                    left_start: collapse_left_start as u32,
                    left_end: collapse_left_end as u32,
                    right_start: collapse_right_start as u32,
                    right_end: collapse_right_end as u32,
                    line_count: min(
                        collapse_left_end - collapse_left_start,
                        collapse_right_end - collapse_right_start,
                    ) as u32,
                },
            )
        } else {
            None
        }
    } else {
        None
    }
}

/// The regions planned for the gaps from block `i` on, where `start_left` /
/// `start_right` are the lines following the previous block's end (0 before
/// the first block). The final gap runs to each text's total line count.
pub open spec fn regions_from(
    blocks: Seq<DiffBlock>,
    i: int,
    start_left: int,
    start_right: int,
    left_total: int,
    right_total: int,
    context_lines: int,
    min_threshold: int,
) -> Seq<CollapsedRegion>
    decreases blocks.len() - i,
{
    if i < 0 || i >= blocks.len() {
        match gap_region(
            start_left,
            start_right,
            left_total,
            right_total,
            context_lines,
            min_threshold,
        ) {
            Some(r) => seq![r],
            None => Seq::empty(),
        }
    } else {
        let b = blocks[i];
        let here = gap_region(
            start_left,
            start_right,
            b.left_start as int,
            b.right_start as int,
            context_lines,
            min_threshold,
        );
        let rest = regions_from(
            blocks,
            i + 1,
            max(b.left_end as int, start_left),
            max(b.right_end as int, start_right),
            left_total,
            right_total,
            context_lines,
            min_threshold,
        );
        match here {
            Some(r) => seq![r] + rest,
            None => rest,
        }
    }
}

/// Every qualifying collapsed region for a block list, in order: one per
/// unchanged gap (before the first block, between blocks, and after the last
/// block) that is long enough on both sides.
pub open spec fn regions_spec(
    blocks: Seq<DiffBlock>,
    left_total: int,
    right_total: int,
    context_lines: int,
    min_threshold: int,
) -> Seq<CollapsedRegion> {
    regions_from(blocks, 0, 0, 0, left_total, right_total, context_lines, min_threshold)
}

/// The subsequence of `rs` whose region ids are not in `expanded`.
pub open spec fn suppress_expanded(rs: Seq<CollapsedRegion>, expanded: Seq<u32>) -> Seq<
    CollapsedRegion,
> {
    rs.filter(|r: CollapsedRegion| !expanded.contains(r.region_id))
}

/// Plans the collapsible unchanged regions for a diff.
///
/// Walks the gaps between consecutive blocks (and before the first / after
/// the last, up to each side's total line count). A gap collapses only when
/// its shorter side has at least `2 * context_lines + min_threshold` lines;
/// `context_lines` lines stay visible at both ends on both sides. The region
/// id is derived from the collapse start line on the left, so it is stable
/// across recomputation while line numbers do not shift. Regions whose id is
/// in `expanded_ids` were explicitly re-expanded and are suppressed.
pub fn plan_collapsed_regions(
    blocks: &Vec<DiffBlock>,
    left_total_lines: u32,
    right_total_lines: u32,
    context_lines: u32,
    min_threshold: u32,
    expanded_ids: &Vec<u32>,
) -> (r: Vec<CollapsedRegion>)
    requires
        blocks_wf(blocks@),
        context_lines <= 0x10000,
        min_threshold <= 0x10000,
    ensures
        r@ == suppress_expanded(
            regions_spec(
                blocks@,
                left_total_lines as int,
                right_total_lines as int,
                context_lines as int,
                min_threshold as int,
            ),
            expanded_ids@,
        ),
        regions_wf(r@),
        regions_meet_threshold(r@, min_threshold as int),
{
    proof {
        let all = regions_spec(
            blocks@,
            left_total_lines as int,
            right_total_lines as int,
            context_lines as int,
            min_threshold as int,
        );
        lemma_plan_no_overlap_and_threshold(
            blocks@,
            left_total_lines as int,
            right_total_lines as int,
            context_lines as int,
            min_threshold as int,
        );
        lemma_suppress_preserves_wf(all, expanded_ids@);
        lemma_suppress_elements(all, expanded_ids@);
        let f = suppress_expanded(all, expanded_ids@);
        assert forall|k: int| 0 <= k < f.len() implies (#[trigger] f[k]).left_end
            - f[k].left_start >= min_threshold && f[k].right_end - f[k].right_start
            >= min_threshold && f[k].line_count >= min_threshold && f[k].line_count >= 1
            && f[k].line_count == min(
            f[k].left_end - f[k].left_start,
            f[k].right_end - f[k].right_start,
        ) by {
            let i = choose|i: int| 0 <= i < all.len() && all[i] == f[k];
            assert(all[i].left_end - all[i].left_start >= min_threshold);
        }
    }
    let n = blocks.len();
    let mut out: Vec<CollapsedRegion> = Vec::new();
    let mut start_left: u32 = 0;
    let mut start_right: u32 = 0;
    let mut i: usize = 0;
    let ghost lt = left_total_lines as int;
    let ghost rt = right_total_lines as int;
    let ghost ctx = context_lines as int;
    let ghost thr = min_threshold as int;
    while i < n
        invariant
            n == blocks@.len(),
            i <= n,
            lt == left_total_lines as int,
            rt == right_total_lines as int,
            ctx == context_lines as int,
            thr == min_threshold as int,
            context_lines <= 0x10000,
            min_threshold <= 0x10000,
            blocks_wf(blocks@),
            suppress_expanded(
                regions_spec(blocks@, lt, rt, ctx, thr),
                expanded_ids@,
            ) == out@ + suppress_expanded(
                regions_from(
                    blocks@,
                    i as int,
                    start_left as int,
                    start_right as int,
                    lt,
                    rt,
                    ctx,
                    thr,
                ),
                expanded_ids@,
            ),
        decreases n - i,
    {
        let b = blocks[i];
        let ghost pre_out = out@;
        let ghost pre_sl = start_left as int;
        let ghost pre_sr = start_right as int;
        let here = plan_gap(
            start_left,
            start_right,
            b.left_start,
            b.right_start,
            context_lines,
            min_threshold,
        );
        if let Some(region) = here {
            if !contains_id(expanded_ids, region.region_id) {
                out.push(region);
            }
        }
        if b.left_end > start_left {
            start_left = b.left_end;
        }
        if b.right_end > start_right {
            start_right = b.right_end;
        }
        proof {
            let bb = blocks@[i as int];
            let here_spec = gap_region(
                pre_sl,
                pre_sr,
                bb.left_start as int,
                bb.right_start as int,
                ctx,
                thr,
            );
            let rest = regions_from(
                blocks@,
                i + 1,
                start_left as int,
                start_right as int,
                lt,
                rt,
                ctx,
                thr,
            );
            assert(start_left as int == max(bb.left_end as int, pre_sl));
            assert(start_right as int == max(bb.right_end as int, pre_sr));
            assert(regions_from(blocks@, i as int, pre_sl, pre_sr, lt, rt, ctx, thr)
                == match here_spec {
                Some(r) => seq![r] + rest,
                None => rest,
            });
            match here_spec {
                Some(r) => {
                    assert(suppress_expanded(seq![r] + rest, expanded_ids@) =~= (seq![r]).filter(
                        |x: CollapsedRegion| !expanded_ids@.contains(x.region_id),
                    ) + suppress_expanded(rest, expanded_ids@)) by {
                        lemma_filter_distributes(seq![r], rest, expanded_ids@);
                    }
                    assert((seq![r]).drop_last() =~= Seq::<CollapsedRegion>::empty());
                    reveal_with_fuel(Seq::filter, 2);
                    if expanded_ids@.contains(r.region_id) {
                        assert((seq![r]).filter(
                            |x: CollapsedRegion| !expanded_ids@.contains(x.region_id),
                        ) =~= Seq::<CollapsedRegion>::empty());
                        assert(out@ == pre_out);
                    } else {
                        assert((seq![r]).filter(
                            |x: CollapsedRegion| !expanded_ids@.contains(x.region_id),
                        ) =~= seq![r]);
                        assert(out@ == pre_out.push(r));
                    }
                    assert(out@ + suppress_expanded(rest, expanded_ids@) =~= pre_out
                        + suppress_expanded(seq![r] + rest, expanded_ids@));
                },
                None => {
                    assert(out@ == pre_out);
                },
            }
        }
        i = i + 1;
    }
    let final_region = plan_gap(
        start_left,
        start_right,
        left_total_lines,
        right_total_lines,
        context_lines,
        min_threshold,
    );
    proof {
        assert(regions_from(blocks@, n as int, start_left as int, start_right as int, lt, rt,
            ctx, thr) == match gap_region(start_left as int, start_right as int, lt, rt, ctx,
            thr) {
            Some(r) => seq![r],
            None => Seq::<CollapsedRegion>::empty(),
        });
    }
    if let Some(region) = final_region {
        let suppressed = contains_id(expanded_ids, region.region_id);
        proof {
            reveal_with_fuel(Seq::filter, 2);
            assert((seq![region]).drop_last() =~= Seq::<CollapsedRegion>::empty());
        }
        if !suppressed {
            out.push(region);
            proof {
                assert((seq![region]).filter(
                    |x: CollapsedRegion| !expanded_ids@.contains(x.region_id),
                ) =~= seq![region]);
            }
        } else {
            proof {
                assert((seq![region]).filter(
                    |x: CollapsedRegion| !expanded_ids@.contains(x.region_id),
                ) =~= Seq::<CollapsedRegion>::empty());
            }
        }
    } else {
        proof {
            assert(suppress_expanded(Seq::empty(), expanded_ids@)
                =~= Seq::<CollapsedRegion>::empty()) by {
                reveal_with_fuel(Seq::filter, 2);
            }
        }
    }
    proof {
        assert(out@ =~= suppress_expanded(regions_spec(blocks@, lt, rt, ctx, thr),
            expanded_ids@));
    }
    out
}

/// Whether the id occurs in the expanded set.
fn contains_id(ids: &Vec<u32>, id: u32) -> (r: bool)
    ensures
        r == ids@.contains(id),
{
    let n = ids.len();
    let mut k: usize = 0;
    let mut found = false;
    while k < n
        invariant
            n == ids@.len(),
            k <= n,
            found == exists|j: int| 0 <= j < k && ids@[j] == id,
        decreases n - k,
    {
        if ids[k] == id {
            found = true;
        }
        k = k + 1;
    }
    found
}

/// The region for one gap, if it qualifies: the executable counterpart of
/// [`gap_region`].
fn plan_gap(
    start_left: u32,
    start_right: u32,
    gap_end_left: u32,
    gap_end_right: u32,
    context_lines: u32,
    min_threshold: u32,
) -> (r: Option<CollapsedRegion>)
    requires
        context_lines <= 0x10000,
        min_threshold <= 0x10000,
    ensures
        r == gap_region(
            start_left as int,
            start_right as int,
            gap_end_left as int,
            gap_end_right as int,
            context_lines as int,
            min_threshold as int,
        ),
{
    let left_len: u64 = if gap_end_left > start_left {
        (gap_end_left - start_left) as u64
    } else {
        0
    };
    let right_len: u64 = if gap_end_right > start_right {
        (gap_end_right - start_right) as u64
    } else {
        0
    };
    let min_len: u64 = if left_len < right_len {
        left_len
    } else {
        right_len
    };
    if min_len >= 2 * (context_lines as u64) + (min_threshold as u64) {
        let collapse_left_start: u64 = (start_left as u64) + (context_lines as u64);
        let collapse_left_end: u64 = if gap_end_left > context_lines {
            (gap_end_left - context_lines) as u64
        } else {
            0
        };
        let collapse_right_start: u64 = (start_right as u64) + (context_lines as u64);
        let collapse_right_end: u64 = if gap_end_right > context_lines {
            (gap_end_right - context_lines) as u64
        } else {
            0
        };
        if collapse_left_end > collapse_left_start && collapse_right_end > collapse_right_start {
            let left_span = collapse_left_end - collapse_left_start;
            let right_span = collapse_right_end - collapse_right_start;
            let count = if left_span < right_span {
                left_span
            } else {
                right_span
            };
            Some(
                CollapsedRegion {
                    region_id: collapse_left_start as u32,
                    left_start: collapse_left_start as u32,
                    left_end: collapse_left_end as u32,
                    right_start: collapse_right_start as u32,
                    right_end: collapse_right_end as u32,
                    line_count: count as u32,
                },
            )
        } else {
            None
        }
    } else {
        None
    }
}

/// `filter` distributes over concatenation.
proof fn lemma_filter_distributes(
    a: Seq<CollapsedRegion>,
    b: Seq<CollapsedRegion>,
    expanded: Seq<u32>,
)
    ensures
        (a + b).filter(|x: CollapsedRegion| !expanded.contains(x.region_id)) == a.filter(
            |x: CollapsedRegion| !expanded.contains(x.region_id),
        ) + b.filter(|x: CollapsedRegion| !expanded.contains(x.region_id)),
{
    Seq::filter_distributes_over_add(a, b, |x: CollapsedRegion| !expanded.contains(x.region_id));
}

/// The number of rows hidden above `base_row` on one side by the given
/// regions: each region whose span on that side ends at or before the base
/// hides its span minus the one placeholder row that replaces it.
pub open spec fn collapsed_offset_spec(
    regions: Seq<CollapsedRegion>,
    side: Side,
    base_row: int,
) -> int
    decreases regions.len(),
{
    if regions.len() == 0 {
        0
    } else {
        let r = regions.last();
        let (start, end) = match side {
            Side::Left => (r.left_start as int, r.left_end as int),
            Side::Right => (r.right_start as int, r.right_end as int),
        };
        collapsed_offset_spec(regions.drop_last(), side, base_row) + if end * (ROW_SCALE as int)
            <= base_row {
            end - start - 1
        } else {
            0
        }
    }
}

/// Every region of a well-formed list has spans at least `min_threshold`
/// long on both sides and a positive `line_count` of at least
/// `min_threshold`: the planner never collapses a gap whose shorter side has
/// fewer than `2 * context_lines + min_threshold` unchanged lines.
pub open spec fn regions_meet_threshold(rs: Seq<CollapsedRegion>, min_threshold: int) -> bool {
    forall|k: int| 0 <= k < rs.len() ==> (#[trigger] rs[k]).left_end - rs[k].left_start
        >= min_threshold && rs[k].right_end - rs[k].right_start >= min_threshold
        && rs[k].line_count >= min_threshold && rs[k].line_count >= 1
        && rs[k].line_count == min(
        rs[k].left_end - rs[k].left_start,
        rs[k].right_end - rs[k].right_start,
    )
}

/// What a region planned for one gap guarantees: its position, its span
/// lengths, and its line count.
proof fn lemma_gap_region_props(
    start_left: int,
    start_right: int,
    gap_end_left: int,
    gap_end_right: int,
    context_lines: int,
    min_threshold: int,
)
    requires
        0 <= start_left,
        0 <= start_right,
        0 <= context_lines,
        0 <= min_threshold,
        gap_end_left <= 0xffffffff,
        gap_end_right <= 0xffffffff,
    ensures
        match gap_region(
            start_left,
            start_right,
            gap_end_left,
            gap_end_right,
            context_lines,
            min_threshold,
        ) {
            Some(r) => {
                &&& r.left_start == start_left + context_lines
                &&& r.right_start == start_right + context_lines
                &&& r.left_end == gap_end_left - context_lines
                &&& r.right_end == gap_end_right - context_lines
                &&& r.left_start < r.left_end
                &&& r.right_start < r.right_end
                &&& r.left_end - r.left_start >= min_threshold
                &&& r.right_end - r.right_start >= min_threshold
                &&& r.line_count == min(
                    r.left_end - r.left_start,
                    r.right_end - r.right_start,
                )
                &&& r.line_count >= min_threshold
                &&& r.line_count >= 1
            },
            None => true,
        },
{
    let left_len = max(gap_end_left - start_left, 0);
    let right_len = max(gap_end_right - start_right, 0);
    let min_len = min(left_len, right_len);
    if min_len >= 2 * context_lines + min_threshold {
        let cls = start_left + context_lines;
        let cle = max(gap_end_left - context_lines, 0);
        let crs = start_right + context_lines;
        let cre = max(gap_end_right - context_lines, 0);
        if cle > cls && cre > crs {
            assert(cle == gap_end_left - context_lines);
            assert(cre == gap_end_right - context_lines);
            assert(gap_end_left - start_left > 0);
            assert(left_len == gap_end_left - start_left);
            assert(right_len == gap_end_right - start_right);
        }
    }
}

proof fn lemma_regions_from_wf(
    blocks: Seq<DiffBlock>,
    i: int,
    start_left: int,
    start_right: int,
    left_total: int,
    right_total: int,
    context_lines: int,
    min_threshold: int,
)
    requires
        blocks_wf(blocks),
        0 <= i,
        0 <= start_left,
        0 <= start_right,
        0 <= context_lines,
        0 <= min_threshold,
        left_total <= 0xffffffff,
        right_total <= 0xffffffff,
    ensures
        regions_wf(
            regions_from(
                blocks,
                i,
                start_left,
                start_right,
                left_total,
                right_total,
                context_lines,
                min_threshold,
            ),
        ),
        regions_meet_threshold(
            regions_from(
                blocks,
                i,
                start_left,
                start_right,
                left_total,
                right_total,
                context_lines,
                min_threshold,
            ),
            min_threshold,
        ),
        regions_from(
            blocks,
            i,
            start_left,
            start_right,
            left_total,
            right_total,
            context_lines,
            min_threshold,
        ).len() > 0 ==> regions_from(
            blocks,
            i,
            start_left,
            start_right,
            left_total,
            right_total,
            context_lines,
            min_threshold,
        )[0].left_start >= start_left + context_lines && regions_from(
            blocks,
            i,
            start_left,
            start_right,
            left_total,
            right_total,
            context_lines,
            min_threshold,
        )[0].right_start >= start_right + context_lines,
    decreases blocks.len() - i,
{
    if i >= blocks.len() {
        lemma_gap_region_props(
            start_left,
            start_right,
            left_total,
            right_total,
            context_lines,
            min_threshold,
        );
    } else {
        let b = blocks[i];
        assert(crate::blocks::block_wf(b));
        lemma_gap_region_props(
            start_left,
            start_right,
            b.left_start as int,
            b.right_start as int,
            context_lines,
            min_threshold,
        );
        let sl2 = max(b.left_end as int, start_left);
        let sr2 = max(b.right_end as int, start_right);
        lemma_regions_from_wf(
            blocks,
            i + 1,
            sl2,
            sr2,
            left_total,
            right_total,
            context_lines,
            min_threshold,
        );
        let rest = regions_from(
            blocks,
            i + 1,
            sl2,
            sr2,
            left_total,
            right_total,
            context_lines,
            min_threshold,
        );
        let here = gap_region(
            start_left,
            start_right,
            b.left_start as int,
            b.right_start as int,
            context_lines,
            min_threshold,
        );
        let cur = regions_from(
            blocks,
            i,
            start_left,
            start_right,
            left_total,
            right_total,
            context_lines,
            min_threshold,
        );
        match here {
            Some(r) => {
                assert(cur =~= seq![r] + rest);
                if rest.len() > 0 {
                    assert(rest[0].left_start >= sl2 + context_lines);
                    assert(rest[0].right_start >= sr2 + context_lines);
                    assert(r.left_end <= b.left_start as int);
                    assert(r.right_end <= b.right_start as int);
                }
                assert forall|j: int| 0 <= j < cur.len() implies (#[trigger] cur[j]).left_start
                    < cur[j].left_end && cur[j].right_start < cur[j].right_end by {
                    if j > 0 {
                        assert(cur[j] == rest[j - 1]);
                    }
                }
                assert forall|j: int| 0 < j < cur.len() implies (#[trigger] cur[j]).left_start
                    >= cur[j - 1].left_end && cur[j].right_start >= cur[j - 1].right_end by {
                    if j == 1 {
                        assert(cur[1] == rest[0]);
                    } else {
                        assert(cur[j] == rest[j - 1]);
                        assert(cur[j - 1] == rest[j - 2]);
                    }
                }
                assert forall|k: int| 0 <= k < cur.len() implies (#[trigger] cur[k]).left_end
                    - cur[k].left_start >= min_threshold && cur[k].right_end
                    - cur[k].right_start >= min_threshold && cur[k].line_count >= min_threshold
                    && cur[k].line_count >= 1 && cur[k].line_count == min(
                    cur[k].left_end - cur[k].left_start,
                    cur[k].right_end - cur[k].right_start,
                ) by {
                    if k > 0 {
                        assert(cur[k] == rest[k - 1]);
                    }
                }
            },
            None => {
                assert(cur =~= rest);
            },
        }
    }
}

/// The planner's output for a well-formed block list never overlaps on
/// either side and never collapses a span shorter than
/// `2 * context_lines + min_threshold` unchanged lines: every emitted region
/// keeps at least `min_threshold` hidden lines per side.
pub proof fn lemma_plan_no_overlap_and_threshold(
    blocks: Seq<DiffBlock>,
    left_total: int,
    right_total: int,
    context_lines: int,
    min_threshold: int,
)
    requires
        blocks_wf(blocks),
        0 <= context_lines,
        0 <= min_threshold,
        left_total <= 0xffffffff,
        right_total <= 0xffffffff,
    ensures
        regions_wf(regions_spec(blocks, left_total, right_total, context_lines, min_threshold)),
        regions_meet_threshold(
            regions_spec(blocks, left_total, right_total, context_lines, min_threshold),
            min_threshold,
        ),
{
    lemma_regions_from_wf(
        blocks,
        0,
        0,
        0,
        left_total,
        right_total,
        context_lines,
        min_threshold,
    );
}

/// Suppressing expanded regions keeps the list well formed: the survivors
/// stay disjoint and ordered on both sides.
pub proof fn lemma_suppress_preserves_wf(rs: Seq<CollapsedRegion>, expanded: Seq<u32>)
    requires
        regions_wf(rs),
    ensures
        regions_wf(suppress_expanded(rs, expanded)),
        suppress_expanded(rs, expanded).len() > 0 && rs.len() > 0
            ==> suppress_expanded(rs, expanded).last().left_end <= rs.last().left_end
            && suppress_expanded(rs, expanded).last().right_end <= rs.last().right_end,
    decreases rs.len(),
{
    reveal_with_fuel(Seq::filter, 2);
    let pred = |x: CollapsedRegion| !expanded.contains(x.region_id);
    let f = suppress_expanded(rs, expanded);
    if rs.len() == 0 {
        assert(f =~= Seq::<CollapsedRegion>::empty());
    } else {
        let prefix = rs.drop_last();
        assert(regions_wf(prefix)) by {
            assert(forall|i: int| 0 <= i < prefix.len() ==> prefix[i] == rs[i]);
        }
        lemma_suppress_preserves_wf(prefix, expanded);
        let fp = suppress_expanded(prefix, expanded);
        if pred(rs.last()) {
            assert(f == fp.push(rs.last()));
            if fp.len() > 0 {
                if prefix.len() > 0 {
                    assert(fp.last().left_end <= prefix.last().left_end);
                    assert(fp.last().right_end <= prefix.last().right_end);
                    assert(prefix.last() == rs[rs.len() - 2]);
                    assert(rs.last().left_start >= rs[rs.len() - 2].left_end);
                    assert(rs.last().right_start >= rs[rs.len() - 2].right_end);
                }
            }
            assert forall|j: int| 0 <= j < f.len() implies (#[trigger] f[j]).left_start
                < f[j].left_end && f[j].right_start < f[j].right_end by {
                if j < f.len() - 1 {
                    assert(f[j] == fp[j]);
                } else {
                    assert(f[j] == rs.last());
                    assert(rs.last() == rs[rs.len() - 1]);
                }
            }
            assert forall|j: int| 0 < j < f.len() implies (#[trigger] f[j]).left_start >= f[j
                - 1].left_end && f[j].right_start >= f[j - 1].right_end by {
                if j < f.len() - 1 {
                    assert(f[j] == fp[j]);
                    assert(f[j - 1] == fp[j - 1]);
                } else {
                    assert(f[j] == rs.last());
                    assert(f[j - 1] == fp[j - 1]);
                }
            }
        } else {
            assert(f == fp);
        }
    }
}

/// Every region surviving suppression occurs in the unfiltered list, so the
/// per-region guarantees transfer.
proof fn lemma_suppress_elements(rs: Seq<CollapsedRegion>, expanded: Seq<u32>)
    ensures
        forall|j: int| 0 <= j < suppress_expanded(rs, expanded).len() ==> exists|i: int|
            0 <= i < rs.len() && rs[i] == #[trigger] suppress_expanded(rs, expanded)[j],
    decreases rs.len(),
{
    reveal_with_fuel(Seq::filter, 2);
    let f = suppress_expanded(rs, expanded);
    if rs.len() > 0 {
        let prefix = rs.drop_last();
        lemma_suppress_elements(prefix, expanded);
        let fp = suppress_expanded(prefix, expanded);
        assert forall|j: int| 0 <= j < f.len() implies exists|i: int|
            0 <= i < rs.len() && rs[i] == #[trigger] f[j] by {
            if j < fp.len() {
                assert(f[j] == fp[j]);
                let i = choose|i: int| 0 <= i < prefix.len() && prefix[i] == fp[j];
                assert(rs[i] == f[j]);
            } else {
                assert(f[j] == rs.last());
                assert(rs[rs.len() - 1] == f[j]);
            }
        }
    }
}

/// The span on the chosen side of a region.
pub open spec fn side_span(r: CollapsedRegion, side: Side) -> (int, int) {
    match side {
        Side::Left => (r.left_start as int, r.left_end as int),
        Side::Right => (r.right_start as int, r.right_end as int),
    }
}

/// Well-formedness of a planned region list, as [`plan_collapsed_regions`]
/// guarantees it: every span non-empty, and consecutive regions disjoint and
/// in ascending order on both sides.
pub open spec fn regions_wf(rs: Seq<CollapsedRegion>) -> bool {
    &&& forall|i: int| 0 <= i < rs.len() ==> (#[trigger] rs[i]).left_start < rs[i].left_end
        && rs[i].right_start < rs[i].right_end
    &&& forall|i: int| 0 < i < rs.len() ==> (#[trigger] rs[i]).left_start >= rs[i - 1].left_end
        && rs[i].right_start >= rs[i - 1].right_end
}

/// For a well-formed region list the collapsed offset is non-negative and
/// never exceeds the last region's end line on the chosen side.
pub(crate) proof fn lemma_collapsed_offset_bound(regions: Seq<CollapsedRegion>, side: Side, base_row: int)
    requires
        regions_wf(regions),
    ensures
        0 <= collapsed_offset_spec(regions, side, base_row),
        collapsed_offset_spec(regions, side, base_row) <= if regions.len() == 0 {
            0int
        } else {
            side_span(regions.last(), side).1
        },
    decreases regions.len(),
{
    if regions.len() > 0 {
        let prefix = regions.drop_last();
        assert(regions_wf(prefix)) by {
            assert(forall|i: int| 0 <= i < prefix.len() ==> prefix[i] == regions[i]);
        }
        lemma_collapsed_offset_bound(prefix, side, base_row);
        let (start, end) = side_span(regions.last(), side);
        if regions.len() >= 2 {
            assert(regions[regions.len() - 1].left_start >= regions[regions.len()
                - 2].left_end);
            assert(side_span(prefix.last(), side).1 <= start);
        }
    }
}

/// How many rows the collapsed regions hide above the given scaled base row
/// on one side. The rendering layer subtracts this from a logical row to get
/// an on-screen row; the logical line mapping itself never depends on it.
pub fn calc_collapsed_offset(regions: &Vec<CollapsedRegion>, side: Side, base_row: i64) -> (r:
    i64)
    requires
        regions_wf(regions@),
    ensures
        r as int == collapsed_offset_spec(regions@, side, base_row as int),
{
    let n = regions.len();
    let mut offset: i64 = 0;
    let mut i: usize = 0;
    while i < n
        invariant
            n == regions@.len(),
            i <= n,
            regions_wf(regions@),
            offset as int == collapsed_offset_spec(
                regions@.subrange(0, i as int),
                side,
                base_row as int,
            ),
            0 <= offset <= 0x100000000,
        decreases n - i,
    {
        let region = regions[i];
        let (start, end) = match side {
            Side::Left => (region.left_start, region.left_end),
            Side::Right => (region.right_start, region.right_end),
        };
        proof {
            let pre = regions@.subrange(0, i as int);
            let cur = regions@.subrange(0, i + 1);
            assert(cur.drop_last() =~= pre);
            assert(cur.last() == regions@[i as int]);
            assert(regions_wf(cur)) by {
                assert(forall|j: int| 0 <= j < cur.len() ==> cur[j] == regions@[j]);
            }
            lemma_collapsed_offset_bound(cur, side, base_row as int);
        }
        if (end as i64) * ROW_SCALE <= base_row {
            offset = offset + (end as i64) - (start as i64) - 1;
        }
        i = i + 1;
    }
    proof {
        assert(regions@.subrange(0, n as int) =~= regions@);
    }
    offset
}

} // verus!
