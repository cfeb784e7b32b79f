//! Proved properties of the coordinate mapper: the empty mapping is the
//! clamped identity; the forward map never scrolls backward; and away from
//! size-mismatched blocks — at positions in the unchanged gaps, and
//! everywhere when every block keeps its size — the forward and inverse
//! maps undo each other exactly.

use vstd::arithmetic::div_mod::{
    lemma_div_is_ordered, lemma_div_multiples_vanish, lemma_div_pos_is_pos,
};
use vstd::arithmetic::mul::{lemma_mul_inequality, lemma_mul_is_commutative, lemma_mul_nonnegative};
use vstd::math::{max, min};
use vstd::prelude::*;

use crate::blocks::{blocks_wf, block_wf, DiffBlock};
use crate::curves::{
    block_left_len, block_right_len, curve_left_after, curve_of_block, curve_right_after,
    curve_wf, curves_from, curves_spec, curves_wf, ConnectorCurve,
};
use crate::mapping::{
    clamp_to, left_after_s, left_len_s, left_start_s, map_forward_spec, map_from,
    map_inverse_spec, map_step_before, map_step_inside, right_after_s, right_len_s,
    right_start_s, row_limit, swap_curve, swap_curves,
};

verus! {

/// With no diff blocks both maps are the identity, clamped into
/// `[0, totalLines - 1]`, for every position and viewport.
pub proof fn lemma_empty_curves_identity(
    pos: int,
    left_total: int,
    right_total: int,
    hv: int,
)
    ensures
        map_forward_spec(Seq::empty(), pos, right_total, hv) == clamp_to(
            pos,
            row_limit(right_total),
        ),
        map_inverse_spec(Seq::empty(), pos, left_total, hv) == clamp_to(
            pos,
            row_limit(left_total),
        ),
{
    assert(swap_curves(Seq::empty()) =~= Seq::<ConnectorCurve>::empty());
}

/// The mapper's output-range guarantee: for every curve set, position and
/// viewport — out of range or not — both maps land inside
/// `[0, (totalLines - 1) * ROW_SCALE]`; out-of-range inputs are silently
/// clamped, never an error.
pub proof fn lemma_maps_in_range(
    cs: Seq<ConnectorCurve>,
    pos: int,
    left_total: int,
    right_total: int,
    hv: int,
)
    ensures
        0 <= map_forward_spec(cs, pos, right_total, hv) <= row_limit(right_total),
        0 <= map_inverse_spec(cs, pos, left_total, hv) <= row_limit(left_total),
{
    if cs.len() > 0 {
        crate::mapping::lemma_map_from_in_range(cs, pos, hv, row_limit(right_total), 0, 0);
        crate::mapping::lemma_map_from_in_range(
            swap_curves(cs),
            pos,
            hv,
            row_limit(left_total),
            0,
            0,
        );
    } else {
        assert(swap_curves(cs) =~= Seq::<ConnectorCurve>::empty());
    }
}

/// Alignment of a curve list from a running offset `cum`: each block starts
/// on the right exactly `cum` rows after its left start, where `cum` is the
/// accumulated size difference of the blocks before it. This holds of the
/// curves of any line diff, because the unchanged gap between two blocks has
/// the same length on both sides.
pub open spec fn curves_aligned_from(cs: Seq<ConnectorCurve>, cum: int) -> bool
    decreases cs.len(),
{
    cs.len() == 0 || {
        &&& right_start_s(cs[0]) == left_start_s(cs[0]) + cum
        &&& curves_aligned_from(cs.drop_first(), cum + right_len_s(cs[0]) - left_len_s(cs[0]))
    }
}

/// Alignment of a full curve list.
pub open spec fn curves_aligned(cs: Seq<ConnectorCurve>) -> bool {
    curves_aligned_from(cs, 0)
}

/// Every curve has sides of equal length.
pub open spec fn curves_equal_sized(cs: Seq<ConnectorCurve>) -> bool {
    forall|i: int| 0 <= i < cs.len() ==> left_len_s(#[trigger] cs[i]) == right_len_s(cs[i])
}

/// Alignment of a block list from a running line offset: each block starts
/// on the right exactly `cum` lines after its left start. This is the shape
/// of any block list produced by a line diff, since every unchanged gap has
/// the same length on both sides.
pub open spec fn blocks_aligned_from(blocks: Seq<DiffBlock>, i: int, cum: int) -> bool
    decreases blocks.len() - i,
{
    i < 0 || i >= blocks.len() || {
        &&& blocks[i].right_start == blocks[i].left_start + cum
        &&& blocks_aligned_from(
            blocks,
            i + 1,
            cum + block_right_len(blocks[i]) - block_left_len(blocks[i]),
        )
    }
}

/// Alignment of a full block list.
pub open spec fn blocks_aligned(blocks: Seq<DiffBlock>) -> bool {
    blocks_aligned_from(blocks, 0, 0)
}

proof fn lemma_curves_from_aligned(blocks: Seq<DiffBlock>, i: int, ins: int, del: int, cum: int)
    requires
        blocks_wf(blocks),
        0 <= i,
        blocks_aligned_from(blocks, i, cum),
    ensures
        curves_aligned_from(curves_from(blocks, i, ins, del), cum * 1000),
    decreases blocks.len() - i,
{
    if i < blocks.len() {
        let b = blocks[i];
        assert(block_wf(b));
        let llen = block_left_len(b);
        let rlen = block_right_len(b);
        let ins2 = ins + max(rlen - llen, 0);
        let del2 = del + max(llen - rlen, 0);
        let cum2 = cum + rlen - llen;
        lemma_curves_from_aligned(blocks, i + 1, ins2, del2, cum2);
        let rest = curves_from(blocks, i + 1, ins2, del2);
        let cur = curves_from(blocks, i, ins, del);
        if llen == 0 && rlen == 0 {
            assert(cur =~= rest);
        } else {
            let c = curve_of_block(b, i, ins, del);
            assert(cur =~= seq![c] + rest);
            assert(cur[0] == c);
            assert(cur.drop_first() =~= rest);
            assert(right_start_s(c) == left_start_s(c) + cum * 1000);
            assert(left_len_s(c) == llen * 1000);
            assert(right_len_s(c) == rlen * 1000);
            assert(cum * 1000 + right_len_s(c) - left_len_s(c) == cum2 * 1000);
        }
    }
}

/// The curves built from a well-formed, aligned block list are aligned: the
/// hypothesis of the monotonicity and round-trip laws holds of every curve
/// set this crate builds from a real line diff.
pub proof fn lemma_curves_of_aligned_blocks(blocks: Seq<DiffBlock>)
    requires
        blocks_wf(blocks),
        blocks_aligned(blocks),
    ensures
        curves_aligned(curves_spec(blocks)),
{
    lemma_curves_from_aligned(blocks, 0, 0, 0, 0);
}

proof fn lemma_curves_from_equal_sized(blocks: Seq<DiffBlock>, i: int, ins: int, del: int)
    requires
        blocks_wf(blocks),
        0 <= i,
        forall|j: int| 0 <= j < blocks.len() ==> block_left_len(#[trigger] blocks[j])
            == block_right_len(blocks[j]),
    ensures
        curves_equal_sized(curves_from(blocks, i, ins, del)),
    decreases blocks.len() - i,
{
    if i < blocks.len() {
        let b = blocks[i];
        let llen = block_left_len(b);
        let rlen = block_right_len(b);
        let ins2 = ins + max(rlen - llen, 0);
        let del2 = del + max(llen - rlen, 0);
        lemma_curves_from_equal_sized(blocks, i + 1, ins2, del2);
        let rest = curves_from(blocks, i + 1, ins2, del2);
        let cur = curves_from(blocks, i, ins, del);
        if llen == 0 && rlen == 0 {
            assert(cur =~= rest);
        } else {
            assert(block_wf(b));
            let c = curve_of_block(b, i, ins, del);
            assert(cur =~= seq![c] + rest);
            assert forall|j: int| 0 <= j < cur.len() implies left_len_s(#[trigger] cur[j])
                == right_len_s(cur[j]) by {
                if j == 0 {
                    assert(cur[0] == c);
                    assert(left_len_s(c) == llen * 1000);
                    assert(right_len_s(c) == rlen * 1000);
                } else {
                    assert(cur[j] == rest[j - 1]);
                    assert(left_len_s(rest[j - 1]) == right_len_s(rest[j - 1]));
                }
            }
        }
    }
}

/// The curves built from blocks whose two ranges are always the same length
/// are equal sized: the hypothesis of the whole-diff round-trip law holds of
/// every such diff.
pub proof fn lemma_curves_of_equal_sized_blocks(blocks: Seq<DiffBlock>)
    requires
        blocks_wf(blocks),
        forall|j: int| 0 <= j < blocks.len() ==> block_left_len(#[trigger] blocks[j])
            == block_right_len(blocks[j]),
    ensures
        curves_equal_sized(curves_spec(blocks)),
{
    lemma_curves_from_equal_sized(blocks, 0, 0, 0);
}

/// The well-formedness carried through the walk: the remaining curves are
/// well formed and start at or after the previous extent.
spec fn suffix_ok(cs: Seq<ConnectorCurve>, prev_after: int) -> bool {
    &&& curves_wf(cs)
    &&& 0 <= prev_after
    &&& cs.len() > 0 ==> prev_after <= left_start_s(cs[0])
}

proof fn lemma_wf_drop_first(cs: Seq<ConnectorCurve>)
    requires
        curves_wf(cs),
        cs.len() > 0,
    ensures
        curves_wf(cs.drop_first()),
        cs.len() > 1 ==> left_after_s(cs[0]) <= left_start_s(cs.drop_first()[0])
            && right_after_s(cs[0]) <= right_start_s(cs.drop_first()[0]),
{
    let d = cs.drop_first();
    assert forall|i: int| 0 <= i < d.len() implies #[trigger] curve_wf(d[i]) by {
        assert(d[i] == cs[i + 1]);
        assert(curve_wf(cs[i + 1]));
    }
    assert forall|i: int| 0 < i < d.len() implies (#[trigger] d[i]).left_start
        >= curve_left_after(d[i - 1]) && d[i].right_start >= curve_right_after(d[i - 1]) by {
        assert(d[i] == cs[i + 1]);
        assert(d[i - 1] == cs[i]);
        assert(cs[i + 1].left_start >= curve_left_after(cs[i]));
    }
    if cs.len() > 1 {
        assert(d[0] == cs[1]);
        assert(cs[1].left_start >= curve_left_after(cs[0]));
        assert(cs[1].right_start >= curve_right_after(cs[0]));
    }
}

/// Geometry shared by the walk lemmas: under well-formedness the scaled
/// extents are consistent.
proof fn lemma_curve_geometry(c: ConnectorCurve)
    requires
        curve_wf(c),
    ensures
        0 <= left_start_s(c),
        0 <= right_start_s(c),
        0 <= left_len_s(c),
        0 <= right_len_s(c),
        left_after_s(c) == left_start_s(c) + left_len_s(c),
        right_after_s(c) == right_start_s(c) + right_len_s(c),
{
}

/// Division of a larger non-negative numerator by the same positive
/// denominator gives at least as large a quotient.
proof fn lemma_ratio_mono(a1: int, a2: int, s: int, d: int)
    requires
        0 <= a1 <= a2,
        0 <= s,
        0 < d,
    ensures
        a1 * s / d <= a2 * s / d,
{
    lemma_mul_inequality(a1, a2, s);
    lemma_div_is_ordered(a1 * s, a2 * s, d);
}

/// The interpolation step stays within `[0, s]` while the numerator stays
/// within the denominator.
proof fn lemma_ratio_range(a: int, s: int, d: int)
    requires
        0 <= a <= d,
        0 <= s,
        0 < d,
    ensures
        0 <= a * s / d <= s,
{
    lemma_mul_nonnegative(a, s);
    lemma_div_pos_is_pos(a * s, d);
    lemma_mul_inequality(a, d, s);
    lemma_div_is_ordered(a * s, d * s, d);
    lemma_div_multiples_vanish(s, d);
}

/// With a zero half-viewport, the value inside a curve's left extent lies
/// between the block's right start and right end (both clamped).
proof fn lemma_inside_bounds(c: ConnectorCurve, pos: int, rmax: int)
    requires
        curve_wf(c),
        0 <= rmax,
        left_start_s(c) <= pos < left_after_s(c),
    ensures
        clamp_to(right_start_s(c), rmax) <= map_step_inside(c, pos, 0, rmax),
        map_step_inside(c, pos, 0, rmax) <= clamp_to(right_start_s(c) + right_len_s(c), rmax),
{
    lemma_curve_geometry(c);
    let lbs = left_start_s(c);
    let rbs = right_start_s(c);
    let llen = left_len_s(c);
    let rlen = right_len_s(c);
    let progress = pos - lbs;
    let v = map_step_inside(c, pos, 0, rmax);
    assert(llen > 0);
    if llen > rlen {
        let st = clamp_to(rbs, rmax);
        let extra = llen - rlen;
        let resume_at = extra;
        assert(min(max(llen - rlen, 0), max(llen - 0, 0)) == resume_at);
        if progress < resume_at {
            assert(v == st);
        } else {
            let denom = llen - resume_at;
            assert(denom == rlen);
            if denom <= 0 {
                assert(v == clamp_to(rbs, rmax));
            } else {
                let endp = min(max(right_after_s(c), st), rmax);
                let span = endp - st;
                if span <= 0 {
                    assert(v == clamp_to(rbs, rmax));
                } else {
                    let num = min(max(progress - resume_at, 0), denom);
                    lemma_ratio_range(num, span, denom);
                    assert(st <= right_after_s(c));
                    assert(endp <= clamp_to(rbs + rlen, rmax));
                    assert(v == clamp_to(st + num * span / denom, rmax));
                }
            }
        }
    } else {
        lemma_ratio_range(progress, rlen, llen);
        lemma_ratio_mono(progress, llen, rlen, llen);
        lemma_mul_is_commutative(llen, rlen);
        lemma_div_multiples_vanish(rlen, llen);
        assert(llen * rlen / llen == rlen);
        assert(progress * rlen / llen <= rlen);
        assert(v == clamp_to(rbs + progress * rlen / llen, rmax));
    }
}

/// With a zero half-viewport, the value inside a curve's left extent is
/// monotone in the position.
proof fn lemma_inside_mono(c: ConnectorCurve, pos1: int, pos2: int, rmax: int)
    requires
        curve_wf(c),
        0 <= rmax,
        left_start_s(c) <= pos1 <= pos2 < left_after_s(c),
    ensures
        map_step_inside(c, pos1, 0, rmax) <= map_step_inside(c, pos2, 0, rmax),
{
    lemma_curve_geometry(c);
    let lbs = left_start_s(c);
    let rbs = right_start_s(c);
    let llen = left_len_s(c);
    let rlen = right_len_s(c);
    let p1 = pos1 - lbs;
    let p2 = pos2 - lbs;
    assert(llen > 0);
    if llen > rlen {
        let st = clamp_to(rbs, rmax);
        let resume_at = llen - rlen;
        assert(min(max(llen - rlen, 0), max(llen - 0, 0)) == resume_at);
        let denom = llen - resume_at;
        assert(denom == rlen);
        if p2 < resume_at {
        } else if p1 < resume_at {
            if denom <= 0 {
            } else {
                let endp = min(max(right_after_s(c), st), rmax);
                let span = endp - st;
                if span > 0 {
                    let num2 = min(max(p2 - resume_at, 0), denom);
                    lemma_ratio_range(num2, span, denom);
                }
            }
        } else {
            if denom > 0 {
                let endp = min(max(right_after_s(c), st), rmax);
                let span = endp - st;
                if span > 0 {
                    let num1 = min(max(p1 - resume_at, 0), denom);
                    let num2 = min(max(p2 - resume_at, 0), denom);
                    lemma_ratio_mono(num1, num2, span, denom);
                }
            }
        }
    } else {
        lemma_ratio_mono(p1, p2, rlen, llen);
    }
}

/// With a zero half-viewport the walk's value never falls below the clamped
/// entry position of the remaining curves, and always lands in `[0, rmax]`.
proof fn lemma_map_from_lb(cs: Seq<ConnectorCurve>, pos: int, rmax: int, cum: int, prev_after: int)
    requires
        suffix_ok(cs, prev_after),
        curves_aligned_from(cs, cum),
        0 <= rmax,
        prev_after <= pos,
    ensures
        clamp_to(prev_after + cum, rmax) <= map_from(cs, pos, 0, rmax, cum, prev_after),
        0 <= map_from(cs, pos, 0, rmax, cum, prev_after) <= rmax,
    decreases cs.len(),
{
    if cs.len() == 0 {
    } else {
        let c = cs[0];
        assert(curve_wf(c));
        lemma_curve_geometry(c);
        let lbs = left_start_s(c);
        let lae = left_after_s(c);
        let rbs = right_start_s(c);
        let llen = left_len_s(c);
        let rlen = right_len_s(c);
        if prev_after <= pos && pos < lbs {
        } else if lbs <= pos && pos < lae {
            lemma_inside_bounds(c, pos, rmax);
        } else {
            lemma_wf_drop_first(cs);
            lemma_map_from_lb(cs.drop_first(), pos, rmax, cum + rlen - llen, lae);
            assert(clamp_to(lae + (cum + rlen - llen), rmax) == clamp_to(rbs + rlen, rmax));
        }
    }
}

/// With a zero half-viewport the walk is monotone over positions at or past
/// the previous extent.
proof fn lemma_map_from_mono(
    cs: Seq<ConnectorCurve>,
    pos1: int,
    pos2: int,
    rmax: int,
    cum: int,
    prev_after: int,
)
    requires
        suffix_ok(cs, prev_after),
        curves_aligned_from(cs, cum),
        0 <= rmax,
        prev_after <= pos1 <= pos2,
    ensures
        map_from(cs, pos1, 0, rmax, cum, prev_after) <= map_from(cs, pos2, 0, rmax, cum,
        prev_after),
    decreases cs.len(),
{
    if cs.len() == 0 {
    } else {
        let c = cs[0];
        assert(curve_wf(c));
        lemma_curve_geometry(c);
        let lbs = left_start_s(c);
        let lae = left_after_s(c);
        let rbs = right_start_s(c);
        let llen = left_len_s(c);
        let rlen = right_len_s(c);
        let v1 = map_from(cs, pos1, 0, rmax, cum, prev_after);
        let v2 = map_from(cs, pos2, 0, rmax, cum, prev_after);
        if pos1 < lbs {
            // pos1 sits in the gap before the curve
            assert(v1 == map_step_before(c, pos1, cum, 0, rmax));
            assert(v1 <= clamp_to(rbs, rmax));
            if pos2 < lbs {
                assert(v2 == map_step_before(c, pos2, cum, 0, rmax));
            } else if pos2 < lae {
                lemma_inside_bounds(c, pos2, rmax);
            } else {
                lemma_wf_drop_first(cs);
                lemma_map_from_lb(cs.drop_first(), pos2, rmax, cum + rlen - llen, lae);
                assert(clamp_to(lae + (cum + rlen - llen), rmax) == clamp_to(rbs + rlen, rmax));
            }
        } else if pos1 < lae {
            lemma_inside_bounds(c, pos1, rmax);
            if pos2 < lae {
                lemma_inside_mono(c, pos1, pos2, rmax);
            } else {
                lemma_wf_drop_first(cs);
                lemma_map_from_lb(cs.drop_first(), pos2, rmax, cum + rlen - llen, lae);
                assert(clamp_to(lae + (cum + rlen - llen), rmax) == clamp_to(rbs + rlen, rmax));
            }
        } else {
            lemma_wf_drop_first(cs);
            lemma_map_from_mono(cs.drop_first(), pos1, pos2, rmax, cum + rlen - llen, lae);
        }
    }
}

/// The forward map never scrolls backward: for a fixed, well-formed and
/// aligned curve set and a zero half-viewport, a larger (non-negative)
/// source position never maps to a smaller destination position.
pub proof fn lemma_map_forward_monotonic(
    cs: Seq<ConnectorCurve>,
    pos1: int,
    pos2: int,
    dest_total: int,
)
    requires
        curves_wf(cs),
        curves_aligned(cs),
        0 <= pos1 <= pos2,
    ensures
        map_forward_spec(cs, pos1, dest_total, 0) <= map_forward_spec(cs, pos2, dest_total, 0),
{
    if cs.len() > 0 {
        lemma_map_from_mono(cs, pos1, pos2, row_limit(dest_total), 0, 0);
    }
}

/// The inverse map never scrolls backward either: the same monotonicity,
/// through the curves with their sides exchanged.
pub proof fn lemma_map_inverse_monotonic(
    cs: Seq<ConnectorCurve>,
    pos1: int,
    pos2: int,
    dest_total: int,
)
    requires
        curves_wf(cs),
        curves_aligned(cs),
        0 <= pos1 <= pos2,
    ensures
        map_inverse_spec(cs, pos1, dest_total, 0) <= map_inverse_spec(cs, pos2, dest_total, 0),
{
    let sw = swap_curves(cs);
    if cs.len() == 0 {
        assert(sw =~= Seq::<ConnectorCurve>::empty());
    } else {
        lemma_swap_preserves_wf(cs);
        lemma_swap_aligned(cs, 0);
        assert(sw[0] == swap_curve(cs[0]));
        assert(curve_wf(cs[0]));
        lemma_map_from_mono(sw, pos1, pos2, row_limit(dest_total), 0, 0);
    }
}

/// No curve maps more left lines onto fewer right lines: the diff only
/// grows or keeps size, so the stationary-position machinery never engages.
pub open spec fn curves_never_shrink(cs: Seq<ConnectorCurve>) -> bool {
    forall|i: int| 0 <= i < cs.len() ==> left_len_s(#[trigger] cs[i]) <= right_len_s(cs[i])
}

/// Over curves that never shrink, the walk does not depend on the viewport:
/// only the stationary-position cap reads it, and that cap belongs to
/// shrinking blocks.
proof fn lemma_map_from_hv_irrelevant(
    cs: Seq<ConnectorCurve>,
    pos: int,
    hv: int,
    rmax: int,
    cum: int,
    prev_after: int,
)
    requires
        curves_never_shrink(cs),
    ensures
        map_from(cs, pos, hv, rmax, cum, prev_after) == map_from(cs, pos, 0, rmax, cum,
        prev_after),
    decreases cs.len(),
{
    if cs.len() > 0 {
        let c = cs[0];
        assert(left_len_s(c) <= right_len_s(c));
        assert forall|i: int| 0 <= i < cs.drop_first().len() implies left_len_s(
            #[trigger] cs.drop_first()[i],
        ) <= right_len_s(cs.drop_first()[i]) by {
            assert(cs.drop_first()[i] == cs[i + 1]);
            assert(left_len_s(cs[i + 1]) <= right_len_s(cs[i + 1]));
        }
        lemma_map_from_hv_irrelevant(
            cs.drop_first(),
            pos,
            hv,
            rmax,
            cum + right_len_s(c) - left_len_s(c),
            left_after_s(c),
        );
    }
}

/// The forward map is monotone for every viewport size when no block of the
/// diff shrinks: with only insertions and same-size modifications there is
/// no stationary cap, so a larger source position never maps backward.
pub proof fn lemma_map_forward_monotonic_no_shrink(
    cs: Seq<ConnectorCurve>,
    pos1: int,
    pos2: int,
    dest_total: int,
    hv: int,
)
    requires
        curves_wf(cs),
        curves_aligned(cs),
        curves_never_shrink(cs),
        0 <= pos1 <= pos2,
    ensures
        map_forward_spec(cs, pos1, dest_total, hv) <= map_forward_spec(cs, pos2, dest_total,
        hv),
{
    if cs.len() > 0 {
        lemma_map_from_hv_irrelevant(cs, pos1, hv, row_limit(dest_total), 0, 0);
        lemma_map_from_hv_irrelevant(cs, pos2, hv, row_limit(dest_total), 0, 0);
        lemma_map_from_mono(cs, pos1, pos2, row_limit(dest_total), 0, 0);
    }
}

/// A position lies outside every curve's left extent: it sits in one of the
/// unchanged gaps (or past the last block).
pub open spec fn outside_blocks(cs: Seq<ConnectorCurve>, pos: int) -> bool
    decreases cs.len(),
{
    cs.len() == 0 || {
        &&& !(left_start_s(cs[0]) <= pos < left_after_s(cs[0]))
        &&& outside_blocks(cs.drop_first(), pos)
    }
}

/// The cumulative offset in effect at a position: the summed size
/// difference of every curve whose left extent lies fully before it.
pub open spec fn cum_until(cs: Seq<ConnectorCurve>, pos: int, cum: int) -> int
    decreases cs.len(),
{
    if cs.len() == 0 || pos < left_after_s(cs[0]) {
        cum
    } else {
        cum_until(cs.drop_first(), pos, cum + right_len_s(cs[0]) - left_len_s(cs[0]))
    }
}

/// In the gaps, with a zero half-viewport, the walk is exactly the position
/// plus the offset of the curves passed, clamped.
proof fn lemma_map_from_gap_value(
    cs: Seq<ConnectorCurve>,
    pos: int,
    rmax: int,
    cum: int,
    prev_after: int,
)
    requires
        suffix_ok(cs, prev_after),
        curves_aligned_from(cs, cum),
        0 <= rmax,
        prev_after <= pos,
        outside_blocks(cs, pos),
    ensures
        map_from(cs, pos, 0, rmax, cum, prev_after) == clamp_to(
            pos + cum_until(cs, pos, cum),
            rmax,
        ),
    decreases cs.len(),
{
    if cs.len() > 0 {
        let c = cs[0];
        assert(curve_wf(c));
        lemma_curve_geometry(c);
        let lbs = left_start_s(c);
        let lae = left_after_s(c);
        let rbs = right_start_s(c);
        if prev_after <= pos && pos < lbs {
            assert(map_from(cs, pos, 0, rmax, cum, prev_after) == map_step_before(
                c,
                pos,
                cum,
                0,
                rmax,
            ));
        } else if lbs <= pos && pos < lae {
            assert(false);
        } else {
            lemma_wf_drop_first(cs);
            lemma_map_from_gap_value(
                cs.drop_first(),
                pos,
                rmax,
                cum + right_len_s(c) - left_len_s(c),
                lae,
            );
        }
    }
}

/// Mirroring a gap position to the other side: adding the offset in effect
/// lands outside the blocks of the swapped curves, with the opposite offset
/// in effect there.
proof fn lemma_gap_mirror(cs: Seq<ConnectorCurve>, pos: int, cum: int, prev_after: int)
    requires
        suffix_ok(cs, prev_after),
        curves_aligned_from(cs, cum),
        prev_after <= pos,
        outside_blocks(cs, pos),
    ensures
        outside_blocks(swap_curves(cs), pos + cum_until(cs, pos, cum)),
        cum_until(swap_curves(cs), pos + cum_until(cs, pos, cum), -cum) == -cum_until(
            cs,
            pos,
            cum,
        ),
        pos + cum_until(cs, pos, cum) >= prev_after + cum,
    decreases cs.len(),
{
    let sw = swap_curves(cs);
    if cs.len() == 0 {
        assert(sw =~= Seq::<ConnectorCurve>::empty());
    } else {
        let c = cs[0];
        assert(curve_wf(c));
        lemma_curve_geometry(c);
        let lbs = left_start_s(c);
        let lae = left_after_s(c);
        let rbs = right_start_s(c);
        let rae = right_after_s(c);
        let cum2 = cum + right_len_s(c) - left_len_s(c);
        assert(sw[0] == swap_curve(c));
        assert(sw.drop_first() =~= swap_curves(cs.drop_first()));
        assert(left_start_s(sw[0]) == rbs);
        assert(left_after_s(sw[0]) == rae);
        lemma_wf_drop_first(cs);
        lemma_swap_preserves_wf(cs);
        if pos < lae {
            // The position sits before this curve, so nothing is passed.
            assert(!(lbs <= pos < lae));
            assert(pos < lbs);
            let q = pos + cum;
            assert(cum_until(cs, pos, cum) == cum);
            assert(q < rbs);
            // Everything in the swapped list starts at or after this
            // curve's right start, so q lies outside all of it.
            lemma_outside_before_first(sw, q);
            assert(cum_until(sw, q, -cum) == -cum);
        } else {
            lemma_gap_mirror(cs.drop_first(), pos, cum2, lae);
            let cu = cum_until(cs.drop_first(), pos, cum2);
            assert(cum_until(cs, pos, cum) == cu);
            let q = pos + cu;
            assert(q >= lae + cum2);
            assert(lae + cum2 == rae);
            assert(!(left_start_s(sw[0]) <= q < left_after_s(sw[0])));
            assert(outside_blocks(sw, q));
            assert(cum_until(sw, q, -cum) == cum_until(
                sw.drop_first(),
                q,
                -cum + right_len_s(sw[0]) - left_len_s(sw[0]),
            ));
            assert(-cum + right_len_s(sw[0]) - left_len_s(sw[0]) == -cum2);
        }
    }
}

/// A position before the first curve's left start lies outside every curve.
proof fn lemma_outside_before_first(cs: Seq<ConnectorCurve>, pos: int)
    requires
        curves_wf(cs),
        cs.len() > 0 ==> pos < left_start_s(cs[0]),
    ensures
        outside_blocks(cs, pos),
    decreases cs.len(),
{
    if cs.len() > 0 {
        let c = cs[0];
        assert(curve_wf(c));
        lemma_curve_geometry(c);
        lemma_wf_drop_first(cs);
        if cs.len() > 1 {
            assert(left_after_s(c) <= left_start_s(cs.drop_first()[0]));
        }
        lemma_outside_before_first(cs.drop_first(), pos);
    }
}

/// Round-trip identity away from the blocks: at any position lying in an
/// unchanged gap (or past the last block), with a zero half-viewport, the
/// forward map is exactly the position shifted by the offset of the blocks
/// above it, and the inverse map carries that result back to the original
/// position — even when other blocks of the diff are size-mismatched. The
/// clamping bounds only exclude positions past either text's end.
pub proof fn lemma_round_trip_outside_blocks(
    cs: Seq<ConnectorCurve>,
    pos: int,
    left_total: int,
    right_total: int,
)
    requires
        curves_wf(cs),
        curves_aligned(cs),
        0 <= pos <= row_limit(left_total),
        outside_blocks(cs, pos),
        0 <= pos + cum_until(cs, pos, 0) <= row_limit(right_total),
    ensures
        map_forward_spec(cs, pos, right_total, 0) == pos + cum_until(cs, pos, 0),
        map_inverse_spec(cs, map_forward_spec(cs, pos, right_total, 0), left_total, 0) == pos,
{
    let sw = swap_curves(cs);
    let cu = cum_until(cs, pos, 0);
    let q = pos + cu;
    if cs.len() == 0 {
        assert(sw =~= Seq::<ConnectorCurve>::empty());
    } else {
        assert(curve_wf(cs[0]));
        lemma_map_from_gap_value(cs, pos, row_limit(right_total), 0, 0);
        lemma_gap_mirror(cs, pos, 0, 0);
        lemma_swap_preserves_wf(cs);
        lemma_swap_aligned(cs, 0);
        assert(sw[0] == swap_curve(cs[0]));
        lemma_map_from_gap_value(sw, q, row_limit(left_total), 0, 0);
    }
}

/// Exchanging the sides keeps a curve list well formed.
proof fn lemma_swap_preserves_wf(cs: Seq<ConnectorCurve>)
    requires
        curves_wf(cs),
    ensures
        curves_wf(swap_curves(cs)),
{
    let sw = swap_curves(cs);
    assert forall|i: int| 0 <= i < sw.len() implies #[trigger] curve_wf(sw[i]) by {
        assert(sw[i] == swap_curve(cs[i]));
        assert(curve_wf(cs[i]));
    }
    assert forall|i: int| 0 < i < sw.len() implies (#[trigger] sw[i]).left_start
        >= curve_left_after(sw[i - 1]) && sw[i].right_start >= curve_right_after(sw[i - 1]) by {
        assert(sw[i] == swap_curve(cs[i]));
        assert(sw[i - 1] == swap_curve(cs[i - 1]));
        assert(cs[i].left_start >= curve_left_after(cs[i - 1]));
    }
}

/// Exchanging the sides negates the alignment offset.
proof fn lemma_swap_aligned(cs: Seq<ConnectorCurve>, cum: int)
    requires
        curves_aligned_from(cs, cum),
    ensures
        curves_aligned_from(swap_curves(cs), -cum),
    decreases cs.len(),
{
    if cs.len() > 0 {
        let sw = swap_curves(cs);
        assert(sw[0] == swap_curve(cs[0]));
        assert(sw.drop_first() =~= swap_curves(cs.drop_first()));
        lemma_swap_aligned(cs.drop_first(), cum + right_len_s(cs[0]) - left_len_s(cs[0]));
        assert(left_start_s(sw[0]) == right_start_s(cs[0]));
        assert(right_start_s(sw[0]) == left_start_s(cs[0]));
        assert(left_len_s(sw[0]) == right_len_s(cs[0]));
        assert(right_len_s(sw[0]) == left_len_s(cs[0]));
    }
}

/// Over curves whose sides have equal length, the walk reduces to the
/// clamped identity, for any half-viewport: no block has extra lines on
/// either side, so the stationary-position machinery never engages.
proof fn lemma_map_from_identity(
    cs: Seq<ConnectorCurve>,
    pos: int,
    hv: int,
    rmax: int,
    prev_after: int,
)
    requires
        suffix_ok(cs, prev_after),
        curves_aligned_from(cs, 0),
        curves_equal_sized(cs),
        0 <= rmax,
        prev_after <= pos,
    ensures
        map_from(cs, pos, hv, rmax, 0, prev_after) == clamp_to(pos, rmax),
    decreases cs.len(),
{
    if cs.len() == 0 {
    } else {
        let c = cs[0];
        assert(curve_wf(c));
        assert(left_len_s(c) == right_len_s(c));
        lemma_curve_geometry(c);
        let lbs = left_start_s(c);
        let lae = left_after_s(c);
        let rbs = right_start_s(c);
        let llen = left_len_s(c);
        let rlen = right_len_s(c);
        if prev_after <= pos && pos < lbs {
            assert(map_from(cs, pos, hv, rmax, 0, prev_after) == map_step_before(
                c,
                pos,
                0,
                hv,
                rmax,
            ));
        } else if lbs <= pos && pos < lae {
            assert(llen > 0);
            let progress = pos - lbs;
            lemma_ratio_range(progress, rlen, llen);
            lemma_mul_is_commutative(progress, rlen);
            lemma_mul_is_commutative(llen, progress);
            lemma_div_multiples_vanish(progress, llen);
            assert(llen * progress / llen == progress);
            assert(progress * rlen == llen * progress);
            assert(progress * rlen / llen == progress);
            assert(map_step_inside(c, pos, hv, rmax) == clamp_to(rbs + progress, rmax));
            assert(rbs + progress == pos);
        } else {
            lemma_wf_drop_first(cs);
            assert forall|i: int| 0 <= i < cs.drop_first().len() implies left_len_s(
                #[trigger] cs.drop_first()[i],
            ) == right_len_s(cs.drop_first()[i]) by {
                assert(cs.drop_first()[i] == cs[i + 1]);
                assert(left_len_s(cs[i + 1]) == right_len_s(cs[i + 1]));
            }
            lemma_map_from_identity(cs.drop_first(), pos, hv, rmax, lae);
        }
    }
}

/// Across a diff whose blocks all have equal length on the two sides, the
/// forward map is the identity (within both texts' bounds) and the inverse
/// map undoes it exactly, for any viewport sizes. This is the round-trip
/// guarantee for positions away from size-mismatched blocks, in the strong
/// form where no block is mismatched.
pub proof fn lemma_round_trip_equal_blocks(
    cs: Seq<ConnectorCurve>,
    pos: int,
    left_total: int,
    right_total: int,
    hv_fwd: int,
    hv_inv: int,
)
    requires
        curves_wf(cs),
        curves_aligned(cs),
        curves_equal_sized(cs),
        0 <= pos,
        pos <= row_limit(right_total),
        pos <= row_limit(left_total),
    ensures
        map_forward_spec(cs, pos, right_total, hv_fwd) == pos,
        map_inverse_spec(cs, map_forward_spec(cs, pos, right_total, hv_fwd), left_total, hv_inv)
            == pos,
{
    let sw = swap_curves(cs);
    if cs.len() == 0 {
        assert(sw =~= Seq::<ConnectorCurve>::empty());
    } else {
        lemma_map_from_identity(cs, pos, hv_fwd, row_limit(right_total), 0);
        lemma_swap_preserves_wf(cs);
        lemma_swap_aligned(cs, 0);
        assert forall|i: int| 0 <= i < sw.len() implies left_len_s(#[trigger] sw[i])
            == right_len_s(sw[i]) by {
            assert(sw[i] == swap_curve(cs[i]));
            assert(left_len_s(cs[i]) == right_len_s(cs[i]));
        }
        assert(sw.len() > 0);
        assert(sw[0] == swap_curve(cs[0]));
        assert(left_start_s(sw[0]) >= 0) by {
            assert(curve_wf(cs[0]));
        }
        lemma_map_from_identity(sw, pos, hv_inv, row_limit(left_total), 0);
    }
}

} // verus!
