//! The coordinate mapper: a continuous, piecewise translation of a scroll
//! row in one text into the corresponding row of the other.
//!
//! Fractional rows are fixed-point integers with [`ROW_SCALE`] units per
//! row. The mapper walks the connector curves in order, keeping a cumulative
//! offset of the size difference of all blocks fully passed. Before a block
//! whose left side is longer than its right side, the result is capped at a
//! "stationary position" (the block's right start minus half the destination
//! viewport); inside such a block the result stays pinned there until the
//! excess lines have been scrolled past, then interpolates linearly to the
//! block's right end. Blocks whose right side is at least as long are mapped
//! by plain proportional interpolation. Outputs are clamped into
//! `[0, (total - 1) * ROW_SCALE]`; the mapper is advisory and never fails.

use vstd::math::{max, min};
use vstd::prelude::*;

use crate::curves::{curve_left_after, curve_right_after, curve_wf, ConnectorCurve};

verus! {

/// Fixed-point units per text row.
pub const ROW_SCALE: i64 = 1000;

/// The highest mapped position for a text of `total_lines` lines: the scaled
/// index of its last line (0 for an empty text).
pub open spec fn row_limit(total_lines: int) -> int {
    if total_lines <= 0 {
        0
    } else {
        (total_lines - 1) * (ROW_SCALE as int)
    }
}

/// `v` clamped into `[0, hi]` (taking `hi` if it is below 0).
pub open spec fn clamp_to(v: int, hi: int) -> int {
    min(max(v, 0), hi)
}

/// The scaled start of the curve's left extent.
pub open spec fn left_start_s(c: ConnectorCurve) -> int {
    c.left_start * (ROW_SCALE as int)
}

/// The scaled position just after the curve's left extent.
pub open spec fn left_after_s(c: ConnectorCurve) -> int {
    curve_left_after(c) * (ROW_SCALE as int)
}

/// The scaled length of the curve's left side (0 when crushed).
pub open spec fn left_len_s(c: ConnectorCurve) -> int {
    if c.left_crushed {
        0
    } else {
        left_after_s(c) - left_start_s(c)
    }
}

/// The scaled start of the curve's right extent.
pub open spec fn right_start_s(c: ConnectorCurve) -> int {
    c.right_start * (ROW_SCALE as int)
}

/// The scaled position just after the curve's right extent.
pub open spec fn right_after_s(c: ConnectorCurve) -> int {
    curve_right_after(c) * (ROW_SCALE as int)
}

/// The scaled length of the curve's right side (0 when crushed).
pub open spec fn right_len_s(c: ConnectorCurve) -> int {
    if c.right_crushed {
        0
    } else {
        right_after_s(c) - right_start_s(c)
    }
}

/// The stationary position for a block whose source side is longer than its
/// destination side: the destination stops half a viewport short of the
/// block's start and waits there.
pub open spec fn stationary_pos(dest_start: int, half_viewport: int, dest_max: int) -> int {
    clamp_to(dest_start - half_viewport, dest_max)
}

/// The mapped position for a source position lying in the gap before the
/// curve's left extent: the position plus the cumulative offset, additionally
/// capped at the stationary position when the block ahead has extra left
/// lines.
pub open spec fn map_step_before(
    c: ConnectorCurve,
    pos: int,
    cum: int,
    hv: int,
    dest_max: int,
) -> int {
    let res = pos + cum;
    if left_len_s(c) > right_len_s(c) {
        clamp_to(min(res, stationary_pos(right_start_s(c), hv, dest_max)), dest_max)
    } else {
        clamp_to(res, dest_max)
    }
}

/// The mapped position for a source position inside the curve's left extent.
///
/// With extra left lines the result stays pinned at the stationary position
/// until the source has scrolled past the excess (or past all but half a
/// viewport of the block), then interpolates linearly to the block's right
/// end. Otherwise it interpolates proportionally across the block, treating
/// a zero-length left side as halfway through.
pub open spec fn map_step_inside(c: ConnectorCurve, pos: int, hv: int, dest_max: int) -> int {
    let lbs = left_start_s(c);
    let rbs = right_start_s(c);
    let llen = left_len_s(c);
    let rlen = right_len_s(c);
    let progress = pos - lbs;
    if llen > rlen {
        let st = stationary_pos(rbs, hv, dest_max);
        let extra = max(llen - rlen, 0);
        let resume_threshold = max(llen - hv, 0);
        let resume_at = min(extra, resume_threshold);
        if progress < resume_at {
            st
        } else {
            let fallback = clamp_to(rbs, dest_max);
            let denom = llen - resume_at;
            if denom <= 0 {
                fallback
            } else {
                let endp = min(max(right_after_s(c), st), dest_max);
                let span = endp - st;
                if span <= 0 {
                    fallback
                } else {
                    let num = min(max(progress - resume_at, 0), denom);
                    clamp_to(st + num * span / denom, dest_max)
                }
            }
        }
    } else {
        if llen > 0 {
            clamp_to(rbs + progress * rlen / llen, dest_max)
        } else {
            clamp_to(rbs + rlen / 2, dest_max)
        }
    }
}

/// The mapped position determined by the curves from the front of `cs` on,
/// for a source position `pos`, given the cumulative offset `cum` of all
/// curves already passed and the scaled end `prev_after` of the previous
/// curve's left extent.
pub open spec fn map_from(
    cs: Seq<ConnectorCurve>,
    pos: int,
    hv: int,
    dest_max: int,
    cum: int,
    prev_after: int,
) -> int
    decreases cs.len(),
{
    if cs.len() == 0 {
        clamp_to(pos + cum, dest_max)
    } else {
        let c = cs[0];
        if prev_after <= pos && pos < left_start_s(c) {
            map_step_before(c, pos, cum, hv, dest_max)
        } else if left_start_s(c) <= pos && pos < left_after_s(c) {
            map_step_inside(c, pos, hv, dest_max)
        } else {
            map_from(
                cs.drop_first(),
                pos,
                hv,
                dest_max,
                cum + right_len_s(c) - left_len_s(c),
                left_after_s(c),
            )
        }
    }
}

/// What [`map_forward`] returns: with no curves, the identity clamped into
/// `[0, row_limit]`; otherwise the piecewise walk of [`map_from`].
pub open spec fn map_forward_spec(
    cs: Seq<ConnectorCurve>,
    pos: int,
    dest_total: int,
    hv: int,
) -> int {
    if cs.len() == 0 {
        clamp_to(pos, row_limit(dest_total))
    } else {
        map_from(cs, pos, hv, row_limit(dest_total), 0, 0)
    }
}

/// Every branch of the walk clamps: the result lies in `[0, dest_max]` for
/// every input whatsoever.
pub(crate) proof fn lemma_map_from_in_range(
    cs: Seq<ConnectorCurve>,
    pos: int,
    hv: int,
    dest_max: int,
    cum: int,
    prev_after: int,
)
    requires
        0 <= dest_max,
    ensures
        0 <= map_from(cs, pos, hv, dest_max, cum, prev_after) <= dest_max,
    decreases cs.len(),
{
    if cs.len() > 0 {
        let c = cs[0];
        if prev_after <= pos && pos < left_start_s(c) {
        } else if left_start_s(c) <= pos && pos < left_after_s(c) {
        } else {
            lemma_map_from_in_range(
                cs.drop_first(),
                pos,
                hv,
                dest_max,
                cum + right_len_s(c) - left_len_s(c),
                left_after_s(c),
            );
        }
    }
}

/// The curve with its left and right roles exchanged.
pub open spec fn swap_curve(c: ConnectorCurve) -> ConnectorCurve {
    ConnectorCurve {
        left_start: c.right_start,
        left_end: c.right_end,
        right_start: c.left_start,
        right_end: c.left_end,
        kind: c.kind,
        left_crushed: c.right_crushed,
        right_crushed: c.left_crushed,
        block_index: c.block_index,
        focus_line: c.focus_line,
    }
}

/// Every curve with its sides exchanged.
pub open spec fn swap_curves(cs: Seq<ConnectorCurve>) -> Seq<ConnectorCurve> {
    cs.map_values(|c: ConnectorCurve| swap_curve(c))
}

/// What [`map_inverse`] returns: the same piecewise walk with the two sides'
/// roles exchanged. The inverse is defined independently of the forward map
/// and is not its exact mathematical inverse across size-mismatched blocks.
pub open spec fn map_inverse_spec(
    cs: Seq<ConnectorCurve>,
    pos: int,
    dest_total: int,
    hv: int,
) -> int {
    map_forward_spec(swap_curves(cs), pos, dest_total, hv)
}

/// The smaller of two fixed-point values.
fn imin(a: i128, b: i128) -> (r: i128)
    ensures
        r as int == min(a as int, b as int),
{
    if a < b {
        a
    } else {
        b
    }
}

/// The larger of two fixed-point values.
fn imax(a: i128, b: i128) -> (r: i128)
    ensures
        r as int == max(a as int, b as int),
{
    if a > b {
        a
    } else {
        b
    }
}

/// The linear interpolation step `num * span / denom`, bounded by `span`.
fn ratio_part(num: i128, span: i128, denom: i128) -> (r: i128)
    requires
        0 <= num <= denom,
        0 < denom <= 4294967296000,
        0 <= span <= 4294967296000,
    ensures
        r as int == (num as int) * (span as int) / (denom as int),
        0 <= r <= span,
{
    proof {
        assert((num as int) * (span as int) <= 4294967296000 * 4294967296000) by (nonlinear_arith)
            requires
                0 <= num <= 4294967296000,
                0 <= span <= 4294967296000,
        ;
    }
    let q = ((num as u128) * (span as u128)) / (denom as u128);
    proof {
        vstd::arithmetic::mul::lemma_mul_inequality(num as int, denom as int, span as int);
        vstd::arithmetic::div_mod::lemma_div_is_ordered(
            num as int * span as int,
            denom as int * span as int,
            denom as int,
        );
        vstd::arithmetic::div_mod::lemma_div_multiples_vanish(span as int, denom as int);
        vstd::arithmetic::div_mod::lemma_div_pos_is_pos(num as int * span as int, denom as int);
        vstd::arithmetic::mul::lemma_mul_nonnegative(num as int, span as int);
    }
    q as i128
}

/// Maps a scaled scroll position of the left text to the corresponding
/// scaled position of the right text, per [`map_forward_spec`]. The result
/// is advisory: out-of-range inputs are clamped, never rejected.
pub fn map_forward(
    curves: &Vec<ConnectorCurve>,
    left_line: i64,
    right_total_lines: u32,
    half_viewport: i64,
) -> (r: i64)
    requires
        forall|j: int| 0 <= j < curves@.len() ==> curve_wf(#[trigger] curves@[j]),
    ensures
        r as int == map_forward_spec(
            curves@,
            left_line as int,
            right_total_lines as int,
            half_viewport as int,
        ),
        0 <= r,
        r as int <= row_limit(right_total_lines as int),
{
    proof {
        if curves@.len() > 0 {
            lemma_map_from_in_range(
                curves@,
                left_line as int,
                half_viewport as int,
                row_limit(right_total_lines as int),
                0,
                0,
            );
        }
    }
    let dest_max_i64: i64 = if right_total_lines == 0 {
        0
    } else {
        ((right_total_lines - 1) as i64) * ROW_SCALE
    };
    if curves.len() == 0 {
        let capped = if left_line < dest_max_i64 {
            left_line
        } else {
            dest_max_i64
        };
        return if capped < 0 {
            0
        } else {
            capped
        };
    }
    let dest_max: i128 = dest_max_i64 as i128;
    let pos: i128 = left_line as i128;
    let hv: i128 = half_viewport as i128;
    let ghost gpos = left_line as int;
    let ghost ghv = half_viewport as int;
    let ghost gmax = row_limit(right_total_lines as int);
    let n = curves.len();
    let mut cum: i128 = 0;
    let mut prev_after: i128 = 0;
    let mut i: usize = 0;
    proof {
        assert(curves@.skip(0) =~= curves@);
    }
    while i < n
        invariant
            n == curves@.len(),
            n > 0,
            i <= n,
            dest_max == gmax,
            gmax == row_limit(right_total_lines as int),
            0 <= dest_max <= 4294967296000,
            pos == gpos,
            hv == ghv,
            gpos == left_line as int,
            ghv == half_viewport as int,
            forall|j: int| 0 <= j < curves@.len() ==> curve_wf(#[trigger] curves@[j]),
            -(i as int) * 4294967296000 <= cum <= (i as int) * 4294967296000,
            0 <= prev_after <= 4294967296000,
            map_from(curves@.skip(i as int), gpos, ghv, gmax, cum as int, prev_after as int)
                == map_from(curves@, gpos, ghv, gmax, 0, 0),
        decreases n - i,
    {
        let c = curves[i];
        proof {
            assert(curves@.skip(i as int)[0] == curves@[i as int]);
            vstd::arithmetic::mul::lemma_mul_inequality(
                i as int,
                0xffffffffffffffff,
                4294967296000,
            );
        }
        let lbs: i128 = (c.left_start as i128) * (ROW_SCALE as i128);
        let lae: i128 = if c.left_crushed {
            lbs
        } else {
            ((c.left_end as i128) + 1) * (ROW_SCALE as i128)
        };
        let rbs: i128 = (c.right_start as i128) * (ROW_SCALE as i128);
        let rae: i128 = if c.right_crushed {
            rbs
        } else {
            ((c.right_end as i128) + 1) * (ROW_SCALE as i128)
        };
        let llen: i128 = if c.left_crushed {
            0
        } else {
            lae - lbs
        };
        let rlen: i128 = if c.right_crushed {
            0
        } else {
            rae - rbs
        };
        proof {
            assert(lbs == left_start_s(c));
            assert(lae == left_after_s(c));
            assert(rbs == right_start_s(c));
            assert(rae == right_after_s(c));
            assert(llen == left_len_s(c));
            assert(rlen == right_len_s(c));
        }

        if prev_after <= pos && pos < lbs {
            let res0 = pos + cum;
            let r128: i128;
            if llen > rlen {
                let st = imin(imax(rbs - hv, 0), dest_max);
                r128 = imin(imax(imin(res0, st), 0), dest_max);
            } else {
                r128 = imin(imax(res0, 0), dest_max);
            }
            proof {
                assert(r128 as int == map_step_before(c, gpos, cum as int, ghv, gmax));
            }
            return r128 as i64;
        }

        if lbs <= pos && pos < lae {
            let progress = pos - lbs;
            let r128: i128;
            if llen > rlen {
                let st = imin(imax(rbs - hv, 0), dest_max);
                let extra = imax(llen - rlen, 0);
                let resume_threshold = imax(llen - hv, 0);
                let resume_at = imin(extra, resume_threshold);
                if progress < resume_at {
                    r128 = st;
                } else {
                    let fallback = imin(imax(rbs, 0), dest_max);
                    let denom = llen - resume_at;
                    if denom <= 0 {
                        r128 = fallback;
                    } else {
                        let endp = imin(imax(rae, st), dest_max);
                        let span = endp - st;
                        if span <= 0 {
                            r128 = fallback;
                        } else {
                            let num = imin(imax(progress - resume_at, 0), denom);
                            let q = ratio_part(num, span, denom);
                            r128 = imin(imax(st + q, 0), dest_max);
                        }
                    }
                }
            } else {
                if llen > 0 {
                    let q = ratio_part(progress, rlen, llen);
                    r128 = imin(imax(rbs + q, 0), dest_max);
                } else {
                    let half = ((rlen as u128) / 2) as i128;
                    r128 = imin(imax(rbs + half, 0), dest_max);
                }
            }
            proof {
                assert(r128 as int == map_step_inside(c, gpos, ghv, gmax));
            }
            return r128 as i64;
        }

        proof {
            assert(curves@.skip(i as int).drop_first() =~= curves@.skip(i + 1));
            assert((i as int + 1) * 4294967296000 == (i as int) * 4294967296000
                + 4294967296000) by (nonlinear_arith);
        }
        cum = cum + (rlen - llen);
        prev_after = lae;
        i = i + 1;
    }
    proof {
        assert(curves@.skip(n as int) =~= Seq::<ConnectorCurve>::empty());
    }
    let r128 = imin(imax(pos + cum, 0), dest_max);
    r128 as i64
}

/// Maps a scaled scroll position of the right text to the corresponding
/// scaled position of the left text: the mirror of [`map_forward`], applied
/// to the curves with their sides exchanged.
pub fn map_inverse(
    curves: &Vec<ConnectorCurve>,
    right_line: i64,
    left_total_lines: u32,
    half_viewport: i64,
) -> (r: i64)
    requires
        forall|j: int| 0 <= j < curves@.len() ==> curve_wf(#[trigger] curves@[j]),
    ensures
        r as int == map_inverse_spec(
            curves@,
            right_line as int,
            left_total_lines as int,
            half_viewport as int,
        ),
        0 <= r,
        r as int <= row_limit(left_total_lines as int),
{
    let n = curves.len();
    let mut swapped: Vec<ConnectorCurve> = Vec::new();
    let mut i: usize = 0;
    while i < n
        invariant
            n == curves@.len(),
            i <= n,
            swapped@.len() == i,
            forall|j: int| 0 <= j < i ==> #[trigger] swapped@[j] == swap_curve(curves@[j]),
        decreases n - i,
    {
        let c = curves[i];
        swapped.push(
            ConnectorCurve {
                left_start: c.right_start,
                left_end: c.right_end,
                right_start: c.left_start,
                right_end: c.left_end,
                kind: c.kind,
                left_crushed: c.right_crushed,
                right_crushed: c.left_crushed,
                block_index: c.block_index,
                focus_line: c.focus_line,
            },
        );
        i = i + 1;
    }
    proof {
        assert(swapped@ =~= swap_curves(curves@));
        assert forall|j: int| 0 <= j < swapped@.len() implies curve_wf(
            #[trigger] swapped@[j],
        ) by {
            assert(curve_wf(curves@[j]));
        }
    }
    map_forward(&swapped, right_line, left_total_lines, half_viewport)
}

} // verus!

