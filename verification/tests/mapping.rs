use diff_align::{
    build_connector_curves, compute_blocks, map_forward, map_inverse, DiffOp, RawHunk, ROW_SCALE,
};

fn hunk(ls: u32, le: u32, rs: u32, re: u32, op: DiffOp) -> RawHunk {
    RawHunk { left_start: ls, left_end: le, right_start: rs, right_end: re, op }
}

#[test]
fn empty_curves_clamp_to_last_line() {
    let curves = Vec::new();
    assert_eq!(map_forward(&curves, 99 * ROW_SCALE, 10, 0), 9 * ROW_SCALE);
    assert_eq!(map_inverse(&curves, 99 * ROW_SCALE, 4, 0), 3 * ROW_SCALE);
    // An empty destination text maps everything to row 0.
    assert_eq!(map_forward(&curves, 5 * ROW_SCALE, 0, 0), 0);
}

#[test]
fn empty_curves_clamp_below_at_zero() {
    // A negative scroll position is clamped up to row 0, like every other
    // out-of-range input: the mapping is advisory and never leaves
    // [0, total - 1].
    let curves = Vec::new();
    assert_eq!(map_forward(&curves, -5 * ROW_SCALE, 10, 0), 0);
    assert_eq!(map_inverse(&curves, -1, 10, 0), 0);
}

#[test]
fn positions_after_all_blocks_shift_by_total_offset() {
    // One block replaces 3 left lines by 6 right lines: +3 after it.
    let blocks = compute_blocks(&vec![hunk(2, 5, 2, 8, DiffOp::Modify)]).unwrap();
    let curves = build_connector_curves(&blocks);
    assert_eq!(map_forward(&curves, 10 * ROW_SCALE, 40, 0), 13 * ROW_SCALE);
    assert_eq!(map_inverse(&curves, 13 * ROW_SCALE, 40, 0), 10 * ROW_SCALE);
}

#[test]
fn positions_before_all_blocks_are_unchanged() {
    let blocks = compute_blocks(&vec![hunk(20, 23, 20, 26, DiffOp::Modify)]).unwrap();
    let curves = build_connector_curves(&blocks);
    assert_eq!(map_forward(&curves, 4 * ROW_SCALE + 500, 40, 0), 4 * ROW_SCALE + 500);
}

#[test]
fn proportional_interpolation_inside_growing_block() {
    // Left rows [2, 5) stretch over right rows [2, 8): halfway maps to halfway.
    let blocks = compute_blocks(&vec![hunk(2, 5, 2, 8, DiffOp::Modify)]).unwrap();
    let curves = build_connector_curves(&blocks);
    let mid_left: i64 = 3 * ROW_SCALE + 500; // progress 1.5 of 3
    assert_eq!(map_forward(&curves, mid_left, 40, 0), 5 * ROW_SCALE); // progress 3.0 of 6
}

#[test]
fn extra_left_lines_pin_at_stationary_position() {
    // Left rows [10, 20) shrink to right rows [10, 12); with a viewport of
    // 4 rows the destination freezes 2 rows short of the block start.
    let blocks = compute_blocks(&vec![hunk(10, 20, 10, 12, DiffOp::Modify)]).unwrap();
    let curves = build_connector_curves(&blocks);
    let hv: i64 = 2 * ROW_SCALE;
    let pinned = map_forward(&curves, 10 * ROW_SCALE + 500, 40, hv);
    assert_eq!(pinned, 8 * ROW_SCALE);
    // Still pinned while progress is below the excess.
    assert_eq!(map_forward(&curves, 15 * ROW_SCALE, 40, hv), 8 * ROW_SCALE);
    // Once the excess is consumed the map catches up toward the block end.
    let late = map_forward(&curves, 19 * ROW_SCALE + 999, 40, hv);
    assert!(late > 8 * ROW_SCALE && late <= 12 * ROW_SCALE);
}

#[test]
fn forward_map_is_monotone_across_mixed_blocks() {
    let blocks = compute_blocks(
        &vec![
            hunk(2, 2, 2, 6, DiffOp::Insert),
            hunk(8, 12, 12, 14, DiffOp::Modify),
            hunk(20, 23, 22, 22, DiffOp::Delete),
        ],
    )
    .unwrap();
    let curves = build_connector_curves(&blocks);
    let mut prev = map_forward(&curves, 0, 40, 0);
    let mut pos: i64 = 0;
    while pos <= 30 * ROW_SCALE {
        let here = map_forward(&curves, pos, 40, 0);
        assert!(here >= prev, "backward jump at {}", pos);
        prev = here;
        pos += 250;
    }
}

#[test]
fn round_trip_is_identity_across_equal_sized_blocks() {
    let blocks = compute_blocks(
        &vec![hunk(2, 4, 2, 4, DiffOp::Modify), hunk(9, 12, 9, 12, DiffOp::Modify)],
    )
    .unwrap();
    let curves = build_connector_curves(&blocks);
    let mut pos: i64 = 0;
    while pos <= 19 * ROW_SCALE {
        let there = map_forward(&curves, pos, 20, 5 * ROW_SCALE);
        let back = map_inverse(&curves, there, 20, 5 * ROW_SCALE);
        assert_eq!(back, pos);
        pos += 333;
    }
}

#[test]
fn crossing_a_pure_insertion_skips_the_inserted_rows() {
    // A pure insertion of 4 right rows at left row 3: positions before it
    // are unchanged, positions at or past it shift down by the insertion.
    let blocks = compute_blocks(&vec![hunk(3, 3, 3, 7, DiffOp::Insert)]).unwrap();
    let curves = build_connector_curves(&blocks);
    assert_eq!(map_forward(&curves, 2 * ROW_SCALE, 20, 0), 2 * ROW_SCALE);
    assert_eq!(map_forward(&curves, 3 * ROW_SCALE, 20, 0), 7 * ROW_SCALE);
}

#[test]
fn mapping_survives_line_numbers_near_the_limit() {
    // Blocks deep inside a text of u32::MAX lines: the fixed-point
    // arithmetic must not wrap.
    let blocks = compute_blocks(
        &vec![hunk(4_000_000_000, 4_000_000_100, 4_000_000_000, 4_000_000_200, DiffOp::Modify)],
    )
    .unwrap();
    let curves = build_connector_curves(&blocks);
    let pos: i64 = 4_000_001_000 * ROW_SCALE;
    assert_eq!(map_forward(&curves, pos, u32::MAX, 0), pos + 100 * ROW_SCALE);
    assert_eq!(map_inverse(&curves, pos + 100 * ROW_SCALE, u32::MAX, 0), pos);
}
