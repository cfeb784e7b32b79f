use diff_align::{
    build_connector_curves, compute_blocks, map_forward, map_inverse, plan_collapsed_regions,
    DiffOp, RawHunk, ROW_SCALE,
};

fn hunk(ls: u32, le: u32, rs: u32, re: u32, op: DiffOp) -> RawHunk {
    RawHunk { left_start: ls, left_end: le, right_start: rs, right_end: re, op }
}

#[test]
fn scenario_empty_diff_identity() {
    let curves = Vec::new();
    assert_eq!(map_forward(&curves, 5 * ROW_SCALE, 10, 0), 5 * ROW_SCALE);
    assert_eq!(map_inverse(&curves, 5 * ROW_SCALE, 10, 0), 5 * ROW_SCALE);
}

#[test]
fn scenario_modify_block_left_shorter() {
    let blocks = compute_blocks(&vec![hunk(2, 5, 2, 8, DiffOp::Modify)]).unwrap();
    let curves = build_connector_curves(&blocks);
    // At the block start both sides are aligned.
    assert_eq!(map_forward(&curves, 2 * ROW_SCALE, 8, 0), 2 * ROW_SCALE);
    // Just before the block's end, proportional interpolation alone gives
    // 2 + (2.999 / 3) * 6 = 7.998; with the right text 8 lines long the
    // clamp to its last row caps the result at 7.
    let near_end: i64 = 4 * ROW_SCALE + 999;
    let mapped = map_forward(&curves, near_end, 8, 0);
    assert!(mapped <= 7 * ROW_SCALE);
    assert_eq!(mapped, 7 * ROW_SCALE);
    // With a longer right text the uncapped interpolation value shows.
    assert_eq!(map_forward(&curves, near_end, 20, 0), 7 * ROW_SCALE + 998);
}

#[test]
fn scenario_delete_block_right_crushed() {
    let blocks = compute_blocks(&vec![hunk(3, 6, 3, 3, DiffOp::Delete)]).unwrap();
    let curves = build_connector_curves(&blocks);
    assert!(curves[0].right_crushed);
    // Forward from the block start clamps near right row 3 (the right text
    // has 3 lines, so row 2 is its last).
    assert_eq!(map_forward(&curves, 3 * ROW_SCALE, 3, 0), 2 * ROW_SCALE);
    // Inverse from the crushed point resolves to a row inside [3, 6).
    let back = map_inverse(&curves, 3 * ROW_SCALE, 6, 0);
    assert!(3 * ROW_SCALE <= back && back < 6 * ROW_SCALE);
    assert_eq!(back, 5 * ROW_SCALE);
}

#[test]
fn scenario_gap_of_twenty_collapses() {
    let blocks = compute_blocks(
        &vec![hunk(0, 2, 0, 2, DiffOp::Modify), hunk(22, 24, 22, 24, DiffOp::Modify)],
    )
    .unwrap();
    let regions = plan_collapsed_regions(&blocks, 24, 24, 3, 4, &Vec::new());
    assert_eq!(regions.len(), 1);
    let r = &regions[0];
    assert_eq!(r.left_start, 2 + 3);
    assert_eq!(r.left_end, 22 - 3);
    assert_eq!(r.right_start, 2 + 3);
    assert_eq!(r.right_end, 22 - 3);
    assert_eq!(r.line_count, 14);
}

#[test]
fn scenario_gap_of_six_stays_open() {
    let blocks = compute_blocks(
        &vec![hunk(0, 2, 0, 2, DiffOp::Modify), hunk(8, 10, 8, 10, DiffOp::Modify)],
    )
    .unwrap();
    let regions = plan_collapsed_regions(&blocks, 10, 10, 3, 4, &Vec::new());
    assert_eq!(regions.len(), 0);
}
