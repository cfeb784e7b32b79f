use diff_align::{
    calc_collapsed_offset, compute_blocks, plan_collapsed_regions, DiffOp, RawHunk, Side,
    ROW_SCALE,
};

fn hunk(ls: u32, le: u32, rs: u32, re: u32, op: DiffOp) -> RawHunk {
    RawHunk { left_start: ls, left_end: le, right_start: rs, right_end: re, op }
}

#[test]
fn no_blocks_collapses_whole_file_gap() {
    let blocks = compute_blocks(&Vec::new()).unwrap();
    let regions = plan_collapsed_regions(&blocks, 30, 30, 3, 4, &Vec::new());
    assert_eq!(regions.len(), 1);
    assert_eq!(regions[0].left_start, 3);
    assert_eq!(regions[0].left_end, 27);
    assert_eq!(regions[0].line_count, 24);
    assert_eq!(regions[0].region_id, 3);
}

#[test]
fn line_count_takes_shorter_side() {
    // The gap after the block is 20 lines on the left but 30 on the right.
    let blocks = compute_blocks(&vec![hunk(0, 2, 0, 2, DiffOp::Modify)]).unwrap();
    let regions = plan_collapsed_regions(&blocks, 22, 32, 3, 4, &Vec::new());
    assert_eq!(regions.len(), 1);
    let r = &regions[0];
    assert_eq!(r.left_end - r.left_start, 14);
    assert_eq!(r.right_end - r.right_start, 24);
    assert_eq!(r.line_count, 14);
}

#[test]
fn expanded_region_is_suppressed() {
    let blocks = compute_blocks(
        &vec![hunk(0, 2, 0, 2, DiffOp::Modify), hunk(22, 24, 22, 24, DiffOp::Modify)],
    )
    .unwrap();
    let all = plan_collapsed_regions(&blocks, 44, 44, 3, 4, &Vec::new());
    assert_eq!(all.len(), 2);
    let expanded = vec![all[0].region_id];
    let remaining = plan_collapsed_regions(&blocks, 44, 44, 3, 4, &expanded);
    assert_eq!(remaining.len(), 1);
    assert_eq!(remaining[0].region_id, all[1].region_id);
}

#[test]
fn regions_never_overlap() {
    let blocks = compute_blocks(
        &vec![
            hunk(15, 16, 15, 16, DiffOp::Modify),
            hunk(40, 42, 40, 42, DiffOp::Modify),
            hunk(70, 70, 70, 75, DiffOp::Insert),
        ],
    )
    .unwrap();
    let regions = plan_collapsed_regions(&blocks, 120, 125, 3, 4, &Vec::new());
    assert!(regions.len() >= 2);
    for w in regions.windows(2) {
        assert!(w[0].left_end <= w[1].left_start);
        assert!(w[0].right_end <= w[1].right_start);
    }
    for r in &regions {
        assert!(r.left_end - r.left_start >= 4);
        assert!(r.right_end - r.right_start >= 4);
        assert!(r.line_count >= 4);
    }
}

#[test]
fn gap_exactly_at_threshold_collapses() {
    // 2 * 3 context + 4 threshold = 10 unchanged lines: just enough.
    let blocks = compute_blocks(&vec![hunk(10, 12, 10, 12, DiffOp::Modify)]).unwrap();
    let regions = plan_collapsed_regions(&blocks, 10, 10, 3, 4, &Vec::new());
    assert_eq!(regions.len(), 1);
    assert_eq!(regions[0].left_start, 3);
    assert_eq!(regions[0].left_end, 7);
    assert_eq!(regions[0].line_count, 4);
}

#[test]
fn collapsed_offset_counts_hidden_rows_above() {
    let blocks = compute_blocks(&Vec::new()).unwrap();
    let regions = plan_collapsed_regions(&blocks, 30, 30, 3, 4, &Vec::new());
    // One region [3, 27): 24 lines replaced by one placeholder row.
    assert_eq!(calc_collapsed_offset(&regions, Side::Left, 2 * ROW_SCALE), 0);
    assert_eq!(calc_collapsed_offset(&regions, Side::Left, 26 * ROW_SCALE), 0);
    assert_eq!(calc_collapsed_offset(&regions, Side::Left, 27 * ROW_SCALE), 23);
    assert_eq!(calc_collapsed_offset(&regions, Side::Right, 29 * ROW_SCALE), 23);
}
