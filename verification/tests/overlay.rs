use diff_align::overlay::{crushed_indicator_rows, highlight_spans};
use diff_align::{
    build_connector_curves, compute_blocks, plan_collapsed_regions, DiffOp, RawHunk, Side,
    ROW_SCALE,
};

fn hunk(ls: u32, le: u32, rs: u32, re: u32, op: DiffOp) -> RawHunk {
    RawHunk { left_start: ls, left_end: le, right_start: rs, right_end: re, op }
}

#[test]
fn each_operation_highlights_its_side() {
    let blocks = compute_blocks(
        &vec![
            hunk(0, 2, 0, 0, DiffOp::Delete),
            hunk(5, 5, 3, 6, DiffOp::Insert),
            hunk(8, 10, 9, 12, DiffOp::Modify),
        ],
    )
    .unwrap();
    let spans = highlight_spans(&blocks);
    assert_eq!(spans.len(), 4);
    assert_eq!(spans[0].side, Side::Left);
    assert_eq!((spans[0].start_row, spans[0].end_row), (0, 1));
    assert_eq!(spans[1].side, Side::Right);
    assert_eq!((spans[1].start_row, spans[1].end_row), (3, 5));
    // A modification paints both sides.
    assert_eq!(spans[2].side, Side::Left);
    assert_eq!((spans[2].start_row, spans[2].end_row), (8, 9));
    assert_eq!(spans[3].side, Side::Right);
    assert_eq!((spans[3].start_row, spans[3].end_row), (9, 11));
    assert_eq!(spans[2].op, DiffOp::Modify);
}

#[test]
fn degenerate_block_highlights_nothing() {
    let blocks = compute_blocks(&vec![hunk(1, 1, 1, 1, DiffOp::Insert)]).unwrap();
    assert_eq!(highlight_spans(&blocks).len(), 0);
}

#[test]
fn crushed_indicators_shift_by_prior_deletions() {
    // A deletion of 3 left lines, then a pure insertion anchored after it:
    // on the left pane the indicator moves down past the deleted lines.
    let blocks = compute_blocks(
        &vec![hunk(1, 4, 1, 1, DiffOp::Delete), hunk(10, 10, 7, 9, DiffOp::Insert)],
    )
    .unwrap();
    let curves = build_connector_curves(&blocks);
    let regions = Vec::new();
    let left = crushed_indicator_rows(&curves, &regions, Side::Left);
    assert_eq!(left.len(), 1);
    assert_eq!(left[0].block_index, 1);
    // Focus line 7 in left coordinates, shifted down by the 3 deleted lines.
    assert_eq!(left[0].row, 10 * ROW_SCALE);
    let right = crushed_indicator_rows(&curves, &regions, Side::Right);
    assert_eq!(right.len(), 1);
    assert_eq!(right[0].block_index, 0);
    assert_eq!(right[0].row, 1 * ROW_SCALE);
}

#[test]
fn crushed_indicators_discount_collapsed_rows() {
    // A long unchanged run before a pure insertion: once that run is
    // collapsed to a single placeholder row, the indicator moves up by the
    // hidden rows.
    let blocks = compute_blocks(&vec![hunk(40, 40, 40, 43, DiffOp::Insert)]).unwrap();
    let curves = build_connector_curves(&blocks);
    let regions = plan_collapsed_regions(&blocks, 60, 63, 3, 4, &Vec::new());
    assert!(regions.len() >= 1);
    // Rows [3, 37) are hidden: 34 lines shown as one placeholder row.
    assert_eq!(regions[0].left_start, 3);
    assert_eq!(regions[0].left_end, 37);
    let left = crushed_indicator_rows(&curves, &regions, Side::Left);
    assert_eq!(left.len(), 1);
    assert_eq!(left[0].row, (40 - 33) * ROW_SCALE);
}
