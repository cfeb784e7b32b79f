use diff_align::{
    compute_blocks, count_lines, BlockError, DiffBlock, DiffOp, RawHunk,
};
use diff_align::blocks::{revert_action, RevertAction};

fn hunk(ls: u32, le: u32, rs: u32, re: u32, op: DiffOp) -> RawHunk {
    RawHunk { left_start: ls, left_end: le, right_start: rs, right_end: re, op }
}

#[test]
fn accepts_ordered_valid_hunks() {
    let hunks = vec![
        hunk(0, 1, 0, 0, DiffOp::Delete),
        hunk(3, 3, 2, 4, DiffOp::Insert),
        hunk(5, 7, 6, 9, DiffOp::Modify),
    ];
    let blocks = compute_blocks(&hunks).unwrap();
    assert_eq!(blocks.len(), 3);
    assert_eq!(blocks[2].left_start, 5);
    assert_eq!(blocks[2].right_end, 9);
    assert_eq!(blocks[0].op, DiffOp::Delete);
}

#[test]
fn accepts_empty_hunk_list() {
    let blocks = compute_blocks(&Vec::new()).unwrap();
    assert!(blocks.is_empty());
}

#[test]
fn rejects_inverted_range() {
    let hunks = vec![hunk(5, 3, 0, 1, DiffOp::Modify)];
    assert_eq!(compute_blocks(&hunks), Err(BlockError::InvalidRange));
}

#[test]
fn rejects_operation_mismatch() {
    // An insertion must have an empty left range.
    let hunks = vec![hunk(0, 2, 0, 2, DiffOp::Insert)];
    assert_eq!(compute_blocks(&hunks), Err(BlockError::InvalidOperation));
}

#[test]
fn rejects_out_of_order_hunks() {
    let hunks = vec![
        hunk(5, 7, 5, 7, DiffOp::Modify),
        hunk(0, 2, 0, 2, DiffOp::Modify),
    ];
    assert_eq!(compute_blocks(&hunks), Err(BlockError::OutOfOrder));
}

#[test]
fn invalid_range_reported_before_bad_operation() {
    let hunks = vec![
        hunk(0, 2, 0, 2, DiffOp::Insert),
        hunk(5, 3, 5, 5, DiffOp::Delete),
    ];
    assert_eq!(compute_blocks(&hunks), Err(BlockError::InvalidRange));
}

#[test]
fn count_lines_empty_is_one() {
    assert_eq!(count_lines(b""), 1);
}

#[test]
fn count_lines_counts_newline_separated_segments() {
    assert_eq!(count_lines(b"alpha"), 1);
    assert_eq!(count_lines(b"alpha\nbeta"), 2);
    assert_eq!(count_lines(b"alpha\nbeta\n"), 3);
    assert_eq!(count_lines(b"\n\n"), 3);
}

#[test]
fn revert_modify_replaces_right_range() {
    let b = DiffBlock { left_start: 2, left_end: 5, right_start: 2, right_end: 8, op: DiffOp::Modify };
    assert_eq!(
        revert_action(&b),
        RevertAction::ReplaceRight { left_start: 2, left_end: 5, right_start: 2, right_end: 8 }
    );
}

#[test]
fn revert_delete_with_empty_right_inserts_below() {
    let b = DiffBlock { left_start: 3, left_end: 6, right_start: 3, right_end: 3, op: DiffOp::Delete };
    assert_eq!(
        revert_action(&b),
        RevertAction::InsertRight { left_start: 3, left_end: 6, right_line: 4 }
    );
}

#[test]
fn revert_insert_deletes_right_range() {
    let b = DiffBlock { left_start: 3, left_end: 3, right_start: 2, right_end: 4, op: DiffOp::Insert };
    assert_eq!(revert_action(&b), RevertAction::DeleteRight { right_start: 2, right_end: 4 });
}

#[test]
fn revert_degenerate_block_keeps_everything() {
    let b = DiffBlock { left_start: 3, left_end: 3, right_start: 3, right_end: 3, op: DiffOp::Insert };
    assert_eq!(revert_action(&b), RevertAction::Keep);
}
