use diff_align::{build_connector_curves, compute_blocks, ConnectorKind, DiffOp, RawHunk};

fn hunk(ls: u32, le: u32, rs: u32, re: u32, op: DiffOp) -> RawHunk {
    RawHunk { left_start: ls, left_end: le, right_start: rs, right_end: re, op }
}

#[test]
fn modify_block_keeps_inclusive_bounds() {
    let blocks = compute_blocks(&vec![hunk(2, 5, 2, 8, DiffOp::Modify)]).unwrap();
    let curves = build_connector_curves(&blocks);
    assert_eq!(curves.len(), 1);
    let c = &curves[0];
    assert_eq!(c.kind, ConnectorKind::Modify);
    assert!(!c.left_crushed && !c.right_crushed);
    assert_eq!((c.left_start, c.left_end), (2, 4));
    assert_eq!((c.right_start, c.right_end), (2, 7));
    assert_eq!(c.block_index, 0);
}

#[test]
fn crushed_sides_collapse_to_start_line() {
    let blocks = compute_blocks(
        &vec![hunk(1, 1, 1, 3, DiffOp::Insert), hunk(4, 6, 6, 6, DiffOp::Delete)],
    )
    .unwrap();
    let curves = build_connector_curves(&blocks);
    assert_eq!(curves.len(), 2);
    assert!(curves[0].left_crushed && !curves[0].right_crushed);
    assert_eq!((curves[0].left_start, curves[0].left_end), (1, 1));
    assert!(curves[1].right_crushed && !curves[1].left_crushed);
    assert_eq!((curves[1].right_start, curves[1].right_end), (6, 6));
}

#[test]
fn degenerate_block_is_dropped() {
    let blocks = compute_blocks(&vec![hunk(1, 1, 1, 1, DiffOp::Insert)]).unwrap();
    let curves = build_connector_curves(&blocks);
    assert!(curves.is_empty());
}

#[test]
fn focus_line_discounts_prior_insertions() {
    // First block inserts two lines on the right; the second insertion's
    // anchor on the left must discount them to stay in left coordinates.
    let blocks = compute_blocks(
        &vec![hunk(1, 1, 1, 3, DiffOp::Insert), hunk(5, 5, 7, 9, DiffOp::Insert)],
    )
    .unwrap();
    let curves = build_connector_curves(&blocks);
    assert_eq!(curves[0].focus_line, 1);
    assert_eq!(curves[1].focus_line, 7 - 2);
}

#[test]
fn focus_line_discounts_prior_deletions() {
    let blocks = compute_blocks(
        &vec![hunk(1, 4, 1, 1, DiffOp::Delete), hunk(6, 8, 3, 3, DiffOp::Delete)],
    )
    .unwrap();
    let curves = build_connector_curves(&blocks);
    assert_eq!(curves[0].focus_line, 1);
    assert_eq!(curves[1].focus_line, 6 - 3);
}

#[test]
fn curve_order_follows_block_order() {
    let blocks = compute_blocks(
        &vec![
            hunk(0, 1, 0, 1, DiffOp::Modify),
            hunk(3, 3, 3, 5, DiffOp::Insert),
            hunk(7, 9, 9, 9, DiffOp::Delete),
        ],
    )
    .unwrap();
    let curves = build_connector_curves(&blocks);
    assert_eq!(curves.len(), 3);
    for i in 1..curves.len() {
        assert!(curves[i - 1].left_start <= curves[i].left_start);
        assert!(curves[i - 1].right_start <= curves[i].right_start);
    }
    assert_eq!(curves[1].block_index, 1);
    assert_eq!(curves[2].block_index, 2);
}

#[test]
fn building_twice_yields_identical_output() {
    let blocks = compute_blocks(
        &vec![
            hunk(0, 1, 0, 1, DiffOp::Modify),
            hunk(3, 3, 3, 5, DiffOp::Insert),
            hunk(7, 9, 9, 9, DiffOp::Delete),
        ],
    )
    .unwrap();
    let first = build_connector_curves(&blocks);
    let second = build_connector_curves(&blocks);
    assert_eq!(first, second);
}
