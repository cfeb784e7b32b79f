use diff_align::{compute_blocks, DiffAlignment, DiffOp, RawHunk, ROW_SCALE};

fn hunk(ls: u32, le: u32, rs: u32, re: u32, op: DiffOp) -> RawHunk {
    RawHunk { left_start: ls, left_end: le, right_start: rs, right_end: re, op }
}

fn sample_alignment() -> DiffAlignment {
    let mut align = DiffAlignment::new(3, 4, true);
    let blocks = compute_blocks(
        &vec![hunk(0, 2, 0, 2, DiffOp::Modify), hunk(22, 24, 22, 26, DiffOp::Modify)],
    )
    .unwrap();
    align.set_diff(blocks, 50, 52);
    align
}

#[test]
fn new_alignment_maps_identically() {
    let align = DiffAlignment::new(3, 4, true);
    assert!(align.curves.is_empty());
    assert_eq!(align.map_left_line_to_right(0, 0), 0);
    assert_eq!(align.visible_regions().len(), 0);
}

#[test]
fn set_diff_replaces_everything_at_once() {
    let mut align = sample_alignment();
    assert_eq!(align.curves.len(), 2);
    assert_eq!(align.visible_regions().len(), 2);
    let blocks = compute_blocks(&vec![hunk(1, 1, 1, 4, DiffOp::Insert)]).unwrap();
    align.set_diff(blocks, 8, 11);
    assert_eq!(align.curves.len(), 1);
    assert!(align.curves[0].left_crushed);
    assert_eq!(align.visible_regions().len(), 0);
}

#[test]
fn mapping_uses_current_totals() {
    let align = sample_alignment();
    // After both blocks the right side is 2 lines ahead.
    assert_eq!(align.map_left_line_to_right(30 * ROW_SCALE, 0), 32 * ROW_SCALE);
    assert_eq!(align.map_right_line_to_left(32 * ROW_SCALE, 0), 30 * ROW_SCALE);
}

#[test]
fn expanding_one_region_keeps_the_other() {
    let mut align = sample_alignment();
    let regions = align.visible_regions();
    assert_eq!(regions.len(), 2);
    align.expand_region(regions[0].region_id);
    let remaining = align.visible_regions();
    assert_eq!(remaining.len(), 1);
    assert_eq!(remaining[0].region_id, regions[1].region_id);
    assert!(align.collapse_unchanged_enabled);
}

#[test]
fn expanding_the_last_region_disables_collapsing() {
    let mut align = sample_alignment();
    let regions = align.visible_regions();
    align.expand_region(regions[0].region_id);
    align.expand_region(regions[1].region_id);
    assert!(!align.collapse_unchanged_enabled);
    assert!(align.expanded_region_ids.is_empty());
    assert_eq!(align.visible_regions().len(), 0);
}

#[test]
fn toggling_collapse_restores_expanded_regions() {
    let mut align = sample_alignment();
    let regions = align.visible_regions();
    align.expand_region(regions[0].region_id);
    assert_eq!(align.visible_regions().len(), 1);
    // Off, then on again: the expanded set is forgotten, everything
    // collapses afresh.
    align.toggle_collapse_unchanged();
    assert_eq!(align.visible_regions().len(), 0);
    align.toggle_collapse_unchanged();
    assert_eq!(align.visible_regions().len(), 2);
}

#[test]
fn set_diff_forgets_expanded_regions() {
    let mut align = sample_alignment();
    let regions = align.visible_regions();
    align.expand_region(regions[0].region_id);
    let blocks = compute_blocks(
        &vec![hunk(0, 2, 0, 2, DiffOp::Modify), hunk(22, 24, 22, 26, DiffOp::Modify)],
    )
    .unwrap();
    align.set_diff(blocks, 50, 52);
    assert_eq!(align.visible_regions().len(), 2);
}
