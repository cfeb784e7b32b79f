use diff_align::{
    build_connector_curves, compute_blocks, DiffOp, RawHunk, Side, SyncController, SyncState,
    ROW_SCALE,
};

fn hunk(ls: u32, le: u32, rs: u32, re: u32, op: DiffOp) -> RawHunk {
    RawHunk { left_start: ls, left_end: le, right_start: rs, right_end: re, op }
}

#[test]
fn left_scroll_drives_right_pane() {
    let blocks = compute_blocks(&vec![hunk(2, 5, 2, 8, DiffOp::Modify)]).unwrap();
    let curves = build_connector_curves(&blocks);
    let mut ctl = SyncController::new();
    assert!(ctl.observe_scroll(Side::Left, 10 * ROW_SCALE));
    let writes = ctl.take_pending_writes(&curves, 40, 40, 0, 0);
    assert_eq!(writes.len(), 1);
    assert_eq!(writes[0].target, Side::Right);
    assert_eq!(writes[0].target_rows, 13 * ROW_SCALE);
    assert_eq!(ctl.state, SyncState::Syncing);
    ctl.writes_applied();
    assert_eq!(ctl.state, SyncState::Idle);
    assert_eq!(ctl.right_rows, 13 * ROW_SCALE);
}

#[test]
fn echo_during_sync_is_dropped() {
    let curves = Vec::new();
    let mut ctl = SyncController::new();
    assert!(ctl.observe_scroll(Side::Left, 5 * ROW_SCALE));
    let writes = ctl.take_pending_writes(&curves, 40, 40, 0, 0);
    assert_eq!(writes.len(), 1);
    // The programmatic write to the right pane echoes back as a scroll
    // event while still Syncing: it must be ignored.
    assert!(!ctl.observe_scroll(Side::Right, 5 * ROW_SCALE));
    assert!(ctl.pending_from_right.is_none());
    ctl.writes_applied();
    // After the sync completes, real events are accepted again.
    assert!(ctl.observe_scroll(Side::Right, 7 * ROW_SCALE));
}

#[test]
fn unchanged_position_is_skipped() {
    let mut ctl = SyncController::new();
    assert!(!ctl.observe_scroll(Side::Left, 0));
    assert!(ctl.pending_from_left.is_none());
}

#[test]
fn requests_are_coalesced_per_direction() {
    let curves = Vec::new();
    let mut ctl = SyncController::new();
    assert!(ctl.observe_scroll(Side::Left, 3 * ROW_SCALE));
    assert!(ctl.observe_scroll(Side::Left, 9 * ROW_SCALE));
    let writes = ctl.take_pending_writes(&curves, 40, 40, 0, 0);
    assert_eq!(writes.len(), 1);
    assert_eq!(writes[0].target_rows, 9 * ROW_SCALE);
}

#[test]
fn both_directions_apply_in_one_cycle() {
    let curves = Vec::new();
    let mut ctl = SyncController::new();
    assert!(ctl.observe_scroll(Side::Left, 3 * ROW_SCALE));
    assert!(ctl.observe_scroll(Side::Right, 8 * ROW_SCALE));
    let writes = ctl.take_pending_writes(&curves, 40, 40, 0, 0);
    assert_eq!(writes.len(), 2);
    assert_eq!(writes[0].target, Side::Right);
    assert_eq!(writes[0].target_rows, 3 * ROW_SCALE);
    assert_eq!(writes[1].target, Side::Left);
    assert_eq!(writes[1].target_rows, 8 * ROW_SCALE);
}

#[test]
fn write_matching_current_position_is_skipped() {
    let curves = Vec::new();
    let mut ctl = SyncController::new();
    // Scrolling far past the end clamps the right pane to its last row.
    assert!(ctl.observe_scroll(Side::Left, 99 * ROW_SCALE));
    let writes = ctl.take_pending_writes(&curves, 40, 40, 0, 0);
    assert_eq!(writes.len(), 1);
    assert_eq!(writes[0].target_rows, 39 * ROW_SCALE);
    ctl.writes_applied();
    // Another overscroll maps to the same clamped row: no write, and the
    // controller never enters Syncing.
    assert!(ctl.observe_scroll(Side::Left, 80 * ROW_SCALE));
    let writes = ctl.take_pending_writes(&curves, 40, 40, 0, 0);
    assert_eq!(writes.len(), 0);
    assert_eq!(ctl.state, SyncState::Idle);
}

#[test]
fn negative_scroll_never_produces_a_negative_write() {
    // An overscroll above the top maps to row 0; with the right pane
    // already there, no write is due at all.
    let curves = Vec::new();
    let mut ctl = SyncController::new();
    assert!(ctl.observe_scroll(Side::Left, -5 * ROW_SCALE));
    let writes = ctl.take_pending_writes(&curves, 40, 40, 0, 0);
    assert_eq!(writes.len(), 0);
    assert_eq!(ctl.state, SyncState::Idle);
    assert_eq!(ctl.right_rows, 0);
}
