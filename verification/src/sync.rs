//! The scroll sync controller: a small state machine on top of the mapper
//! that keeps two panes following each other without feedback loops.
//!
//! A scroll observed on one side while `Idle` records a pending request for
//! the other side; requests are coalesced per direction, keeping only the
//! most recent. Taking the pending writes computes each target through the
//! mapper, skips a write whose target already equals the stored position,
//! and enters `Syncing` while the host applies the writes: scroll events
//! observed in that state are the echoes of the programmatic writes and are
//! dropped, which is what prevents infinite ping-pong between the sides.

use vstd::prelude::*;

use crate::collapse::Side;
use crate::curves::{curve_wf, ConnectorCurve};
use crate::mapping::{map_forward, map_forward_spec, map_inverse, map_inverse_spec};

verus! {

/// Whether the controller is between programmatic writes (`Idle`) or in the
/// middle of applying them (`Syncing`).
#[derive(Clone, Copy, Debug, PartialEq, Eq, Structural)]
pub enum SyncState {
    Idle,
    Syncing,
}

/// One programmatic scroll write the host must apply: set the target side's
/// scroll position to `target_rows` (scaled rows).
#[derive(Clone, Copy, Debug, PartialEq, Eq, Structural)]
pub struct ScrollWrite {
    pub target: Side,
    pub target_rows: i64,
}

/// The scroll sync controller's state: the sync flag, the coalesced pending
/// request per direction, and the last known scroll position of each side
/// (scaled rows).
pub struct SyncController {
    pub state: SyncState,
    pub pending_from_left: Option<i64>,
    pub pending_from_right: Option<i64>,
    pub left_rows: i64,
    pub right_rows: i64,
}

/// The writes due for one pending request: the source rows mapped to the
/// target side, unless the target already sits at that position (then the
/// write is skipped entirely, avoiding a notification storm).
pub open spec fn direction_writes(
    pending: Option<i64>,
    mapped: int,
    current_target_rows: int,
    target: Side,
) -> Seq<ScrollWrite> {
    match pending {
        Some(_) => {
            if mapped != current_target_rows {
                seq![(ScrollWrite { target, target_rows: mapped as i64 })]
            } else {
                Seq::empty()
            }
        },
        None => Seq::empty(),
    }
}

impl SyncController {
    /// A fresh controller: idle, with no pending requests and both sides at
    /// row 0.
    pub fn new() -> (r: SyncController)
        ensures
            r.state == SyncState::Idle,
            r.pending_from_left is None,
            r.pending_from_right is None,
            r.left_rows == 0,
            r.right_rows == 0,
    {
        SyncController {
            state: SyncState::Idle,
            pending_from_left: None,
            pending_from_right: None,
            left_rows: 0,
            right_rows: 0,
        }
    }

    /// Reacts to an externally observed scroll position (scaled rows) on one
    /// side.
    ///
    /// While `Syncing` the event is the echo of a programmatic write and is
    /// dropped. While `Idle`, an unchanged position is skipped; a changed one
    /// is recorded and becomes that direction's pending request, replacing
    /// any older one (requests are coalesced). Returns whether the event was
    /// accepted.
    pub fn observe_scroll(&mut self, side: Side, rows: i64) -> (accepted: bool)
        ensures
            old(self).state == SyncState::Syncing ==> !accepted && *final(self) == *old(self),
            old(self).state == SyncState::Idle && side == Side::Left ==> {
                if rows == old(self).left_rows {
                    !accepted && *final(self) == *old(self)
                } else {
                    accepted && *final(self) == (SyncController {
                        left_rows: rows,
                        pending_from_left: Some(rows),
                        ..*old(self)
                    })
                }
            },
            old(self).state == SyncState::Idle && side == Side::Right ==> {
                if rows == old(self).right_rows {
                    !accepted && *final(self) == *old(self)
                } else {
                    accepted && *final(self) == (SyncController {
                        right_rows: rows,
                        pending_from_right: Some(rows),
                        ..*old(self)
                    })
                }
            },
    {
        match self.state {
            SyncState::Syncing => false,
            SyncState::Idle => {
                match side {
                    Side::Left => {
                        if rows == self.left_rows {
                            false
                        } else {
                            self.left_rows = rows;
                            self.pending_from_left = Some(rows);
                            true
                        }
                    },
                    Side::Right => {
                        if rows == self.right_rows {
                            false
                        } else {
                            self.right_rows = rows;
                            self.pending_from_right = Some(rows);
                            true
                        }
                    },
                }
            },
        }
    }

    /// Resolves the pending requests into the programmatic writes the host
    /// must apply, through the mapper over the given curves.
    ///
    /// Each direction's most recent request is mapped to the other side
    /// (`half_viewport_left` / `half_viewport_right` are half the respective
    /// destination pane's visible rows, scaled); a write whose target equals
    /// the stored position is skipped. If both directions are pending, both
    /// writes are produced — they target different sides and do not
    /// conflict. The stored positions follow the writes, the pending
    /// requests are cleared, and the controller is `Syncing` exactly while
    /// there is a write to apply; the host reports back with
    /// [`SyncController::writes_applied`].
    pub fn take_pending_writes(
        &mut self,
        curves: &Vec<ConnectorCurve>,
        left_total_lines: u32,
        right_total_lines: u32,
        half_viewport_left: i64,
        half_viewport_right: i64,
    ) -> (writes: Vec<ScrollWrite>)
        requires
            old(self).state == SyncState::Idle,
            forall|j: int| 0 <= j < curves@.len() ==> curve_wf(#[trigger] curves@[j]),
        ensures
            ({
                let fwd = map_forward_spec(
                    curves@,
                    old(self).pending_from_left->Some_0 as int,
                    right_total_lines as int,
                    half_viewport_right as int,
                );
                let inv = map_inverse_spec(
                    curves@,
                    old(self).pending_from_right->Some_0 as int,
                    left_total_lines as int,
                    half_viewport_left as int,
                );
                &&& writes@ == direction_writes(
                    old(self).pending_from_left,
                    fwd,
                    old(self).right_rows as int,
                    Side::Right,
                ) + direction_writes(
                    old(self).pending_from_right,
                    inv,
                    old(self).left_rows as int,
                    Side::Left,
                )
                &&& final(self).right_rows as int == (match old(self).pending_from_left {
                    Some(_) => fwd,
                    None => old(self).right_rows as int,
                })
                &&& final(self).left_rows as int == (match old(self).pending_from_right {
                    Some(_) => inv,
                    None => old(self).left_rows as int,
                })
            }),
            final(self).pending_from_left is None,
            final(self).pending_from_right is None,
            final(self).state == (if writes@.len() > 0 {
                SyncState::Syncing
            } else {
                SyncState::Idle
            }),
    {
        let mut writes: Vec<ScrollWrite> = Vec::new();
        if let Some(rows) = self.pending_from_left {
            let target = map_forward(curves, rows, right_total_lines, half_viewport_right);
            if target != self.right_rows {
                writes.push(ScrollWrite { target: Side::Right, target_rows: target });
            }
            self.right_rows = target;
        }
        let ghost after_fwd = writes@;
        if let Some(rows) = self.pending_from_right {
            let target = map_inverse(curves, rows, left_total_lines, half_viewport_left);
            if target != self.left_rows {
                writes.push(ScrollWrite { target: Side::Left, target_rows: target });
            }
            self.left_rows = target;
        }
        self.pending_from_left = None;
        self.pending_from_right = None;
        if writes.len() > 0 {
            self.state = SyncState::Syncing;
        }
        proof {
            let fwd_writes = direction_writes(
                old(self).pending_from_left,
                map_forward_spec(
                    curves@,
                    old(self).pending_from_left->Some_0 as int,
                    right_total_lines as int,
                    half_viewport_right as int,
                ),
                old(self).right_rows as int,
                Side::Right,
            );
            let inv_writes = direction_writes(
                old(self).pending_from_right,
                map_inverse_spec(
                    curves@,
                    old(self).pending_from_right->Some_0 as int,
                    left_total_lines as int,
                    half_viewport_left as int,
                ),
                old(self).left_rows as int,
                Side::Left,
            );
            assert(after_fwd =~= fwd_writes);
            assert(writes@ =~= fwd_writes + inv_writes);
        }
        writes
    }

    /// The host reports that every write of the last
    /// [`SyncController::take_pending_writes`] completed: the controller
    /// returns to `Idle` and observes scrolls again.
    pub fn writes_applied(&mut self)
        ensures
            *final(self) == (SyncController { state: SyncState::Idle, ..*old(self) }),
    {
        self.state = SyncState::Idle;
    }
}

} // verus!
