//! Alignment core for a side-by-side diff view.
//!
//! Two independently edited, line-numbered texts ("left" and "right") have
//! been compared by a line-level diff. This crate turns the resulting change
//! blocks into:
//!
//! - connector curve descriptors, one per non-degenerate block, classifying
//!   each side as crushed (empty) and anchoring crushed sides to a focus line;
//! - a forward and an inverse line mapping that translate a fractional scroll
//!   row in one text into the corresponding row of the other;
//! - a plan of collapsible unchanged regions, synchronized between the sides;
//! - a small scroll-sync state machine that keeps two panes following each
//!   other without feedback loops.
//!
//! Fractional rows are carried as fixed-point integers with
//! [`mapping::ROW_SCALE`] units per row, so that every computation here is
//! exact integer arithmetic.

pub mod blocks;
pub mod collapse;
pub mod curves;
pub mod mapping;
pub mod mapping_laws;
pub mod overlay;
pub mod state;
pub mod sync;

pub use blocks::{compute_blocks, count_lines, revert_action, BlockError, DiffBlock, DiffOp, RawHunk, RevertAction};
pub use collapse::{calc_collapsed_offset, plan_collapsed_regions, CollapsedRegion, Side, CONTEXT_LINES, MINIMUM_COLLAPSE_THRESHOLD};
pub use curves::{build_connector_curves, ConnectorCurve, ConnectorKind};
pub use mapping::{map_forward, map_inverse, ROW_SCALE};
pub use overlay::{crushed_indicator_rows, highlight_spans, CrushedIndicator, HighlightSpan};
pub use state::DiffAlignment;
pub use sync::{ScrollWrite, SyncController, SyncState};
