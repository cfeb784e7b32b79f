//! The top-level alignment state for one left/right document pair: the
//! current diff blocks, their connector curves, the collapse policy and the
//! set of explicitly re-expanded regions.
//!
//! A diff recomputation replaces blocks and curves atomically through
//! [`DiffAlignment::set_diff`]; partially updated state is never observable.

use vstd::prelude::*;

use crate::blocks::{blocks_wf, DiffBlock};
use crate::collapse::{
    plan_collapsed_regions, regions_meet_threshold, regions_spec, regions_wf, suppress_expanded,
    CollapsedRegion,
};
use crate::curves::{
    build_connector_curves, curves_spec, lemma_curves_spec_wf, ConnectorCurve,
};
use crate::mapping::{map_forward, map_forward_spec, map_inverse, map_inverse_spec};

verus! {

/// The alignment state owned by the view controller of one document pair.
pub struct DiffAlignment {
    pub blocks: Vec<DiffBlock>,
    pub curves: Vec<ConnectorCurve>,
    pub left_total_lines: u32,
    pub right_total_lines: u32,
    pub context_lines: u32,
    pub min_collapse_threshold: u32,
    pub collapse_unchanged_enabled: bool,
    pub expanded_region_ids: Vec<u32>,
}

impl DiffAlignment {
    /// Well-formedness: the blocks satisfy the diff block invariants and the
    /// curves are exactly the ones built from them.
    pub open spec fn wf(self) -> bool {
        &&& blocks_wf(self.blocks@)
        &&& self.curves@ == curves_spec(self.blocks@)
        &&& self.context_lines <= 0x10000
        &&& self.min_collapse_threshold <= 0x10000
    }

    /// The regions the consuming layer materializes: the planned regions
    /// with the explicitly re-expanded ones suppressed, or none at all while
    /// collapsing is disabled.
    pub open spec fn visible_regions_spec(self) -> Seq<CollapsedRegion> {
        if self.collapse_unchanged_enabled {
            suppress_expanded(
                regions_spec(
                    self.blocks@,
                    self.left_total_lines as int,
                    self.right_total_lines as int,
                    self.context_lines as int,
                    self.min_collapse_threshold as int,
                ),
                self.expanded_region_ids@,
            )
        } else {
            Seq::empty()
        }
    }

    /// A fresh alignment with no diff: no blocks, no curves, one line per
    /// side, and no regions expanded.
    pub fn new(context_lines: u32, min_collapse_threshold: u32, collapse_unchanged_enabled: bool)
        -> (r: DiffAlignment)
        requires
            context_lines <= 0x10000,
            min_collapse_threshold <= 0x10000,
        ensures
            r.wf(),
            r.blocks@ == Seq::<DiffBlock>::empty(),
            r.curves@ == Seq::<ConnectorCurve>::empty(),
            r.left_total_lines == 1,
            r.right_total_lines == 1,
            r.context_lines == context_lines,
            r.min_collapse_threshold == min_collapse_threshold,
            r.collapse_unchanged_enabled == collapse_unchanged_enabled,
            r.expanded_region_ids@ == Seq::<u32>::empty(),
    {
        let r = DiffAlignment {
            blocks: Vec::new(),
            curves: Vec::new(),
            left_total_lines: 1,
            right_total_lines: 1,
            context_lines,
            min_collapse_threshold,
            collapse_unchanged_enabled,
            expanded_region_ids: Vec::new(),
        };
        proof {
            assert(curves_spec(r.blocks@) =~= Seq::<ConnectorCurve>::empty());
        }
        r
    }

    /// Replaces the whole diff at once: new blocks, freshly built curves,
    /// new totals. The explicitly expanded regions belong to the previous
    /// diff and are forgotten; the collapse policy is kept.
    pub fn set_diff(
        &mut self,
        blocks: Vec<DiffBlock>,
        left_total_lines: u32,
        right_total_lines: u32,
    )
        requires
            blocks_wf(blocks@),
            old(self).wf(),
        ensures
            final(self).wf(),
            final(self).blocks@ == blocks@,
            final(self).curves@ == curves_spec(blocks@),
            final(self).left_total_lines == left_total_lines,
            final(self).right_total_lines == right_total_lines,
            final(self).expanded_region_ids@ == Seq::<u32>::empty(),
            final(self).context_lines == old(self).context_lines,
            final(self).min_collapse_threshold == old(self).min_collapse_threshold,
            final(self).collapse_unchanged_enabled == old(self).collapse_unchanged_enabled,
    {
        self.curves = build_connector_curves(&blocks);
        self.blocks = blocks;
        self.left_total_lines = left_total_lines;
        self.right_total_lines = right_total_lines;
        self.expanded_region_ids = Vec::new();
    }

    /// The currently visible collapsed regions: the plan for the current
    /// diff, minus the explicitly expanded ones; empty while collapsing is
    /// disabled. The result never overlaps on either side and every region
    /// hides at least the collapse threshold of lines.
    pub fn visible_regions(&self) -> (r: Vec<CollapsedRegion>)
        requires
            self.wf(),
        ensures
            r@ == self.visible_regions_spec(),
            regions_wf(r@),
            regions_meet_threshold(r@, self.min_collapse_threshold as int),
    {
        if self.collapse_unchanged_enabled {
            plan_collapsed_regions(
                &self.blocks,
                self.left_total_lines,
                self.right_total_lines,
                self.context_lines,
                self.min_collapse_threshold,
                &self.expanded_region_ids,
            )
        } else {
            Vec::new()
        }
    }

    /// Marks one region, by its stable id, as explicitly expanded: it stays
    /// out of every future collapse pass for the lifetime of this diff. If
    /// that leaves nothing collapsed, collapsing switches itself off, which
    /// also forgets the expanded set.
    pub fn expand_region(&mut self, region_id: u32)
        requires
            old(self).wf(),
        ensures
            final(self).wf(),
            ({
                let grown = old(self).expanded_region_ids@.push(region_id);
                let still = suppress_expanded(
                    regions_spec(
                        old(self).blocks@,
                        old(self).left_total_lines as int,
                        old(self).right_total_lines as int,
                        old(self).context_lines as int,
                        old(self).min_collapse_threshold as int,
                    ),
                    grown,
                );
                if old(self).collapse_unchanged_enabled && still.len() == 0 {
                    &&& !final(self).collapse_unchanged_enabled
                    &&& final(self).expanded_region_ids@ == Seq::<u32>::empty()
                } else {
                    &&& final(self).collapse_unchanged_enabled
                        == old(self).collapse_unchanged_enabled
                    &&& final(self).expanded_region_ids@ == grown
                }
            }),
            final(self).blocks == old(self).blocks,
            final(self).curves == old(self).curves,
            final(self).left_total_lines == old(self).left_total_lines,
            final(self).right_total_lines == old(self).right_total_lines,
            final(self).context_lines == old(self).context_lines,
            final(self).min_collapse_threshold == old(self).min_collapse_threshold,
    {
        self.expanded_region_ids.push(region_id);
        let remaining = self.visible_regions();
        if self.collapse_unchanged_enabled && remaining.len() == 0 {
            self.set_collapse_unchanged(false);
        }
    }

    /// Turns collapsing of unchanged regions on or off. Either way the
    /// explicitly expanded set is cleared: re-enabling starts from a full
    /// collapse pass again.
    pub fn set_collapse_unchanged(&mut self, enabled: bool)
        requires
            old(self).wf(),
        ensures
            final(self).wf(),
            *final(self) == (DiffAlignment {
                collapse_unchanged_enabled: enabled,
                expanded_region_ids: final(self).expanded_region_ids,
                ..*old(self)
            }),
            final(self).expanded_region_ids@ == Seq::<u32>::empty(),
    {
        self.collapse_unchanged_enabled = enabled;
        self.expanded_region_ids = Vec::new();
    }

    /// Flips the collapse-unchanged flag, clearing the expanded set.
    pub fn toggle_collapse_unchanged(&mut self)
        requires
            old(self).wf(),
        ensures
            final(self).wf(),
            *final(self) == (DiffAlignment {
                collapse_unchanged_enabled: !old(self).collapse_unchanged_enabled,
                expanded_region_ids: final(self).expanded_region_ids,
                ..*old(self)
            }),
            final(self).expanded_region_ids@ == Seq::<u32>::empty(),
    {
        let enabled = self.collapse_unchanged_enabled;
        self.set_collapse_unchanged(!enabled);
    }

    /// Maps a scaled scroll row of the left text to the corresponding row of
    /// the right text, using the current curves.
    pub fn map_left_line_to_right(&self, left_line: i64, half_viewport: i64) -> (r: i64)
        requires
            self.wf(),
        ensures
            r as int == map_forward_spec(
                self.curves@,
                left_line as int,
                self.right_total_lines as int,
                half_viewport as int,
            ),
            0 <= r,
            r as int <= crate::mapping::row_limit(self.right_total_lines as int),
    {
        proof {
            lemma_curves_spec_wf(self.blocks@);
        }
        map_forward(&self.curves, left_line, self.right_total_lines, half_viewport)
    }

    /// Maps a scaled scroll row of the right text to the corresponding row
    /// of the left text, using the current curves.
    pub fn map_right_line_to_left(&self, right_line: i64, half_viewport: i64) -> (r: i64)
        requires
            self.wf(),
        ensures
            r as int == map_inverse_spec(
                self.curves@,
                right_line as int,
                self.left_total_lines as int,
                half_viewport as int,
            ),
            0 <= r,
            r as int <= crate::mapping::row_limit(self.left_total_lines as int),
    {
        proof {
            lemma_curves_spec_wf(self.blocks@);
        }
        map_inverse(&self.curves, right_line, self.left_total_lines, half_viewport)
    }
}

} // verus!
