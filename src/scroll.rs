//! Edge detection for scroll positions: the host computes, from its scroll
//! offsets, whether the view is at the top or at the bottom, and raises a
//! position change only on the transitions that matter.

use vstd::prelude::*;

verus! {

/// What the host last reported about the scroll position.
#[derive(Clone, Copy, Debug, PartialEq, Eq, Structural)]
pub struct ScrollEdges {
    /// The view was at the top.
    pub was_at_top: bool,
    /// The view was at the bottom.
    pub was_at_bottom: bool,
}

/// A position change to hand to `ChatView::scroll_position_changed`.
#[derive(Clone, Copy, Debug, PartialEq, Eq, Structural)]
pub struct PositionChange {
    pub at_top: bool,
    pub at_bottom: bool,
}

impl ScrollEdges {
    /// A view that starts at the bottom.
    pub fn new() -> (r: ScrollEdges)
        ensures
            !r.was_at_top,
            r.was_at_bottom,
    {
        ScrollEdges { was_at_top: false, was_at_bottom: true }
    }

    /// Takes a new reading of the position. Reaching the top raises a change
    /// once (further readings at the top raise nothing) and counts as leaving
    /// the bottom; elsewhere, a change is raised only when the bottom flag
    /// flips.
    pub fn observe(&mut self, at_top: bool, at_bottom: bool) -> (r: Option<PositionChange>)
        ensures
            at_top ==> {
                &&& *final(self) == (ScrollEdges { was_at_top: true, was_at_bottom: false })
                &&& r == if old(self).was_at_top {
                    None
                } else {
                    Some(PositionChange { at_top: true, at_bottom: false })
                }
            },
            !at_top ==> {
                &&& *final(self) == (ScrollEdges { was_at_top: false, was_at_bottom: at_bottom })
                &&& r == if at_bottom == old(self).was_at_bottom {
                    None
                } else {
                    Some(PositionChange { at_top: false, at_bottom })
                }
            },
    {
        if at_top {
            self.was_at_bottom = false;
            if !self.was_at_top {
                self.was_at_top = true;
                Some(PositionChange { at_top: true, at_bottom: false })
            } else {
                None
            }
        } else {
            self.was_at_top = false;
            if at_bottom != self.was_at_bottom {
                self.was_at_bottom = at_bottom;
                Some(PositionChange { at_top: false, at_bottom })
            } else {
                None
            }
        }
    }
}

} // verus!
