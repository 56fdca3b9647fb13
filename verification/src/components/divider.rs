//! The divider between the file pane and the file view.

use vstd::prelude::*;

verus! {

/// The divider's whole state: whether it needs to be painted again. What it
/// paints never changes, so nothing else is kept.
pub struct DividerComponent {
    needs_paint: bool,
}

impl DividerComponent {
    /// Whether the next paint pass must repaint the divider.
    pub closed spec fn spec_needs_paint(self) -> bool {
        self.needs_paint
    }

    /// A fresh divider, which has never been painted.
    pub fn new() -> (r: DividerComponent)
        ensures
            r.spec_needs_paint(),
    {
        DividerComponent { needs_paint: true }
    }

    /// Reads and clears the repaint flag: the caller paints exactly when
    /// this returns true.
    pub fn take_needs_paint(&mut self) -> (r: bool)
        ensures
            r == old(self).spec_needs_paint(),
            !final(self).spec_needs_paint(),
    {
        let r = self.needs_paint;
        self.needs_paint = false;
        r
    }
}

} // verus!
