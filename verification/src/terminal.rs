//! Shared terminal geometry.

use vstd::prelude::*;

verus! {

/// A rectangle of terminal cells, in screen coordinates.
#[derive(Clone, Copy)]
pub struct Rect {
    pub top: u16,
    pub left: u16,
    pub width: u16,
    pub height: u16,
}

} // verus!
