//! Events that components hand back to the root, and the key strokes they
//! receive.

use vstd::prelude::*;

verus! {

use crate::indexer::index::{FileIndexEntry, FileTreeNode};

/// What a component asks the surrounding program to do.
pub enum Event {
    FileItemSelected(FileTreeNode),
    FileItemOpened(FileIndexEntry),
    FileViewLostFocus,
    FileSaved,
}

/// A key stroke, reduced to what the components decide on.
#[derive(Clone, Copy)]
pub enum KeyInput {
    Up,
    Down,
    Left,
    Right,
    Char(char),
    Backspace,
    Esc,
    Ctrl(char),
}

} // verus!
