//! The file pane's view model: a list of files and folders with an optional
//! selection that moves one item at a time.

use vstd::prelude::*;

verus! {

/// One entry of the file pane: a file or a folder, by name.
pub enum FilePaneItem {
    File(String),
    Folder(String),
}

/// The file pane's state: its items, the selected item if any, and whether
/// the pane has focus.
pub struct ViewModel {
    pub items: Vec<FilePaneItem>,
    pub selected_item_index: Option<usize>,
    pub is_focused: bool,
}

/// The selection after moving one item down: the first item when nothing is
/// selected, the next item while one exists, and otherwise unchanged.
pub open spec fn next_selection(selected: Option<usize>, count: int) -> Option<usize> {
    match selected {
        None => if count > 0 {
            Some(0usize)
        } else {
            None
        },
        Some(i) => if i + 1 < count {
            Some((i + 1) as usize)
        } else {
            Some(i)
        },
    }
}

/// The selection after moving one item up: the previous item while one
/// exists, and otherwise unchanged.
pub open spec fn previous_selection(selected: Option<usize>) -> Option<usize> {
    match selected {
        None => None,
        Some(i) => if i > 0 {
            Some((i - 1) as usize)
        } else {
            Some(i)
        },
    }
}

impl ViewModel {
    /// A pane showing `items`, with nothing selected and no focus.
    pub fn from_items(items: Vec<FilePaneItem>) -> (r: ViewModel)
        ensures
            r.items == items,
            r.selected_item_index is None,
            !r.is_focused,
    {
        ViewModel { items, selected_item_index: None, is_focused: false }
    }

    /// Moves the selection one item down.
    pub fn select_next(&mut self)
        ensures
            final(self).items == old(self).items,
            final(self).is_focused == old(self).is_focused,
            final(self).selected_item_index == next_selection(
                old(self).selected_item_index,
                old(self).items@.len() as int,
            ),
    {
        match self.selected_item_index {
            None => {
                if self.items.len() > 0 {
                    self.selected_item_index = Some(0);
                }
            },
            Some(i) => {
                if self.items.len() > 0 && i < self.items.len() - 1 {
                    self.selected_item_index = Some(i + 1);
                }
            },
        }
    }

    /// Moves the selection one item up.
    pub fn select_previous(&mut self)
        ensures
            final(self).items == old(self).items,
            final(self).is_focused == old(self).is_focused,
            final(self).selected_item_index == previous_selection(old(self).selected_item_index),
    {
        match self.selected_item_index {
            None => {},
            Some(i) => {
                if i > 0 {
                    self.selected_item_index = Some(i - 1);
                }
            },
        }
    }
}

} // verus!
