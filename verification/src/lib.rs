//! A text viewer's core library: a gap buffer with grapheme-cluster-aware
//! cursor navigation, together with the small view-model types of the
//! surrounding panes (file view, file pane, divider, index, quick open).
//!
//! The gap buffer in [`buffer`] is the heart of the crate: a contiguous byte
//! array split into a Left range, an unused gap and a Right range, whose
//! logical content is the UTF-8 decoding of the two ranges. All editing
//! operations are specified and verified against that model.

pub mod buffer;
pub mod components;
pub mod event;
pub mod file_pane;
pub mod file_view;
pub mod graphemes;
pub mod indexer;
pub mod painting_utils;
pub mod quick_open;
pub mod terminal;
pub mod text;
