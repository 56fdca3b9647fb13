//! The panes of the viewer, as verified state machines: painting and raw
//! event decoding live with the caller, the decisions live here.

pub mod component;
pub mod divider;
pub mod file_pane;
pub mod file_view;
