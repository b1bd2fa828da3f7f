//! Verified core of PaneView: the split-pane layout tree, key handling, the
//! application state machine, screen-region arithmetic, terminal cell
//! styling, the command-line decisions, and the text the terminal UI
//! renders.

pub mod app;
pub mod cells;
pub mod cli;
pub mod fmt;
pub mod input;
pub mod keys;
pub mod layout;
pub mod listing;
pub mod pane;
pub mod rect;
pub mod screen;
pub mod status;
pub mod system;
pub mod text;
pub mod widgets;
