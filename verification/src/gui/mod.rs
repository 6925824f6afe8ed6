//! What the window shows and does, apart from how it is drawn.
pub mod diff;
pub mod forms;
pub mod panes;
pub mod screen;
