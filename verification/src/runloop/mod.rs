//! The surfaces with a window of their own: the popover of macOS and the window
//! of Linux. What they show and what their controls do is decided here; drawing
//! it is the business of their toolkits.

pub mod layout;
pub mod pickers;
pub mod popover;
pub mod window;
