//! What a viewer shows and does, as plain values.
//!
//! A window draws these values and hands events back; nothing here draws.

pub mod catalogue;
pub mod detail;
pub mod findings;
pub mod labels;
pub mod laws;
pub mod options;
pub mod panes;
pub mod settings;
pub mod sidebar;
pub mod typeset;
pub mod watch;
pub mod window;
