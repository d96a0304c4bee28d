//! Watches one kind of cluster resource, keeps every observed version of each
//! object in memory, and drives an interactive session over that history.

pub mod apigroup;
pub mod db;
pub mod diff;
pub mod discovery;
pub mod dynamic_object;
pub mod event;
pub mod options;
pub mod persistent;
pub mod pipeline;
pub mod session;
pub mod text;
pub mod tui;
pub mod utils;
pub mod version;
pub mod watch;
