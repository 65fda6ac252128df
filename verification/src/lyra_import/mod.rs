//! Music import: songs sent to the watch in checked chunks.
pub mod actions;
pub mod artwork;
pub mod id3;
pub mod import;
pub mod netease;
pub mod preparation;
pub mod sniff;
pub mod state;
pub mod ui;
mod wire;
