//! The music player of the watch.
pub mod audio;
pub mod lyrics;
pub mod model;
pub mod persistence;
pub mod player_layout;
pub mod screen;
pub mod storage;
pub mod ui;
