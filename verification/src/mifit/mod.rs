//! Reads device keys out of exports of the Mi Fitness app.
pub mod archive;
pub mod extractor;
pub mod package;
pub mod sqlite;
pub mod ui;
