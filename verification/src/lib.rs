pub mod bridge;
pub mod element;
pub mod json;
pub mod lyra_import;
pub mod mifit;
pub mod player;
pub mod text;
