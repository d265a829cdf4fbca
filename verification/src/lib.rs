pub mod text;
pub mod config;
pub mod color;
pub mod keys;
pub mod browser;
pub mod tuner;
pub mod grid;
pub mod preprocess;
pub mod svg;
pub mod paths;
pub mod ui;
