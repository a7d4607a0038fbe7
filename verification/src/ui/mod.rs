//! What the window shows and what its controls do, without any drawing.

pub mod app;
pub mod display;
pub mod labels;
pub mod meter;
pub mod theme;

pub use app::QuasarApp;
