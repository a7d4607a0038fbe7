//! A receive-only multi-channel software radio: everything it decides, counts
//! and routes. Frequencies are whole hertz, levels are millionths of a decibel,
//! and audio is a fraction of full scale (see `units`).

pub mod audio;
pub mod channel;
pub mod decimal;
pub mod driver;
pub mod double;
pub mod dsp;
pub mod engine;
pub mod frequency;
pub mod model;
pub mod reception;
pub mod text;
pub mod ui;
pub mod units;
