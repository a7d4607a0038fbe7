//! Signal processing: detection, selection and mixing.

pub mod detector;
pub mod filter;
pub mod mixer;
pub mod pass;
pub mod processor;
pub mod selection;
pub mod spectrum;
pub mod twins;
pub mod vfo;
pub mod voice;

pub use processor::Processor;
pub use selection::select_vfo;
