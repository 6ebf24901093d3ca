//! Command-line options and compression presets.
pub mod cli;
pub mod presets;
