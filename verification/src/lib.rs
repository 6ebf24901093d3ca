//! Verified core of a PDF compression tool: compression presets, size and
//! path formatting, digital-signature detection, image and stream
//! compression decisions, and the per-file and batch report.
pub mod analyze;
pub mod codec;
pub mod compress;
pub mod config;
pub mod pdf;
pub mod text;
pub mod utils;
