//! Structural dissection of binary file formats into trees of labeled byte spans.

pub mod bytes;
pub mod text;
pub mod decimal;
pub mod timefmt;
pub mod dissect;
pub mod dissectors;
pub mod outline;
