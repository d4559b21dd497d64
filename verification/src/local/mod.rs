//! Episodes as they are found on disk.

pub mod engine;
pub mod episode;
pub mod list;
pub mod matcher;
pub mod sorted;
