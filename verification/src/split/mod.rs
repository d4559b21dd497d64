//! Splitting a directory that holds several seasons into one per season.

pub mod action;
pub mod execute;
pub mod resolve;
