//! Detection of locally stored episodes and the splitting of merged seasons.

pub mod args;
pub mod err;
pub mod local;
pub mod remote;
pub mod series;
pub mod split;
pub mod text;
pub mod ui;
