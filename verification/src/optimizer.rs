//! The search for a layout, and the configuration that steers it.

pub mod config;
pub mod pattern;
pub mod runs;
pub mod score;
pub mod search;
pub mod selection;
