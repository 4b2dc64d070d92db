//! One-shot conversion of an `AdGuard Home` configuration.
//!
//! What cannot be carried over becomes an explicit warning; nothing is
//! silently dropped.
pub mod laws;
pub mod names;
pub mod outcome;
pub mod plan;
pub mod render;
