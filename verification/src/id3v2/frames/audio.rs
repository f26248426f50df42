//! Audio adjustment frames.

pub mod v23;
