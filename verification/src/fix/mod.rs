//! The fixed-point formats.
pub mod fix2x61;
pub mod fix4x123;
