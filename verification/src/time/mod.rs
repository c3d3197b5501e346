//! Time-rendering machinery: instants, clock sources, timezone resolution
//! and format strings.

pub mod clock;
pub mod format;
pub mod instant;
pub mod parse;
pub mod render;
pub mod tz;
