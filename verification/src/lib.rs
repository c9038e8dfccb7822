//! A small owned string type with fallible reservation, and the checks and
//! runner logic that exercise it.

pub mod compact;
pub mod etna;
pub mod json;
pub mod reports;
pub mod runner;
pub mod text;

pub use compact::{CompactString, ReserveError};
