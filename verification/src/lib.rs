//! A single-symbol limit order book: one price ladder per side, kept sorted
//! with the touch at the cheap end of a contiguous vector, mutated only
//! inside `begin`/`end` brackets, and reporting every level change to a
//! listener.

pub mod book;
pub mod common;
pub mod ladder;
pub mod laws;
pub mod level;
pub mod model;
pub mod util;
