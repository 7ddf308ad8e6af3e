//! `navcore` — turn-by-turn navigation core: the decisions and bookkeeping of
//! the navigator, verified. Geometry, filtering and scoring run on real
//! numbers in the host and reach this library as the facts its decisions
//! read.

pub mod types;
pub mod geo;
pub mod navigator;
pub mod matcher;
pub mod filter;
pub mod fixtures;
pub mod ffi;
