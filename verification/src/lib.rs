//! Verified core of a handful of small shell helpers: pairing `sha1sum`
//! lines, de-duplicating `PATH`, trimming a shell history, and checking
//! GitHub projects for new releases.

pub mod text;
pub mod pathlist;
pub mod sha1pair;
pub mod history;
pub mod ranking;
mod compiled;
pub mod pattern;
pub mod record;
pub mod sample;
pub mod ghoss;
pub mod backup;
