//! `hash_finder` searches the non-negative integers for values whose SHA-256
//! digest, written as lowercase hexadecimal, ends in a requested number of
//! `'0'` characters.
//!
//! The search walks ever-growing candidate ranges (`batch`), splits each range
//! evenly over a number of workers (`partition`), and scans each sub-range in
//! ascending order (`search`), stopping as soon as the requested number of
//! matches has been reported.

pub mod batch;
pub mod digest;
pub mod errors;
pub mod partition;
pub mod search;
