//! An interactive solver for a fixed-length word-guessing game with
//! three-valued per-letter feedback (exact match, present-but-misplaced,
//! absent).  Given a fixed guess vocabulary and a shrinking candidate
//! answer set, it selects the guess that best partitions the remaining
//! candidates, consumes the observed feedback, and narrows the candidate
//! set until a unique answer remains or the set is exhausted.

pub mod bag;
pub mod classify;
pub mod optimize;
pub mod partition;
pub mod session;
pub mod word;
