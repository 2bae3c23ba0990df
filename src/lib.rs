//! Splits an inclusive index range into contiguous segments, one per worker,
//! builds the argument lists of the external download tool, collects the
//! per-segment timing results of a job in segment order, and interprets the
//! answers read from an interactive prompt.
pub mod partition;
pub mod collect;
pub mod prompt;
pub mod command;
