//! Strips control characters from file and directory names.
//!
//! The crate is split into a pure name sanitizer, a path model, the
//! report-line formatting, and a traversal state machine that decides,
//! step by step, which filesystem operations a driver should perform.

pub mod fs_path;
pub mod report;
pub mod sanitize;
pub mod walker;
