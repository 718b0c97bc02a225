//! Planning fixes, choosing among overlapping edits, applying them and
//! putting requests to a language model together.

pub mod apply;
pub mod dedup;
pub mod merge;
pub mod rename;
pub mod import_path;
pub mod family;
pub mod test_requests;
pub mod plan;
