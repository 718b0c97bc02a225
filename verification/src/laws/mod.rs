//! What holds of the library as a whole: statements that relate several of
//! its operations, or speak of every input of one.

pub mod annotations;
pub mod apply;
pub mod attributes;
pub mod builds;
pub mod changes;
pub mod classes;
pub mod edits;
pub mod families;
pub mod headings;
pub mod import_paths;
pub mod incidents;
pub mod inserts;
pub mod java;
pub mod lockfiles;
pub mod manifests;
pub mod markers;
pub mod matches;
pub mod names;
pub mod orders;
pub mod origins;
pub mod overlaps;
pub mod planning;
pub mod projects;
pub mod registry;
pub mod releases;
pub mod renames;
pub mod renaming;
pub mod replies;
pub mod requests;
pub mod runs;
pub mod strategies;
pub mod tables;
pub mod texts;
pub mod words;
