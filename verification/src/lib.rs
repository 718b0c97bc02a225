//! Fix planning for code migrations.
//!
//! The library turns analysis incidents into text edits, decides which of
//! them survive, applies them to the text of files and describes the work
//! that is left to a language model or to a person. Reading and writing
//! files, running package managers and talking to services is the business
//! of the program around it.

pub mod answers;
pub mod cli;
pub mod context;
pub mod engine;
pub mod input;
pub mod java;
pub mod js;
pub mod json;
pub mod konveyor;
pub mod language;
pub mod laws;
pub mod model;
pub mod order;
pub mod paths;
pub mod pattern;
pub mod registry;
pub mod report;
pub mod strategy;
pub mod syntax_check;
pub mod table;
pub mod text;
pub mod views;
pub mod workspace;
pub mod yaml;
