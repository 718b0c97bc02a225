//! Java projects: imports, annotations, build files and configuration.

pub mod annotations;
pub mod companions;
pub mod dependencies;
pub mod imports;
pub mod matched;
pub mod provider;
pub mod rename;
