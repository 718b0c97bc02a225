//! JavaScript and TypeScript projects: JSX attributes, import lists and npm
//! manifests.

pub mod imports;
pub mod install;
pub mod lockfile;
pub mod manifest;
pub mod matched;
pub mod npm;
pub mod peers;
pub mod props;
pub mod provider;
pub mod versions;
