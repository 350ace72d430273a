//! Packages a plugin's source tree into a distributable archive: stage the
//! sources, convert translation catalogs, stamp the manifest with the version
//! and date, and write a stored archive of the staging tree.

pub mod error;
pub mod tree;
pub mod copier;
pub mod archive;
pub mod json;
pub mod manifest;
pub mod catalog;
pub mod pipeline;
