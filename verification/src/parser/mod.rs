//! The nodes of the symbol tree of a workspace: folders, files, and the
//! symbols of a file.

pub mod types;
pub mod walk;
