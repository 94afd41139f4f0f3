//! Normalises source paths found in debug information into identifiers that
//! do not depend on the machine they were captured on.

mod file_path;
mod path_mapper;
mod rules;
mod scan;

pub use file_path::FilePath;
pub use path_mapper::{ExtraPathMapper, PathMapper};
pub use rules::{classify, map_registry_path, map_toolchain_path};
