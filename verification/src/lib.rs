//! Host diagnostics: a fixed-capacity store of the largest files seen by a
//! scan, filename pattern matching over directory trees, admission control
//! for the tree walker, and the plain records of the system reports.

pub mod component_service;
pub mod file_service;
pub mod log_service;
pub mod pattern;
pub mod process_table;
pub mod progress;
pub mod scan;
pub mod table_builder;
pub mod text;
pub mod tree;
pub mod walker;
