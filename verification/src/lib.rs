//! Verified core of a process-memory pattern scanner: address formatting,
//! the byte-pattern matcher and the region-walking scan, process and module
//! name matching, and the pointer walk that locates the data model.

pub mod utils;
pub mod memory;
pub mod scan;
pub mod process;
pub mod datamodel;
