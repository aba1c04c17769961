//! What the `doctor` command reports about the environment.

use vstd::prelude::*;

verus! {

/// The `doctor` command takes no arguments.
#[derive(Debug)]
pub struct DoctorArgs {}

/// Whether one outside program can be found.
#[derive(Debug)]
pub struct AdapterCheck {
    pub name: String,
    pub available: bool,
}

/// The programs found, and whether the knowledge base directory exists, can
/// be written, and lies on the same file system as the temporary directory.
#[derive(Debug)]
pub struct DoctorData {
    pub adapters: Vec<AdapterCheck>,
    pub kb_path_exists: bool,
    pub kb_writeable: bool,
    pub same_filesystem: bool,
}

} // verus!
