//! What the command line says.
use vstd::prelude::*;

use crate::path::FilePath;

verus! {

/// The arguments of the program.
#[derive(Debug)]
pub struct Args {
    /// Prefill the sed expression editor.
    pub expression: Option<String>,
    /// Path to the sed binary.
    pub sed_bin: FilePath,
    /// Backup suffix for in-place apply; an empty one means no backup.
    pub in_place: Option<String>,
    /// Files to preview and edit.
    pub files: Vec<FilePath>,
}

} // verus!
