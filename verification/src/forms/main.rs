//! Forms of the main routes.
use vstd::prelude::*;

verus! {

/// Form data for creating a new folder.
#[derive(Debug)]
pub struct CreateFolderForm {
    /// Name of the folder to create. Must be at least one character long.
    pub name: String,
}

} // verus!
