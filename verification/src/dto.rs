//! Transport-agnostic listing entries.
use vstd::prelude::*;

verus! {

use crate::domain::StorageEntry;

/// Entry of a directory listing, ready for rendering.
#[derive(Debug)]
pub struct FileEntryDto {
    pub name: String,
    pub is_directory: bool,
    pub is_image: bool,
}

impl Clone for FileEntryDto {
    fn clone(&self) -> (r: Self)
        ensures
            r == *self,
    {
        FileEntryDto {
            name: self.name.clone(),
            is_directory: self.is_directory,
            is_image: self.is_image,
        }
    }
}

impl From<StorageEntry> for FileEntryDto {
    fn from(entry: StorageEntry) -> (r: Self) {
        let is_directory = entry.is_directory();
        let is_image = entry.is_image();
        let name = entry.into_name().into_string();
        FileEntryDto { name, is_directory, is_image }
    }
}

impl vstd::std_specs::convert::FromSpecImpl<StorageEntry> for FileEntryDto {
    open spec fn obeys_from_spec() -> bool {
        true
    }

    open spec fn from_spec(entry: StorageEntry) -> Self {
        FileEntryDto {
            name: entry.spec_name_value().spec_inner(),
            is_directory: entry.spec_is_directory(),
            is_image: entry.spec_is_image(),
        }
    }
}

} // verus!
