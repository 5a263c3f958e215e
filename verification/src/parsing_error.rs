//! Errors that can arise while setting up the data sources.

use vstd::prelude::*;

verus! {

/// The possible failures while preparing the data to aggregate.
///
/// * `ErrorCouldNotOpenDataDirectory` - the data directory cannot be opened.
/// * `ErrorWhileBrowsingTheDirectoryEntries` - no usable directory entries.
/// * `ErrorWhileBuildingThreadpool` - the worker pool could not be built.
#[derive(Debug)]
pub enum ParsingError {
    ErrorCouldNotOpenDataDirectory,
    ErrorWhileBrowsingTheDirectoryEntries(String),
    ErrorWhileBuildingThreadpool(String),
}

} // verus!
