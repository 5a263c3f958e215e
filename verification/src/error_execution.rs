//! Errors that can end a whole run.

use vstd::prelude::*;

use crate::parsing_error::ParsingError;

verus! {

/// The possible errors of a complete run.
///
/// * `WrongAmountOfParameters` - the run was invoked with the wrong number of
///   parameters.
/// * `InvalidNumberOfThreads` - the requested worker count is not a number.
/// * `ErrorInSites` - the sites could not be loaded.
/// * `ErrorInJsonParsing` - the report could not be serialized.
#[derive(Debug)]
pub enum ErrorExecution {
    WrongAmountOfParameters,
    InvalidNumberOfThreads,
    ErrorInSites(ParsingError),
    ErrorInJsonParsing,
}

} // verus!
