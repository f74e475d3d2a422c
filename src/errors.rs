//! Errors of the aggregation pipeline.
use vstd::prelude::*;

verus! {

/// What went wrong while the raw samples were reduced or the series merged.
#[derive(Debug, Clone, Copy, PartialEq, Eq, Structural)]
pub enum GraphErrorRepr {
    /// A sample file was empty or a directory entry could not be used.
    DataPreprocessingError,
    /// A number could not be read, or was negative where it may not be.
    ParseError,
    /// A name was not valid UTF-8.
    UTF8Error,
}

/// An error of the aggregation pipeline.
#[derive(Debug, Clone, Copy, PartialEq, Eq, Structural)]
pub struct GraphError {
    pub repr: GraphErrorRepr,
}

/// Marker of a failed preprocessing stage.
#[derive(Debug, Clone, Copy, PartialEq, Eq, Structural)]
pub struct DataPreprocessingError;

impl GraphError {
    pub fn new(repr: GraphErrorRepr) -> (r: GraphError)
        ensures
            r.repr == repr,
    {
        GraphError { repr }
    }
}

} // verus!
