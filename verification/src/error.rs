//! Error taxonomy of the fee-model library.

use vstd::prelude::*;
use vstd::string::StringExecFns;

verus! {

/// Errors surfaced while preparing or running an inference request.
#[derive(Debug)]
pub enum Error {
    /// The model's field list names a feature with no recorded mean.
    MissingMeanData(String),
    /// The model's field list names a feature with no recorded standard deviation.
    MissingStdData(String),
    /// The supplied blocks are not a connected chain.
    UnconnectedBlocks,
    /// None of the supplied blocks carries a usable timestamp.
    LastTsMissing,
}

impl Error {
    /// A human-readable description of the error.
    pub fn to_message(&self) -> (r: String)
        ensures
            match self {
                Error::MissingMeanData(s) => r@ == "Missing mean field "@ + s@ + " "@,
                Error::MissingStdData(s) => r@ == "Missing std field "@ + s@ + " "@,
                Error::UnconnectedBlocks => r@ == "Supplied blocks must be ordered and connected "@,
                Error::LastTsMissing => r@ == "None of the 10 blocks is"@,
            },
    {
        match self {
            Error::MissingMeanData(s) => {
                let mut m = "Missing mean field ".to_owned();
                m.append(s.as_str());
                m.append(" ");
                m
            },
            Error::MissingStdData(s) => {
                let mut m = "Missing std field ".to_owned();
                m.append(s.as_str());
                m.append(" ");
                m
            },
            Error::UnconnectedBlocks => "Supplied blocks must be ordered and connected ".to_owned(),
            Error::LastTsMissing => "None of the 10 blocks is".to_owned(),
        }
    }
}

/// A dynamic shape check failed: both observed shapes, each as width and
/// height, are carried to the caller.
#[derive(Debug, Clone, Copy, PartialEq, Eq, Structural)]
pub struct ShapeMismatch {
    pub left_width: usize,
    pub left_height: usize,
    pub right_width: usize,
    pub right_height: usize,
}

/// A persisted model container could not be decoded.
#[derive(Debug, Clone, Copy, PartialEq, Eq, Structural)]
pub enum DecodeError {
    /// The input ended before a declared quantity was complete.
    Truncated,
    /// A feature name is not valid UTF-8.
    BadName,
    /// A matrix row does not have the expected width.
    RowWidth { row: usize, expected: usize, found: usize },
    /// A matrix does not have the expected number of rows.
    RowCount { expected: usize, found: usize },
    /// A tensor is not introduced by its canonical key.
    UnknownKey,
    /// Bytes are left over after the end of the container.
    Trailing { extra: usize },
}

/// A trained artifact was rejected at the offline compilation step.
#[derive(Debug, Clone, Copy, PartialEq, Eq, Structural)]
pub enum ConfigurationError {
    /// The first two layers declare different hidden sizes.
    HiddenSizeMismatch(usize, usize),
    /// The last layer has more than one output.
    MultiOutputUnsupported(usize),
}

} // verus!
