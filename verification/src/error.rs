//! What can go wrong while lines are turned into samples and records.

use vstd::prelude::*;
use crate::number::ParseFailure;

verus! {

/// One of the three partitions of a corpus.
#[derive(Clone, Copy, Debug, PartialEq, Eq, Structural)]
pub enum Split {
    Train,
    Dev,
    Test,
}

/// Why a single line holds no sample.
#[derive(Clone, Copy, Debug, PartialEq, Eq, Structural)]
pub enum RecordError {
    /// The line lacks a tab that its format requires.
    Malformed,
    /// The last field of the line is no unsigned decimal number, for the
    /// reason given.
    InvalidLabel(ParseFailure),
}

impl RecordError {
    /// The failure of a split whose line `line` fails in this way.
    pub open spec fn at_line(self, line: usize) -> DatasetError {
        match self {
            RecordError::Malformed => DatasetError::MalformedRecord { line },
            RecordError::InvalidLabel(cause) => DatasetError::InvalidLabel { line, cause },
        }
    }

    /// Adds the position of the line to the failure.
    pub fn locate(self, line: usize) -> (r: DatasetError)
        ensures
            r == self.at_line(line),
    {
        match self {
            RecordError::Malformed => DatasetError::MalformedRecord { line },
            RecordError::InvalidLabel(cause) => DatasetError::InvalidLabel { line, cause },
        }
    }
}

/// Why a split cannot be turned into records. Positions count the lines of
/// the split from 0.
#[derive(Clone, Copy, Debug, PartialEq, Eq, Structural)]
pub enum DatasetError {
    /// The line lacks a tab that its format requires.
    MalformedRecord { line: usize },
    /// The label of the line is no unsigned decimal number, for the reason
    /// given, and no known class name either.
    InvalidLabel { line: usize, cause: ParseFailure },
}

/// A failed dataset build: the split in which it stopped, and why.
#[derive(Clone, Copy, Debug, PartialEq, Eq, Structural)]
pub struct BuildError {
    pub split: Split,
    pub error: DatasetError,
}

} // verus!
