//! Why an export stops.
use vstd::prelude::*;

verus! {

/// A failure that aborts the whole export.
#[derive(Clone, Copy, Debug, PartialEq, Eq, Structural)]
pub enum ExportError {
    /// The stream holds records of a kind other than deals.
    UnsupportedStream,
    /// A timestamp lies outside the calendar range that can be represented.
    TimestampOutOfRange,
}

} // verus!
