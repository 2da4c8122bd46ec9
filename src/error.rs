//! The errors this library reports.
use vstd::prelude::*;

verus! {

/// What went wrong, for every fallible operation of the library.
#[derive(Debug, Clone, Copy, PartialEq, Eq, Structural)]
pub enum GptError {
    /// The device could not be opened.
    InvalidPath,
    /// The device does not hold a usable GPT header or partition table.
    NotGptFormatted,
    /// No partition matches the requested name or index.
    PartitionNotFound,
    /// A seek, read, write or flush on the device failed, or would fall outside it.
    IoFailure,
    /// A cursor was asked to move outside its partition.
    OutOfRangeSeek,
}

} // verus!
