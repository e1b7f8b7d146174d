use vstd::prelude::*;

verus! {

/// The failures of the codec.
#[derive(Debug)]
pub enum Error {
    /// The input does not begin with a recognised container or outer-codec magic.
    MagicMissing,
    /// The container magic is present, but the kind byte is unknown.
    MagicUnrecognised,
    /// A declared item length exceeds the configured ceiling.
    InvalidItem,
    /// The next item was requested while an earlier one was left partly read.
    ApiMisuse,
    /// A 64-bit length or offset computation would overflow.
    LengthOverflow,
    /// The byte source ended early, or the compression codec failed.
    Io { source: std::io::Error },
    /// A fallible reservation of memory was refused.
    TryReserve { source: std::collections::TryReserveError },
}

pub type Result<T> = core::result::Result<T, Error>;

} // verus!
