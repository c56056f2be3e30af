use vstd::prelude::*;

verus! {

/// The ways in which decoding an asset can fail.
#[derive(Clone, Copy, Debug, PartialEq, Eq, Structural)]
pub enum Error {
    /// Fewer bits remain in the source than a read asked for.
    EndOfStream,
    /// A DEFLATE/zlib payload could not be inflated.
    InflateError,
    /// The baseline JPEG decoder rejected the repaired stream.
    DecodeError,
    /// The declared dimensions disagree with the length of the decoded payload.
    SizeMismatch,
    /// A recognised legacy variant that this library does not decode.
    Unimplemented,
}

} // verus!
