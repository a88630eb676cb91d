//! Typed decode errors.
//!
//! Every structural mismatch met while decoding surfaces as one of these
//! values; the decoder never panics on malformed input.  Legitimately absent
//! data (an empty sector entry, a missing section) is not an error: it is
//! reported as `None` or as a documented default by the query functions.

use vstd::prelude::*;

verus! {

/// A recoverable decode failure.
#[derive(Clone, Copy, Debug, PartialEq, Eq, Structural)]
pub enum AnvilError {
    /// A sector-table read would pass the end of the region buffer.
    OutOfBounds,
    /// A payload read would pass the end of the buffer or of a packed array.
    Truncated,
    /// The chunk payload names a compression scheme other than zlib or raw.
    UnsupportedCompression,
    /// The compressed payload could not be inflated.
    Decompression,
    /// The inflated bytes are not a well-formed tag tree.
    MalformedTag,
    /// A tag held a type other than the one the format requires here.
    WrongTag,
    /// An entry the format requires is missing from a compound tag.
    MissingTag,
    /// An altitude index outside the section range, local coordinates outside
    /// the chunk, or a palette index at or past the palette length.
    OutOfRange,
    /// Two sections carry the same altitude index.
    DuplicateSection,
    /// A palette-sourced block name carries no namespace separator.
    MalformedName,
}

} // verus!
