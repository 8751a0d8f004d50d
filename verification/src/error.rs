//! What can be wrong with an image or a stream.

use vstd::prelude::*;

verus! {

/// Why a pass was given up. A pass that fails yields nothing else: no part of
/// an image is handed out.
#[derive(Debug, Clone, Copy, PartialEq, Eq, Structural)]
pub enum QoiError {
    /// The header is cut short, its magic is wrong, a dimension is zero, or its
    /// channel or colorspace byte is none of the known ones.
    MalformedHeader,
    /// The chunks end before they have given all pixels, or in the middle of a
    /// chunk.
    TruncatedStream,
    /// The stream does not end in the end marker.
    MissingEndMarker,
    /// The pixels do not number width times height.
    PixelCountMismatch,
}

} // verus!
