//! Typed errors of the reconstruction core.

use vstd::prelude::*;

verus! {

/// Everything that can go wrong while reconstructing a frame.
///
/// Structural decode errors abort the whole image decode; none of them is
/// ever reported as degraded or partial pixel output.
#[derive(Clone, Copy, Debug, PartialEq, Eq, Structural)]
pub enum Error {
    /// A required section (global LF or global HF data) was absent when a
    /// frame was handed to the render pipeline.
    IncompleteFrame,
    /// The frame asks for an encoding the pipeline does not implement.
    UnsupportedEncoding,
    /// Rendering was requested but no displayable frame has been decoded.
    NoDisplayableFrame,
}

} // verus!
