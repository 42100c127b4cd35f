//! The error taxonomy of the renderer.

use vstd::prelude::*;

verus! {

/// Why a repaint was abandoned.
///
/// Any of these aborts the current repaint only: the current tree is left
/// as it was and the event loop keeps running.
#[derive(Clone, Copy, Debug, PartialEq, Eq, Structural)]
pub enum DrawError {
    /// A scene node the layout adapter cannot map to a solver handle:
    /// a measurement was demanded of a node that is not a leaf.
    UnsupportedNodeKind,
    /// The constraint solver failed to build a handle or to solve,
    /// or handed back geometry of the wrong shape.
    LayoutEngineError,
    /// A metrics or image-decoding collaborator failed during leaf
    /// measurement.
    MeasurementError,
    /// A drawing operation on the rendering surface failed.
    RenderError,
}

/// A snapshot line that does not parse.
///
/// Fully recovered locally: the line is discarded, the current tree is
/// unchanged and no repaint is triggered.
#[derive(Clone, Copy, Debug, PartialEq, Eq, Structural)]
pub struct InputParseError;

} // verus!
