use vstd::prelude::*;

verus! {

/// Failures of the rendering pipeline.
#[derive(Debug, Clone, Copy, PartialEq, Eq, Structural)]
pub enum RenderError {
    /// A pixel access at `(x, y)` lies outside the canvas.
    OutOfBounds { x: usize, y: usize },
    /// Shading needs exactly one light source; `found` were configured.
    LightCount { found: usize },
    /// A transform (of a shape or of the camera's view) has no inverse.
    NotInvertible,
}

} // verus!
