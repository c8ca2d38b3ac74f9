//! The option and status values of the polygon tessellator's interface. The
//! tessellator itself is not part of this crate: facet polygons that need it (more
//! than four vertices, or holes) get no triangles.
use vstd::prelude::*;

verus! {

/// Which regions of a set of contours count as inside.
#[derive(Clone, Copy, Debug, PartialEq, Eq, Structural)]
pub enum WindingRule {
    Odd,
    NonZero,
    Positive,
    Negative,
    AbsGeqTwo,
}

/// What the tessellator outputs.
#[derive(Clone, Copy, Debug, PartialEq, Eq, Structural)]
pub enum ElementType {
    Polygons,
    ConnectedPolygons,
    BoundaryContours,
}

/// Optional behaviours of the tessellator.
#[derive(Clone, Copy, Debug, PartialEq, Eq, Structural)]
pub enum TessOption {
    ConstrainedDelaunayTriangulation,
    ReverseContours,
}

/// The outcome of a tessellation (`Success`: the tessellation finished).
#[derive(Clone, Copy, Debug, PartialEq, Eq, Structural)]
pub enum TessStatus {
    Success,
    OutOfMemory,
    InvalidInput,
}

} // verus!
