//! Shared solver vocabulary: polygon classes, backends, algorithm traits and
//! the common error type.
use vstd::prelude::*;

verus! {

/// Convexity and hole structure of an input polygon.
#[derive(Debug, Clone, Copy, PartialEq, Eq, Structural)]
pub enum PolygonType {
    ConvexNoHoles,
    ConvexWithHoles,
    ConcaveNoHoles,
    ConcaveWithHoles,
}

/// Where a solver runs.
#[derive(Debug, Clone, Copy, PartialEq, Eq, Structural)]
pub enum SolverBackend {
    Cpu,
    Gpu,
}

/// Whether a solver looks for axis-aligned or freely oriented rectangles.
#[derive(Debug, Clone, Copy, PartialEq, Eq, Structural)]
pub enum AlgorithmCategory {
    AxisAligned,
    Oriented,
}

/// Whether a solver's answer is exact or approximate.
#[derive(Debug, Clone, Copy, PartialEq, Eq, Structural)]
pub enum AlgorithmPrecision {
    Exact,
    Approx,
}

/// Relative speed class of a solver.
#[derive(Debug, Clone, Copy, PartialEq, Eq, Structural)]
pub enum AlgorithmSpeed {
    Standard,
    Fast,
}

/// Errors of the rectangle solvers.
#[derive(Debug)]
pub enum LirError {
    InvalidPolygon(String),
    NoRectangleFound,
    GpuError(String),
    NotSupported(String),
    Internal(String),
}

/// Polygon class from its two defining properties.
pub fn polygon_type_of(is_convex: bool, has_holes: bool) -> (t: PolygonType)
    ensures
        t == (if is_convex {
            if has_holes {
                PolygonType::ConvexWithHoles
            } else {
                PolygonType::ConvexNoHoles
            }
        } else {
            if has_holes {
                PolygonType::ConcaveWithHoles
            } else {
                PolygonType::ConcaveNoHoles
            }
        }),
{
    match (is_convex, has_holes) {
        (true, false) => PolygonType::ConvexNoHoles,
        (true, true) => PolygonType::ConvexWithHoles,
        (false, false) => PolygonType::ConcaveNoHoles,
        (false, true) => PolygonType::ConcaveWithHoles,
    }
}

} // verus!
