//! Options, engines and errors of the maximum-inscribed-circle solvers.
use vstd::prelude::*;

verus! {

/// Engine selection for MIC solving.
#[derive(Debug, Clone, Copy, PartialEq, Eq, Structural)]
pub enum MicEngine {
    /// Use the native polygon-specialized solver only.
    ExactOnly,
    /// Use the GEOS fallback only.
    FallbackOnly,
    /// Try exact first, then the GEOS fallback if exact fails.
    ExactThenGeos,
}

/// Numeric robustness mode for the exact engine.
#[derive(Debug, Clone, Copy, PartialEq, Eq, Structural)]
pub enum RobustMode {
    /// Fast finite-precision mode.
    FastF64,
    /// Extra candidate filtering and certification.
    Filtered,
}

/// Solver configuration.
#[derive(Debug, Clone, Copy, PartialEq, Eq, Structural)]
pub struct MicOptions {
    pub engine: MicEngine,
    pub robust_mode: RobustMode,
}

impl Default for MicOptions {
    fn default() -> (o: Self)
        ensures
            o.engine == MicEngine::ExactThenGeos,
            o.robust_mode == RobustMode::Filtered,
    {
        MicOptions { engine: MicEngine::ExactThenGeos, robust_mode: RobustMode::Filtered }
    }
}

/// Engine that produced the final result.
#[derive(Debug, Clone, Copy, PartialEq, Eq, Structural)]
pub enum MicUsedEngine {
    Exact,
    GeosFallback,
    Grid,
}

/// MIC solver error.
#[derive(Debug)]
pub enum MicError {
    InvalidInput(String),
    NoCircleFound,
    ExactFailed(String),
    GeosFeatureDisabled,
    GeosFailed(String),
    UnsupportedGeosOutput(String),
}

/// The analytical triangle / convex-quad fast paths are tried only by the
/// engines that run the exact solver.
pub fn uses_fast_paths(engine: MicEngine) -> (b: bool)
    ensures
        b == (engine == MicEngine::ExactOnly || engine == MicEngine::ExactThenGeos),
{
    match engine {
        MicEngine::ExactOnly => true,
        MicEngine::FallbackOnly => false,
        MicEngine::ExactThenGeos => true,
    }
}

/// Refinement budget of the grid engine for a bounding box that holds
/// `cell_count` tolerance-sized cells: ten visits per cell, at least 100
/// and at most 100000.
pub fn iteration_budget(cell_count: usize) -> (n: usize)
    requires
        cell_count * 10 <= usize::MAX,
    ensures
        n == (if cell_count * 10 > 100000 {
            100000
        } else if cell_count * 10 < 100 {
            100
        } else {
            cell_count * 10
        }),
{
    let safety_factor: usize = 10;
    let raw = cell_count * safety_factor;
    let capped = if raw < 100000 { raw } else { 100000 };
    if capped > 100 { capped } else { 100 }
}

} // verus!
