//! Integer tuning constants shared by the solvers.
use vstd::prelude::*;

verus! {

pub const GRID_COARSE: usize = 32;
pub const GRID_FINE: usize = 64;
pub const TOP_K: usize = 1;
pub const TOP_TRIALS: usize = 2;
pub const FIELD_MIN_ANGLES: usize = 45;
pub const FIELD_ANGLE_STEP: usize = 5;
pub const FIELD_MAX_COORDS: usize = 300;
pub const EXPAND_BINARY_STEPS: usize = 24;
pub const EXPAND_ITERS: usize = 3;
pub const GRADIENT_EXPAND_STEPS: usize = 15;
pub const CONTRACT_BINARY_ITERS: usize = 32;
pub const AA_SUBDIV_LEVELS_HIGH: usize = 4;
pub const AA_SUBDIV_LEVELS_MED: usize = 2;
pub const AA_SUBDIV_LEVELS_LOW: usize = 1;
pub const AA_SMALL_VERTEX_CUTOFF: usize = 16;
pub const AA_GRID_MAX_COORDS: usize = 51200;
/// Points kept per axis by the exhaustive axis-aligned solver. The value is
/// this library's choice: it bounds the solver's quadratic search over
/// coordinate pairs while keeping the detail of ordinary polygons.
pub const AA_EXACT_GRID_CAP: usize = 250;

} // verus!
