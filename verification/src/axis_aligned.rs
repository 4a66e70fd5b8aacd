//! Axis-aligned solver family and the index-level handling of its
//! coordinate grids.
use vstd::prelude::*;
use crate::tuning::{
    AA_EXACT_GRID_CAP, AA_SMALL_VERTEX_CUTOFF, AA_SUBDIV_LEVELS_HIGH, AA_SUBDIV_LEVELS_LOW,
    AA_SUBDIV_LEVELS_MED,
};

verus! {

/// Axis-aligned solver family selectable by the caller.
#[derive(Debug, Clone, Copy, PartialEq, Eq, Structural)]
pub enum AxisAlignedSolver {
    VertexGrid,
    Exact,
    UniformGrid,
}

impl Default for AxisAlignedSolver {
    fn default() -> (s: Self)
        ensures
            s == AxisAlignedSolver::VertexGrid,
    {
        AxisAlignedSolver::VertexGrid
    }
}

/// Subdivision depth of the vertex grid: finer grids for polygons with few
/// distinct coordinates.
pub fn subdivision_levels(n_unique: usize) -> (levels: u32)
    ensures
        levels == (if n_unique <= 4 {
            AA_SUBDIV_LEVELS_HIGH
        } else if n_unique <= AA_SMALL_VERTEX_CUTOFF {
            AA_SUBDIV_LEVELS_MED
        } else {
            AA_SUBDIV_LEVELS_LOW
        }),
{
    if n_unique <= 4 {
        AA_SUBDIV_LEVELS_HIGH as u32
    } else if n_unique <= AA_SMALL_VERTEX_CUTOFF {
        AA_SUBDIV_LEVELS_MED as u32
    } else {
        AA_SUBDIV_LEVELS_LOW as u32
    }
}

/// Polygons with few distinct coordinates classify every cell centre with
/// an exact point-in-polygon test instead of the even-odd scanline.
pub fn uses_exact_cell_test(n_unique: usize) -> (b: bool)
    ensures
        b == (n_unique <= AA_SMALL_VERTEX_CUTOFF),
{
    n_unique <= AA_SMALL_VERTEX_CUTOFF
}

proof fn lemma_step_index(k: int, step: int, len: int, cap: int)
    requires
        0 <= k < cap,
        0 < cap,
        step == len / cap,
        len > cap,
    ensures
        0 <= k * step < len,
        step >= 1,
{
    assert(step >= 1) by (nonlinear_arith)
        requires
            step == len / cap,
            len > cap,
            cap > 0,
    ;
    assert(0 <= k * step <= (cap - 1) * step) by (nonlinear_arith)
        requires
            0 <= k < cap,
            step >= 1,
    ;
    assert((cap - 1) * step < len) by (nonlinear_arith)
        requires
            step == len / cap,
            cap > 0,
            len > cap,
            step >= 1,
    ;
}

/// Keeps at most `AA_EXACT_GRID_CAP` coordinates by taking every
/// `len / cap`-th one from the start.
pub fn capped_coords<T: Copy>(coords: &mut Vec<T>)
    ensures
        old(coords).len() <= AA_EXACT_GRID_CAP ==> final(coords)@ == old(coords)@,
        old(coords).len() > AA_EXACT_GRID_CAP ==> {
            &&& final(coords).len() == AA_EXACT_GRID_CAP
            &&& forall|k: int|
                0 <= k < AA_EXACT_GRID_CAP ==> #[trigger] final(coords)@[k] == old(coords)@[k * (
                old(coords).len() / AA_EXACT_GRID_CAP) as int]
        },
{
    let max_grid = AA_EXACT_GRID_CAP;
    let len = coords.len();
    if len <= max_grid {
        return ;
    }
    let step = len / max_grid;
    let ghost old_v = coords@;
    let mut kept: Vec<T> = Vec::new();
    let mut k: usize = 0;
    while k < max_grid
        invariant
            old_v == coords@,
            len == coords.len(),
            len > max_grid,
            max_grid == AA_EXACT_GRID_CAP,
            step == len / max_grid,
            0 <= k <= max_grid,
            kept.len() == k,
            forall|t: int| 0 <= t < k ==> #[trigger] kept@[t] == old_v[t * step],
        decreases max_grid - k,
    {
        proof {
            lemma_step_index(k as int, step as int, len as int, max_grid as int);
        }
        let idx = k * step;
        kept.push(coords[idx]);
        k = k + 1;
    }
    *coords = kept;
}

} // verus!
