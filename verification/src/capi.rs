//! Integer side of the C interface: option codes, result codes and the
//! flat coordinate buffer.
use vstd::prelude::*;
use crate::mic::{MicEngine, MicUsedEngine, RobustMode};

verus! {

/// C-compatible MIC options.
#[derive(Clone, Copy)]
pub struct IgeMicOptions {
    /// 0 = ExactOnly, 1 = FallbackOnly, 2 = ExactThenGeos
    pub engine: i32,
    /// 0 = FastF64, 1 = Filtered
    pub robust_mode: i32,
}

impl Default for IgeMicOptions {
    fn default() -> (o: Self)
        ensures
            o.engine == 2,
            o.robust_mode == 1,
    {
        IgeMicOptions { engine: 2, robust_mode: 1 }
    }
}

/// Engine for a C engine code; unknown codes select `ExactThenGeos`.
pub fn mic_engine_from_raw(value: i32) -> (e: MicEngine)
    ensures
        e == (if value == 0 {
            MicEngine::ExactOnly
        } else if value == 1 {
            MicEngine::FallbackOnly
        } else {
            MicEngine::ExactThenGeos
        }),
{
    match value {
        0 => MicEngine::ExactOnly,
        1 => MicEngine::FallbackOnly,
        2 => MicEngine::ExactThenGeos,
        _ => MicEngine::ExactThenGeos,
    }
}

/// Robustness mode for a C code; unknown codes select `Filtered`.
pub fn robust_mode_from_raw(value: i32) -> (m: RobustMode)
    ensures
        m == (if value == 0 {
            RobustMode::FastF64
        } else {
            RobustMode::Filtered
        }),
{
    match value {
        0 => RobustMode::FastF64,
        1 => RobustMode::Filtered,
        _ => RobustMode::Filtered,
    }
}

/// C code of the engine that produced a result.
pub fn used_engine_to_raw(value: MicUsedEngine) -> (code: i32)
    ensures
        code == match value {
            MicUsedEngine::Exact => 0i32,
            MicUsedEngine::GeosFallback => 1i32,
            MicUsedEngine::Grid => 2i32,
        },
{
    match value {
        MicUsedEngine::Exact => 0,
        MicUsedEngine::GeosFallback => 1,
        MicUsedEngine::Grid => 2,
    }
}

/// C code of a multipolygon component index; -1 when not a multipolygon solve.
pub fn component_index_to_raw(index: Option<usize>) -> (code: i32)
    ensures
        code == match index {
            Some(x) => x as i32,
            None => -1i32,
        },
{
    match index {
        Some(x) => x as i32,
        None => -1,
    }
}

/// A coordinate buffer must hold at least three (x, y) pairs.
pub fn coord_count_is_valid(coords_len: usize) -> (ok: bool)
    ensures
        ok == (coords_len >= 6 && coords_len % 2 == 0),
{
    coords_len >= 6 && coords_len % 2 == 0
}

/// Groups a flat `[x0, y0, x1, y1, ...]` buffer into `(x, y)` pairs.
pub fn pair_coords<T: Copy>(flat: &[T]) -> (pairs: Vec<(T, T)>)
    requires
        flat@.len() % 2 == 0,
    ensures
        pairs@.len() * 2 == flat@.len(),
        forall|k: int|
            0 <= k < pairs@.len() ==> #[trigger] pairs@[k] == (flat@[2 * k], flat@[2 * k + 1]),
{
    let mut pairs: Vec<(T, T)> = Vec::new();
    let mut i: usize = 0;
    while i < flat.len()
        invariant
            flat@.len() % 2 == 0,
            i % 2 == 0,
            i <= flat@.len(),
            pairs@.len() * 2 == i,
            forall|k: int|
                0 <= k < pairs@.len() ==> #[trigger] pairs@[k] == (flat@[2 * k], flat@[2 * k + 1]),
        decreases flat@.len() - i,
    {
        pairs.push((flat[i], flat[i + 1]));
        i = i + 2;
    }
    pairs
}

} // verus!
