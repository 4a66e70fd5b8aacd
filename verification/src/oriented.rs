//! Discrete parts of the oriented-rectangle solvers: how candidates were
//! found and the regular angle ladder that pads the edge-derived angles.
use vstd::prelude::*;

verus! {

/// Support family that produced an edge-anchored candidate.
#[derive(Debug, Clone, Copy, PartialEq, Eq, Structural)]
pub enum EdgeOrigin {
    VerticalPair,
    HorizontalPair,
    SingleSideAnchor,
}

/// Whole-degree angles `start, start + step, ...` below 90 degrees.
pub fn angle_steps(start: usize, step: usize) -> (angles: Vec<usize>)
    requires
        step >= 1,
    ensures
        forall|k: int| 0 <= k < angles.len() ==> #[trigger] angles@[k] == start + k * step,
        forall|k: int| 0 <= k < angles.len() ==> #[trigger] angles@[k] < 90,
        start + angles.len() * step >= 90,
{
    let mut angles: Vec<usize> = Vec::new();
    if start >= 90 {
        proof {
            assert(start + angles.len() * step >= 90) by (nonlinear_arith)
                requires
                    start >= 90,
                    angles.len() == 0,
            ;
        }
        return angles;
    }
    let mut a = start;
    proof {
        assert(angles.len() * step == 0) by (nonlinear_arith)
            requires
                angles.len() == 0,
        ;
    }
    loop
        invariant_except_break
            a < 90,
            a == start + angles.len() * step,
        invariant
            step >= 1,
            forall|k: int| 0 <= k < angles.len() ==> #[trigger] angles@[k] == start + k * step,
            forall|k: int| 0 <= k < angles.len() ==> #[trigger] angles@[k] < 90,
        ensures
            start + angles.len() * step >= 90,
        decreases 90 - a,
    {
        angles.push(a);
        proof {
            assert(start + (angles.len() - 1) * step + step == start + angles.len() * step)
                by (nonlinear_arith);
        }
        if step >= 90 - a {
            break;
        }
        a = a + step;
    }
    angles
}

} // verus!
