//! Solver catalogue: the solver objects and what each one reports about
//! itself.  The geometric `solve` step of each solver works on
//! floating-point polygons and lives with the solvers themselves.
use vstd::prelude::*;
use vstd::string::*;
use crate::shared::{AlgorithmCategory, AlgorithmPrecision, AlgorithmSpeed, LirError, PolygonType};

verus! {

/// What a rectangle solver reports about itself.
pub trait LirSolver {
    fn name(&self) -> &'static str;

    fn category(&self) -> AlgorithmCategory;

    fn precision(&self) -> AlgorithmPrecision;

    fn speed(&self) -> AlgorithmSpeed;

    fn polygon_type(&self) -> Option<PolygonType>;
}

/// Axis-aligned CPU solver holding its options.
pub struct AxisAlignedSolver<O> {
    opts: O,
}

impl<O> AxisAlignedSolver<O> {
    pub closed spec fn options(&self) -> O {
        self.opts
    }

    pub fn new(opts: O) -> (s: Self)
        ensures
            s.options() == opts,
    {
        AxisAlignedSolver { opts }
    }

    pub fn opts(&self) -> (o: &O)
        ensures
            *o == self.options(),
    {
        &self.opts
    }
}

impl<O> LirSolver for AxisAlignedSolver<O> {
    fn name(&self) -> (n: &'static str)
        ensures
            n@ == "axis-aligned-cpu"@,
    {
        "axis-aligned-cpu"
    }

    fn category(&self) -> (c: AlgorithmCategory)
        ensures
            c == AlgorithmCategory::AxisAligned,
    {
        AlgorithmCategory::AxisAligned
    }

    fn precision(&self) -> (p: AlgorithmPrecision)
        ensures
            p == AlgorithmPrecision::Approx,
    {
        AlgorithmPrecision::Approx
    }

    fn speed(&self) -> (s: AlgorithmSpeed)
        ensures
            s == AlgorithmSpeed::Standard,
    {
        AlgorithmSpeed::Standard
    }

    fn polygon_type(&self) -> (t: Option<PolygonType>)
        ensures
            t is None,
    {
        None
    }
}

/// Oriented CPU solver holding its options.
pub struct OrientedSolver<O> {
    opts: O,
}

impl<O> OrientedSolver<O> {
    pub closed spec fn options(&self) -> O {
        self.opts
    }

    pub fn new(opts: O) -> (s: Self)
        ensures
            s.options() == opts,
    {
        OrientedSolver { opts }
    }

    pub fn opts(&self) -> (o: &O)
        ensures
            *o == self.options(),
    {
        &self.opts
    }
}

impl<O> LirSolver for OrientedSolver<O> {
    fn name(&self) -> (n: &'static str)
        ensures
            n@ == "oriented-cpu"@,
    {
        "oriented-cpu"
    }

    fn category(&self) -> (c: AlgorithmCategory)
        ensures
            c == AlgorithmCategory::Oriented,
    {
        AlgorithmCategory::Oriented
    }

    fn precision(&self) -> (p: AlgorithmPrecision)
        ensures
            p == AlgorithmPrecision::Approx,
    {
        AlgorithmPrecision::Approx
    }

    fn speed(&self) -> (s: AlgorithmSpeed)
        ensures
            s == AlgorithmSpeed::Fast,
    {
        AlgorithmSpeed::Fast
    }

    fn polygon_type(&self) -> (t: Option<PolygonType>)
        ensures
            t is None,
    {
        None
    }
}

/// GPU solver placeholder: it reports itself as an oriented solver and
/// refuses every polygon.
pub struct GpuSolver<O> {
    opts: O,
}

impl<O> GpuSolver<O> {
    pub closed spec fn options(&self) -> O {
        self.opts
    }

    pub fn new(opts: O) -> (s: Self)
        ensures
            s.options() == opts,
    {
        GpuSolver { opts }
    }

    /// Every solve request is answered with `NotSupported`.
    pub fn solve<P, R>(&self, _polygon: &P) -> (r: Result<R, LirError>)
        ensures
            r matches Err(LirError::NotSupported(m)) && m@ == "GPU solver not yet implemented"@,
    {
        Err(LirError::NotSupported(String::from_str("GPU solver not yet implemented")))
    }
}

impl<O> LirSolver for GpuSolver<O> {
    fn name(&self) -> (n: &'static str)
        ensures
            n@ == "gpu-oriented-lir"@,
    {
        "gpu-oriented-lir"
    }

    fn category(&self) -> (c: AlgorithmCategory)
        ensures
            c == AlgorithmCategory::Oriented,
    {
        AlgorithmCategory::Oriented
    }

    fn precision(&self) -> (p: AlgorithmPrecision)
        ensures
            p == AlgorithmPrecision::Approx,
    {
        AlgorithmPrecision::Approx
    }

    fn speed(&self) -> (s: AlgorithmSpeed)
        ensures
            s == AlgorithmSpeed::Fast,
    {
        AlgorithmSpeed::Fast
    }

    fn polygon_type(&self) -> (t: Option<PolygonType>)
        ensures
            t is None,
    {
        None
    }
}

} // verus!
