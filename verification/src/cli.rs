//! Command-line vocabulary of the visualisation driver: solver choices,
//! obstacle selection and the flag lookups that pick them.
use vstd::prelude::*;

verus! {

/// Mask builder used by the grid solvers.
#[derive(Debug, Clone, Copy, PartialEq, Eq, Structural)]
pub enum MaskBackend {
    Cpu,
    GpuSdf,
    GpuGridBatch,
    Auto,
}

/// Axis-aligned solver chosen on the command line.
#[derive(Debug, Clone, Copy, PartialEq, Eq, Structural)]
pub enum AxisCliSolver {
    Vertex,
    Exact,
    Grid,
}

/// Which point-sweep algorithm to use for points-only obstacle mode.
#[derive(Debug, Clone, Copy, PartialEq, Eq, Structural)]
pub enum PointCliSolver {
    /// Sweep-line over x-candidates (works with mixed obstacles).
    Sweep,
    /// Plane-sweep (points only).
    Planar,
    /// Exact divide-and-conquer (points only).
    Dc,
}

/// Which obstacle types are active for the empty-rectangle mode.
#[derive(Debug, Clone, Copy)]
pub struct ObstacleFlags {
    pub points: bool,
    pub lines: bool,
    pub polygons: bool,
}

impl ObstacleFlags {
    pub fn any(&self) -> (b: bool)
        ensures
            b == (self.points || self.lines || self.polygons),
    {
        self.points || self.lines || self.polygons
    }
}

/// Human-readable backend name for display in titles and logs. This build
/// has only the CPU mask builder, so every backend is shown as `cpu`.
pub fn mask_backend_name(_backend: MaskBackend) -> (s: &'static str)
    ensures
        s@ == "cpu"@,
{
    "cpu"
}

/// Human-readable solver name for display in titles and logs.
pub fn axis_solver_name(solver: AxisCliSolver) -> (s: &'static str)
    ensures
        s@ == match solver {
            AxisCliSolver::Vertex => "vertex"@,
            AxisCliSolver::Exact => "exact"@,
            AxisCliSolver::Grid => "grid"@,
        },
{
    match solver {
        AxisCliSolver::Vertex => "vertex",
        AxisCliSolver::Exact => "exact",
        AxisCliSolver::Grid => "grid",
    }
}

/// Suffix naming the SIMD distance kernels in titles; this build runs the
/// scalar kernels.
pub fn simd_status() -> (s: &'static str)
    ensures
        s@ == ""@,
{
    ""
}

/// The strings' character sequences.
pub open spec fn views(args: Seq<String>) -> Seq<Seq<char>> {
    args.map_values(|a: String| a@)
}

/// Index of the first occurrence of `flag` at or after `from`, or the
/// length when there is none.
pub open spec fn first_index(args: Seq<Seq<char>>, flag: Seq<char>, from: int) -> int
    decreases args.len() - from,
{
    if from >= args.len() {
        args.len() as int
    } else if args[from] == flag {
        from
    } else {
        first_index(args, flag, from + 1)
    }
}

/// The argument that follows the first occurrence of `flag`, if any.
pub open spec fn flag_value_of(args: Seq<Seq<char>>, flag: Seq<char>) -> Option<Seq<char>> {
    let i = first_index(args, flag, 0);
    if i + 1 < args.len() {
        Some(args[i + 1])
    } else {
        None
    }
}

proof fn lemma_first_index_skip(args: Seq<Seq<char>>, flag: Seq<char>, i: int)
    requires
        0 <= i <= args.len(),
        forall|k: int| 0 <= k < i ==> args[k] != flag,
    ensures
        first_index(args, flag, 0) == first_index(args, flag, i),
    decreases i,
{
    if i > 0 {
        lemma_first_index_skip(args, flag, i - 1);
    }
}

pub(crate) fn str_is(s: &String, lit: &str) -> (b: bool)
    ensures
        b == (s@ == lit@),
{
    let t = lit.to_owned();
    s.eq(&t)
}

/// The argument that follows the first occurrence of `flag`, if any.
pub fn flag_value(args: &Vec<String>, flag: &str) -> (v: Option<String>)
    ensures
        match flag_value_of(views(args@), flag@) {
            Some(x) => v matches Some(s) && s@ == x,
            None => v is None,
        },
{
    let ghost av = views(args@);
    let mut i: usize = 0;
    while i < args.len()
        invariant
            av == views(args@),
            0 <= i <= args.len(),
            forall|k: int| 0 <= k < i ==> av[k] != flag@,
        decreases args.len() - i,
    {
        if str_is(&args[i], flag) {
            proof {
                lemma_first_index_skip(av, flag@, i as int);
            }
            if i + 1 < args.len() {
                return Some(args[i + 1].clone());
            } else {
                return None;
            }
        }
        i = i + 1;
    }
    proof {
        lemma_first_index_skip(av, flag@, i as int);
    }
    None
}

/// Whether `flag` occurs among the arguments.
pub fn has_flag(args: &Vec<String>, flag: &str) -> (b: bool)
    ensures
        b == views(args@).contains(flag@),
{
    let ghost av = views(args@);
    let mut i: usize = 0;
    while i < args.len()
        invariant
            av == views(args@),
            0 <= i <= args.len(),
            forall|k: int| 0 <= k < i ==> av[k] != flag@,
        decreases args.len() - i,
    {
        if str_is(&args[i], flag) {
            assert(av[i as int] == flag@);
            return true;
        }
        i = i + 1;
    }
    false
}

/// Point solver named by a `--point-solver` value.
pub open spec fn point_solver_named(v: Seq<char>) -> Option<PointCliSolver> {
    if v == "planar"@ || v == "plane"@ || v == "planesweep"@ {
        Some(PointCliSolver::Planar)
    } else if v == "dc"@ || v == "divide"@ || v == "divideconquer"@ {
        Some(PointCliSolver::Dc)
    } else if v == "sweep"@ {
        Some(PointCliSolver::Sweep)
    } else {
        None
    }
}

/// Point solver named by a `--point-solver` value.
pub fn point_solver_from_name(v: &String) -> (r: Option<PointCliSolver>)
    ensures
        r == point_solver_named(v@),
{
    if str_is(v, "planar") || str_is(v, "plane") || str_is(v, "planesweep") {
        Some(PointCliSolver::Planar)
    } else if str_is(v, "dc") || str_is(v, "divide") || str_is(v, "divideconquer") {
        Some(PointCliSolver::Dc)
    } else if str_is(v, "sweep") {
        Some(PointCliSolver::Sweep)
    } else {
        None
    }
}

/// Point solver that the arguments select: the one `--point-solver` names,
/// `dc` without the flag or for a name it does not know.
pub open spec fn point_solver_choice(args: Seq<Seq<char>>) -> PointCliSolver {
    match flag_value_of(args, "--point-solver"@) {
        Some(v) => match point_solver_named(v) {
            Some(s) => s,
            None => PointCliSolver::Dc,
        },
        None => PointCliSolver::Dc,
    }
}

/// Point solver selected by `--point-solver` (default and fallback: `dc`).
pub fn parse_point_solver(args: &Vec<String>) -> (r: PointCliSolver)
    ensures
        r == point_solver_choice(views(args@)),
{
    match flag_value(args, "--point-solver") {
        Some(v) => match point_solver_from_name(&v) {
            Some(s) => s,
            None => PointCliSolver::Dc,
        },
        None => PointCliSolver::Dc,
    }
}

/// Axis solver named by an `--axis-solver` value.
pub open spec fn axis_solver_named(v: Seq<char>) -> Option<AxisCliSolver> {
    if v == "vertex"@ || v == "vertex_grid"@ {
        Some(AxisCliSolver::Vertex)
    } else if v == "exact"@ {
        Some(AxisCliSolver::Exact)
    } else if v == "grid"@ {
        Some(AxisCliSolver::Grid)
    } else {
        None
    }
}

/// Axis solver named by an `--axis-solver` value.
pub fn axis_solver_from_name(v: &String) -> (r: Option<AxisCliSolver>)
    ensures
        r == axis_solver_named(v@),
{
    if str_is(v, "vertex") || str_is(v, "vertex_grid") {
        Some(AxisCliSolver::Vertex)
    } else if str_is(v, "exact") {
        Some(AxisCliSolver::Exact)
    } else if str_is(v, "grid") {
        Some(AxisCliSolver::Grid)
    } else {
        None
    }
}

/// Axis solver that the arguments select: the legacy `--baseline-grid` flag
/// forces the grid solver, otherwise the one `--axis-solver` names, `vertex`
/// without the flag or for a name it does not know.
pub open spec fn axis_solver_choice(args: Seq<Seq<char>>) -> AxisCliSolver {
    if args.contains("--baseline-grid"@) {
        AxisCliSolver::Grid
    } else {
        match flag_value_of(args, "--axis-solver"@) {
            Some(v) => match axis_solver_named(v) {
                Some(s) => s,
                None => AxisCliSolver::Vertex,
            },
            None => AxisCliSolver::Vertex,
        }
    }
}

/// Axis solver selected by the arguments: the legacy `--baseline-grid` flag
/// forces the grid solver, otherwise `--axis-solver` decides (default and
/// fallback: `vertex`).
pub fn parse_axis_solver(args: &Vec<String>) -> (r: AxisCliSolver)
    ensures
        r == axis_solver_choice(views(args@)),
{
    if has_flag(args, "--baseline-grid") {
        return AxisCliSolver::Grid;
    }
    match flag_value(args, "--axis-solver") {
        Some(v) => match axis_solver_from_name(&v) {
            Some(s) => s,
            None => AxisCliSolver::Vertex,
        },
        None => AxisCliSolver::Vertex,
    }
}

/// Mask backend named by a `--mask-backend` value.
pub open spec fn mask_backend_named(v: Seq<char>) -> Option<MaskBackend> {
    if v == "cpu"@ {
        Some(MaskBackend::Cpu)
    } else if v == "gpu-sdf"@ {
        Some(MaskBackend::GpuSdf)
    } else if v == "gpu-grid"@ {
        Some(MaskBackend::GpuGridBatch)
    } else if v == "auto"@ {
        Some(MaskBackend::Auto)
    } else {
        None
    }
}

/// Mask backend named by a `--mask-backend` value.
pub fn mask_backend_from_name(v: &String) -> (r: Option<MaskBackend>)
    ensures
        r == mask_backend_named(v@),
{
    if str_is(v, "cpu") {
        Some(MaskBackend::Cpu)
    } else if str_is(v, "gpu-sdf") {
        Some(MaskBackend::GpuSdf)
    } else if str_is(v, "gpu-grid") {
        Some(MaskBackend::GpuGridBatch)
    } else if str_is(v, "auto") {
        Some(MaskBackend::Auto)
    } else {
        None
    }
}

/// Default obstacle selection: lines when a lines file is given, points
/// otherwise.
pub fn default_obstacle_flags(has_lines_file: bool) -> (f: ObstacleFlags)
    ensures
        f.points == !has_lines_file,
        f.lines == has_lines_file,
        !f.polygons,
{
    if has_lines_file {
        ObstacleFlags { points: false, lines: true, polygons: false }
    } else {
        ObstacleFlags { points: true, lines: false, polygons: false }
    }
}

/// The name `--point-solver` takes for each point solver.
pub open spec fn point_solver_flag_text(p: PointCliSolver) -> Seq<char> {
    match p {
        PointCliSolver::Planar => "planar"@,
        PointCliSolver::Sweep => "sweep"@,
        PointCliSolver::Dc => "dc"@,
    }
}

/// Appending `flag value` to arguments that do not hold `flag` makes
/// `value` the flag's value.
pub proof fn lemma_appended_flag_value(args: Seq<Seq<char>>, flag: Seq<char>, value: Seq<char>)
    requires
        !args.contains(flag),
    ensures
        flag_value_of(args + seq![flag, value], flag) == Some(value),
{
    let all = args + seq![flag, value];
    assert forall|k: int| 0 <= k < args.len() implies all[k] != flag by {
        assert(all[k] == args[k]);
    }
    lemma_first_index_skip(all, flag, args.len() as int);
    assert(all[args.len() as int] == flag);
    assert(all[args.len() as int + 1] == value);
}

/// A flag that does not occur has no value.
pub proof fn lemma_absent_flag_value(args: Seq<Seq<char>>, flag: Seq<char>)
    requires
        !args.contains(flag),
    ensures
        flag_value_of(args, flag) is None,
{
    lemma_first_index_skip(args, flag, args.len() as int);
}

/// Each point solver's own name selects it, and naming the default solver
/// explicitly selects what leaving the flag out selects.
pub proof fn lemma_point_solver_names(p: PointCliSolver, args: Seq<Seq<char>>)
    ensures
        point_solver_named(point_solver_flag_text(p)) == Some(p),
        !args.contains("--point-solver"@) ==> point_solver_choice(args + seq![
            "--point-solver"@,
            "dc"@,
        ]) == point_solver_choice(args),
{
    reveal_strlit("planar");
    reveal_strlit("plane");
    reveal_strlit("planesweep");
    reveal_strlit("dc");
    reveal_strlit("divide");
    reveal_strlit("divideconquer");
    reveal_strlit("sweep");
    assert("planar"@.len() == 6 && "plane"@.len() == 5 && "planesweep"@.len() == 10);
    assert("dc"@.len() == 2 && "divide"@.len() == 6 && "divideconquer"@.len() == 13);
    assert("sweep"@.len() == 5);
    assert("planar"@ != "divide"@) by {
        assert("planar"@[0] != "divide"@[0]);
    }
    assert("sweep"@ != "plane"@) by {
        assert("sweep"@[0] != "plane"@[0]);
    }
    assert(point_solver_named("dc"@) == Some(PointCliSolver::Dc));
    if !args.contains("--point-solver"@) {
        lemma_appended_flag_value(args, "--point-solver"@, "dc"@);
        lemma_absent_flag_value(args, "--point-solver"@);
    }
}

/// The long spellings of the point solvers select what the short ones do.
pub proof fn lemma_point_solver_aliases()
    ensures
        point_solver_named("plane"@) == Some(PointCliSolver::Planar),
        point_solver_named("planesweep"@) == Some(PointCliSolver::Planar),
        point_solver_named("divide"@) == Some(PointCliSolver::Dc),
        point_solver_named("divideconquer"@) == Some(PointCliSolver::Dc),
{
    reveal_strlit("planar");
    reveal_strlit("plane");
    reveal_strlit("planesweep");
    reveal_strlit("dc");
    reveal_strlit("divide");
    reveal_strlit("divideconquer");
    assert("planar"@.len() == 6 && "plane"@.len() == 5 && "planesweep"@.len() == 10);
    assert("dc"@.len() == 2 && "divide"@.len() == 6 && "divideconquer"@.len() == 13);
    assert("planar"@ != "divide"@) by {
        assert("planar"@[0] != "divide"@[0]);
    }
}

/// `vertex_grid` selects the vertex solver, as `vertex` does.
pub proof fn lemma_axis_solver_alias()
    ensures
        axis_solver_named("vertex_grid"@) == Some(AxisCliSolver::Vertex),
{
    reveal_strlit("vertex");
    reveal_strlit("vertex_grid");
}

} // verus!
