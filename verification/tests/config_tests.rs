use ige_core::cli::{AxisCliSolver, MaskBackend, ObstacleFlags, PointCliSolver};
use ige_core::config::{
    algo_name, list_entries, parse_obstacles_flag, parse_usize, select_obstacles, solve_mode,
    CliSwitches, SolveMode,
};

fn args(list: &[&str]) -> Vec<String> {
    list.iter().map(|s| s.to_string()).collect()
}

fn flags(f: ObstacleFlags) -> (bool, bool, bool) {
    (f.points, f.lines, f.polygons)
}

#[test]
fn parse_usize_reads_plain_and_signed_digits() {
    assert_eq!(parse_usize("42"), Some(42));
    assert_eq!(parse_usize("+7"), Some(7));
    assert_eq!(parse_usize("007"), Some(7));
    assert_eq!(parse_usize("0"), Some(0));
}

#[test]
fn parse_usize_refuses_other_texts() {
    assert_eq!(parse_usize(""), None);
    assert_eq!(parse_usize("+"), None);
    assert_eq!(parse_usize("-1"), None);
    assert_eq!(parse_usize("1a"), None);
    assert_eq!(parse_usize(" 5"), None);
    assert_eq!(parse_usize("1_000"), None);
}

#[test]
fn parse_usize_refuses_overflow() {
    let max = usize::MAX.to_string();
    assert_eq!(parse_usize(&max), Some(usize::MAX));
    let over = format!("{}0", max);
    assert_eq!(parse_usize(&over), None);
}

#[test]
fn parse_usize_agrees_with_std() {
    for s in ["12", "+12", "", "x", "99999999999999999999999", "3 ", "+-3", "0001"] {
        assert_eq!(parse_usize(s), s.parse::<usize>().ok(), "text {s:?}");
    }
}

#[test]
fn list_entries_lowercases_and_trims() {
    let e = list_entries("Points , LINES,x ");
    assert_eq!(e, vec!["points".to_string(), "lines".to_string(), "x".to_string()]);
}

#[test]
fn list_entries_keeps_empty_pieces() {
    assert_eq!(list_entries(""), vec!["".to_string()]);
    assert_eq!(list_entries("a,,b,"), args(&["a", "", "b", ""]));
}

#[test]
fn select_obstacles_names_and_all() {
    let c = select_obstacles(&args(&["lines", "polygon"]));
    assert_eq!(flags(c.flags), (false, true, true));
    assert!(!c.defaulted);
    assert!(c.unknown.is_empty());
    let c = select_obstacles(&args(&["all"]));
    assert_eq!(flags(c.flags), (true, true, true));
}

#[test]
fn select_obstacles_collects_unknown_and_defaults_to_points() {
    let c = select_obstacles(&args(&["none", "rivers", "x"]));
    assert_eq!(flags(c.flags), (true, false, false));
    assert!(c.defaulted);
    assert_eq!(c.unknown, args(&["rivers", "x"]));
}

#[test]
fn parse_obstacles_flag_reads_the_list() {
    let c = parse_obstacles_flag(&args(&["--obstacles", "Point, Lines"]), false);
    assert_eq!(flags(c.flags), (true, true, false));
    assert!(c.unknown.is_empty());
}

#[test]
fn parse_obstacles_flag_defaults_without_the_flag() {
    let c = parse_obstacles_flag(&args(&["--ler"]), false);
    assert_eq!(flags(c.flags), (true, false, false));
    let c = parse_obstacles_flag(&args(&["--ler"]), true);
    assert_eq!(flags(c.flags), (false, true, false));
    assert!(!c.defaulted);
}

#[test]
fn switches_from_args_collects_every_flag() {
    let a = args(&[
        "--ler", "--limit", "+12", "--file", "in.json", "--lines", "l.json", "--json",
        "--point-solver", "planar", "--axis-solver", "grid", "--baseline",
    ]);
    let s = CliSwitches::from_args(&a);
    assert!(s.use_ler && s.use_json);
    assert!(!s.use_mic_compare && !s.use_sa && !s.use_parallel);
    assert!(!s.use_approx_oriented);
    assert_eq!(s.limit, Some(12));
    assert_eq!(s.file_path.as_deref(), Some("in.json"));
    assert_eq!(s.lines_file_path.as_deref(), Some("l.json"));
    assert_eq!(s.polygons_file_path, None);
    assert_eq!(s.point_solver, PointCliSolver::Planar);
    assert_eq!(s.axis_solver, AxisCliSolver::Grid);
    assert_eq!(s.mask_backend, MaskBackend::Cpu);
    assert_eq!(flags(s.obstacle_flags), (false, true, false));
}

#[test]
fn switches_from_args_bad_limit_is_none() {
    let s = CliSwitches::from_args(&args(&["--limit", "ten"]));
    assert_eq!(s.limit, None);
    assert!(s.use_approx_oriented);
}

#[test]
fn algo_name_titles() {
    let base = CliSwitches::from_args(&args(&[]));
    assert_eq!(algo_name(&base), "LIR Approx Oriented");
    let s = CliSwitches::from_args(&args(&["--mic-compare", "--ler"]));
    assert_eq!(algo_name(&s), "MIC exact vs GEOS");
    let s = CliSwitches::from_args(&args(&["--sa", "--parallel"]));
    assert_eq!(algo_name(&s), "LIR Approx Oriented + SA + local angle polish");
    let s = CliSwitches::from_args(&args(&["--sa"]));
    assert_eq!(algo_name(&s), "LIR Approx Oriented + SA rescue");
    let s = CliSwitches::from_args(&args(&["--bootstrap-seeds", "--edge-anchored"]));
    assert_eq!(algo_name(&s), "LIR Approx Oriented + bootstrap seeds + edge-anchored");
    let s = CliSwitches::from_args(&args(&["--bootstrap-seeds", "--parallel"]));
    assert_eq!(algo_name(&s), "LIR Approx Oriented + bootstrap seeds + local angle polish");
    let s = CliSwitches::from_args(&args(&["--bootstrap-seeds"]));
    assert_eq!(algo_name(&s), "LIR Approx Oriented + bootstrap seeds");
    let s = CliSwitches::from_args(&args(&["--edge-anchored"]));
    assert_eq!(algo_name(&s), "LIR Approx Oriented + edge-anchored");
    let s = CliSwitches::from_args(&args(&["--parallel"]));
    assert_eq!(algo_name(&s), "LIR Approx Oriented + local angle polish");
}

#[test]
fn algo_name_axis_aligned_titles() {
    let s = CliSwitches::from_args(&args(&["--baseline"]));
    assert_eq!(algo_name(&s), "axis-aligned (solver=vertex)");
    let s = CliSwitches::from_args(&args(&["--baseline", "--axis-solver", "exact"]));
    assert_eq!(algo_name(&s), "axis-aligned (solver=exact)");
    let s = CliSwitches::from_args(&args(&["--baseline", "--baseline-grid"]));
    assert_eq!(algo_name(&s), "axis-aligned (solver=grid, mask=cpu)");
}

#[test]
fn algo_name_ler_titles() {
    let s = CliSwitches::from_args(&args(&["--ler"]));
    assert_eq!(algo_name(&s), "LER+points(dc)");
    let s = CliSwitches::from_args(&args(&["--ler", "--obstacles", "all", "--point-solver", "sweep"]));
    assert_eq!(algo_name(&s), "LER+points+lines+polygons");
    let s = CliSwitches::from_args(&args(&["--ler", "--obstacles", "polygons,lines"]));
    assert_eq!(algo_name(&s), "LER+lines+polygons");
    let s = CliSwitches::from_args(&args(&["--ler", "--obstacles", "point", "--point-solver", "planar"]));
    assert_eq!(algo_name(&s), "LER+points(planar)");
}

#[test]
fn list_entries_trims_unicode_white_space() {
    assert_eq!(list_entries("\u{3000}Lines\t,\u{a0}POLYGON\n"), args(&["lines", "polygon"]));
}

#[test]
fn grid_title_names_the_cpu_mask_for_every_backend() {
    let mut s = CliSwitches::from_args(&args(&["--baseline", "--axis-solver", "grid"]));
    for b in [MaskBackend::Cpu, MaskBackend::GpuSdf, MaskBackend::GpuGridBatch, MaskBackend::Auto] {
        s.mask_backend = b;
        assert_eq!(algo_name(&s), "axis-aligned (solver=grid, mask=cpu)");
    }
}

#[test]
fn solve_mode_dispatch() {
    let m = |list: &[&str]| solve_mode(&CliSwitches::from_args(&args(list)));
    assert_eq!(m(&["--ler", "--sa"]), SolveMode::EmptyRectangle);
    assert_eq!(m(&["--pca-axes"]), SolveMode::OrientedTuned);
    assert_eq!(m(&["--early-stop", "--baseline"]), SolveMode::OrientedTuned);
    assert_eq!(m(&[]), SolveMode::OrientedDefault);
    assert_eq!(m(&["--baseline"]), SolveMode::AxisVertex);
    assert_eq!(m(&["--baseline", "--axis-solver", "exact"]), SolveMode::AxisExact);
    assert_eq!(m(&["--baseline", "--baseline-grid"]), SolveMode::AxisGrid);
}

#[test]
fn list_entries_agrees_with_std_split_and_trim() {
    for v in ["a, b", "  ", "x\u{2003},\u{85}Y ", ",,", "\tpoints\r\n", "Lines"] {
        let expected: Vec<String> = v.to_lowercase().split(',').map(|p| p.trim().to_string()).collect();
        assert_eq!(list_entries(v), expected, "text {v:?}");
    }
}
