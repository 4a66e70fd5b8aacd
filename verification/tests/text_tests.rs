use ige_core::cli::{
    axis_solver_name, flag_value, mask_backend_from_name, mask_backend_name, parse_axis_solver,
    parse_point_solver, point_solver_from_name, simd_status, default_obstacle_flags, AxisCliSolver,
    MaskBackend, ObstacleFlags, PointCliSolver,
};
use ige_core::render::{complexity_from_ring_lengths, format_complexity, format_decimal, mic_styles, styles, ComplexityMetrics};

fn args(v: &[&str]) -> Vec<String> {
    v.iter().map(|s| s.to_string()).collect()
}

#[test]
fn point_solver_flag() {
    assert_eq!(parse_point_solver(&args(&[])), PointCliSolver::Dc);
    assert_eq!(parse_point_solver(&args(&["--point-solver", "plane"])), PointCliSolver::Planar);
    assert_eq!(parse_point_solver(&args(&["x", "--point-solver", "sweep"])), PointCliSolver::Sweep);
    assert_eq!(parse_point_solver(&args(&["--point-solver", "bogus"])), PointCliSolver::Dc);
    assert_eq!(parse_point_solver(&args(&["--point-solver"])), PointCliSolver::Dc);
    assert_eq!(point_solver_from_name(&"divideconquer".to_string()), Some(PointCliSolver::Dc));
    assert_eq!(point_solver_from_name(&"nope".to_string()), None);
}

#[test]
fn axis_solver_flag() {
    assert_eq!(parse_axis_solver(&args(&[])), AxisCliSolver::Vertex);
    assert_eq!(parse_axis_solver(&args(&["--axis-solver", "exact"])), AxisCliSolver::Exact);
    assert_eq!(parse_axis_solver(&args(&["--axis-solver", "vertex_grid"])), AxisCliSolver::Vertex);
    assert_eq!(parse_axis_solver(&args(&["--axis-solver", "exact", "--baseline-grid"])), AxisCliSolver::Grid);
    assert_eq!(parse_axis_solver(&args(&["--axis-solver", "zzz"])), AxisCliSolver::Vertex);
}

#[test]
fn first_flag_occurrence_wins() {
    let a = args(&["--file", "a.json", "--file", "b.json"]);
    assert_eq!(flag_value(&a, "--file"), Some("a.json".to_string()));
    assert_eq!(flag_value(&a, "--lines"), None);
}

#[test]
fn names() {
    assert_eq!(axis_solver_name(AxisCliSolver::Grid), "grid");
    assert_eq!(mask_backend_name(MaskBackend::GpuGridBatch), "cpu");
    assert_eq!(mask_backend_name(MaskBackend::GpuSdf), "cpu");
    assert_eq!(mask_backend_name(MaskBackend::Auto), "cpu");
    assert_eq!(mask_backend_name(MaskBackend::Cpu), "cpu");
    assert_eq!(mask_backend_from_name(&"gpu-sdf".to_string()), Some(MaskBackend::GpuSdf));
    assert_eq!(mask_backend_from_name(&"x".to_string()), None);
    assert_eq!(simd_status(), "");
}

#[test]
fn obstacle_flags() {
    let f = default_obstacle_flags(true);
    assert!(f.lines && !f.points && !f.polygons);
    assert!(f.any());
    assert!(default_obstacle_flags(false).points);
    assert!(!ObstacleFlags { points: false, lines: false, polygons: false }.any());
}

#[test]
fn decimal_formatting() {
    assert_eq!(format_decimal(0), "0");
    assert_eq!(format_decimal(7), "7");
    assert_eq!(format_decimal(1234567890), "1234567890");
    assert_eq!(format_decimal(usize::MAX), usize::MAX.to_string());
}

#[test]
fn complexity_of_square_with_hole() {
    let m = complexity_from_ring_lengths(5, &vec![4]);
    assert_eq!(m.exterior_vertices, 4);
    assert_eq!(m.hole_count, 1);
    assert_eq!(m.total_hole_vertices, 3);
    assert_eq!(m.total_segments, 7);
    assert_eq!(format_complexity(&m), "4 verts · 7 segs · 1 holes");
}

#[test]
fn complexity_text_variants() {
    let plain = complexity_from_ring_lengths(5, &vec![]);
    assert_eq!(format_complexity(&plain), "4 verts · 4 segs");
    let with_reflex = ComplexityMetrics { reflex_vertices: Some(2), ..plain };
    assert_eq!(format_complexity(&with_reflex), "4 verts · 4 segs · 2 reflex");
    let zero_reflex = ComplexityMetrics { reflex_vertices: Some(0), ..plain };
    assert_eq!(format_complexity(&zero_reflex), "4 verts · 4 segs");
    assert_eq!(complexity_from_ring_lengths(0, &vec![0]).exterior_vertices, 0);
}

#[test]
fn style_sheets() {
    assert!(styles().starts_with("body{font-family"));
    assert!(styles().contains(".rect{fill:rgba(66,133,244,.4)"));
    assert!(mic_styles().contains(".mic-geos{"));
    assert!(mic_styles().ends_with(".stats strong{color:#fff}"));
}
