use ige_core::algorithms::{AxisAlignedSolver, GpuSolver, LirSolver, OrientedSolver};
use ige_core::axis_aligned::{capped_coords, subdivision_levels, uses_exact_cell_test};
use ige_core::capi::{
    component_index_to_raw, coord_count_is_valid, mic_engine_from_raw, pair_coords,
    robust_mode_from_raw, used_engine_to_raw, IgeMicOptions,
};
use ige_core::mic::{iteration_budget, uses_fast_paths, MicEngine, MicOptions, MicUsedEngine, RobustMode};
use ige_core::oriented::angle_steps;
use ige_core::shared::{
    polygon_type_of, AlgorithmCategory, AlgorithmPrecision, AlgorithmSpeed, LirError, PolygonType,
};

#[test]
fn mic_defaults_match_c_defaults() {
    let c = IgeMicOptions::default();
    let o = MicOptions::default();
    assert_eq!(mic_engine_from_raw(c.engine), o.engine);
    assert_eq!(robust_mode_from_raw(c.robust_mode), o.robust_mode);
}

#[test]
fn raw_codes() {
    assert_eq!(mic_engine_from_raw(0), MicEngine::ExactOnly);
    assert_eq!(mic_engine_from_raw(1), MicEngine::FallbackOnly);
    assert_eq!(mic_engine_from_raw(2), MicEngine::ExactThenGeos);
    assert_eq!(mic_engine_from_raw(-7), MicEngine::ExactThenGeos);
    assert_eq!(robust_mode_from_raw(0), RobustMode::FastF64);
    assert_eq!(robust_mode_from_raw(9), RobustMode::Filtered);
    assert_eq!(used_engine_to_raw(MicUsedEngine::Exact), 0);
    assert_eq!(used_engine_to_raw(MicUsedEngine::GeosFallback), 1);
    assert_eq!(used_engine_to_raw(MicUsedEngine::Grid), 2);
    assert_eq!(component_index_to_raw(None), -1);
    assert_eq!(component_index_to_raw(Some(3)), 3);
}

#[test]
fn coordinate_buffer_validation() {
    assert!(!coord_count_is_valid(4));
    assert!(!coord_count_is_valid(7));
    assert!(coord_count_is_valid(6));
    assert!(coord_count_is_valid(10));
    let flat = [0.0, 1.0, 2.0, 3.0, 4.0, 5.0];
    assert_eq!(pair_coords(&flat), vec![(0.0, 1.0), (2.0, 3.0), (4.0, 5.0)]);
}

#[test]
fn fast_paths_only_for_exact_engines() {
    assert!(uses_fast_paths(MicEngine::ExactOnly));
    assert!(uses_fast_paths(MicEngine::ExactThenGeos));
    assert!(!uses_fast_paths(MicEngine::FallbackOnly));
}

#[test]
fn grid_iteration_budget_is_clamped() {
    assert_eq!(iteration_budget(0), 100);
    assert_eq!(iteration_budget(50), 500);
    assert_eq!(iteration_budget(1_000_000), 100_000);
}

#[test]
fn polygon_types() {
    assert_eq!(polygon_type_of(true, false), PolygonType::ConvexNoHoles);
    assert_eq!(polygon_type_of(true, true), PolygonType::ConvexWithHoles);
    assert_eq!(polygon_type_of(false, false), PolygonType::ConcaveNoHoles);
    assert_eq!(polygon_type_of(false, true), PolygonType::ConcaveWithHoles);
}

#[test]
fn solver_metadata() {
    let a = AxisAlignedSolver::new(5u8);
    assert_eq!(a.name(), "axis-aligned-cpu");
    assert_eq!(a.category(), AlgorithmCategory::AxisAligned);
    assert_eq!(a.speed(), AlgorithmSpeed::Standard);
    assert_eq!(*a.opts(), 5u8);
    let o = OrientedSolver::new("opts");
    assert_eq!(o.name(), "oriented-cpu");
    assert_eq!(o.category(), AlgorithmCategory::Oriented);
    assert_eq!(o.precision(), AlgorithmPrecision::Approx);
    assert_eq!(o.speed(), AlgorithmSpeed::Fast);
    assert!(o.polygon_type().is_none());
    let g = GpuSolver::new(());
    assert_eq!(g.name(), "gpu-oriented-lir");
    match g.solve::<(), u8>(&()) {
        Err(LirError::NotSupported(m)) => assert_eq!(m, "GPU solver not yet implemented"),
        _ => panic!("expected NotSupported"),
    }
}

#[test]
fn vertex_grid_subdivision() {
    assert_eq!(subdivision_levels(3), 4);
    assert_eq!(subdivision_levels(4), 4);
    assert_eq!(subdivision_levels(5), 2);
    assert_eq!(subdivision_levels(16), 2);
    assert_eq!(subdivision_levels(17), 1);
    assert!(uses_exact_cell_test(16));
    assert!(!uses_exact_cell_test(17));
}

#[test]
fn capped_coords_subsamples_long_axes() {
    let mut short: Vec<u32> = (0..250).collect();
    capped_coords(&mut short);
    assert_eq!(short.len(), 250);
    let mut long: Vec<u32> = (0..501).collect();
    capped_coords(&mut long);
    assert_eq!(long.len(), 250);
    assert_eq!(long[0], 0);
    assert_eq!(long[1], 2);
    assert_eq!(long[249], 498);
}

#[test]
fn regular_angle_ladder() {
    let a = angle_steps(5, 5);
    assert_eq!(a.len(), 17);
    assert_eq!(a[0], 5);
    assert_eq!(a[16], 85);
    assert_eq!(angle_steps(0, 30), vec![0, 30, 60]);
    assert!(angle_steps(95, 1).is_empty());
    assert_eq!(angle_steps(89, 1000), vec![89]);
}
