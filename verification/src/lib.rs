//! Discrete core of the Inscribed Geometry Engine: the integer and
//! combinatorial decisions of the largest-inscribed-rectangle and
//! maximum-inscribed-circle solvers, with their contracts.
pub mod histogram;
pub mod sobol;
pub mod rng;
pub mod rings;
pub mod shared;
pub mod mic;
pub mod capi;
pub mod tuning;
pub mod axis_aligned;
pub mod algorithms;
pub mod cli;
pub mod render;
pub mod oriented;
pub mod config;
