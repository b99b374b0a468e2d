//! Hex-grid territorial control: exact cube-coordinate geometry and a
//! fixed-point decay/diffusion simulation of faction influence.
pub mod coord;
pub mod rounding;
pub mod pixel;
pub mod line;
pub mod control;
pub mod grid;
pub mod ray;
pub mod laws;
