//! Verified core of a multithreaded path tracer: the per-pixel job list, the
//! collector that assembles finished pixels into an RGB image, the progress
//! report, and the bounce-budget control of the radiance integrator.
pub mod canvas;
pub mod frame;
pub mod integrator;
pub mod progress;
