//! Rendering and refresh pipeline for 1-bit-per-pixel e-paper panels.
//!
//! The crate holds a packed pixel buffer, a tile-granular change tracker, a
//! rotation-aware drawing frame for nested containers, the primitive renderer
//! and the decisions of the refresh scheduler.
pub mod binary_change_tracker;
pub mod binary_framebuffer;
pub mod device_driver;
pub mod epd_driver;
pub mod geometry;
pub mod renderer;
pub mod stdout_driver;
pub mod tracker_laws;
