//! Planning for a spectral ocean surface.
//!
//! The surface is synthesised from a wave spectrum that is generated once,
//! advanced in time every frame and turned into heights by a two-dimensional
//! inverse fast Fourier transform, run as a sequence of data-parallel passes
//! over square textures. This crate holds every decision of that pipeline
//! that is made on integers: the grid sizes that are allowed, the butterfly
//! table, the order of the passes and the buffers they read and write, the
//! per-cell source addresses, the sign correction, the seed field and the
//! index list of the surface mesh. The arithmetic on real numbers is left to
//! whoever executes the passes.

pub mod camera;
pub mod error;
pub mod fft;
pub mod grid;
pub mod mesh;
pub mod noise;
pub mod ocean;
pub mod reversal;
pub mod scalar;
pub mod spectrum;
pub mod transform;
pub mod twiddle;
