//! Verified core of a stochastic path-tracing renderer.
//!
//! The renderer averages many random light paths per pixel and writes the
//! quantized result into one shared framebuffer, tile by tile.  This crate
//! holds the parts of that pipeline that are exact integer computations, with
//! machine-checked contracts:
//!
//! - [`random`]: the pseudo-random generator that drives every sample,
//!   with its state transition pinned down exactly (same seed, same stream);
//! - [`chunk`]: packed 24-bit RGB colors, and the tile grid together with a
//!   proof that the tiles cover every pixel of the image exactly once;
//! - [`framebuffer`]: the shared row-major output buffer, whose writes are
//!   proved to touch exactly the addressed pixel;
//! - [`perlin`]: the gradient-noise permutation tables, proved to be
//!   permutations so that every lattice lookup stays in bounds.
//!
//! The floating-point geometry (rays, bounding boxes, materials, the
//! integrator) lives outside this crate and feeds plain integers in and out.

pub mod chunk;
pub mod framebuffer;
pub mod perlin;
pub mod random;
