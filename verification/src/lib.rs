//! Looping full-screen terminal visual effects with a centered caption.
//!
//! The crate is organised around a small fixed-point arithmetic core:
//! every per-cell computation (colors, waves, fractal escape counts)
//! is carried out on scaled 64-bit integers so that the whole rendering
//! engine can be verified. Terminal I/O, argument parsing and timing
//! live outside the library; the library computes frames, diffs and
//! the exact escape sequences to emit.

pub mod buffer;
pub mod caption;
pub mod cli;
pub mod color;
pub mod driver;
pub mod explosion;
pub mod fixed;
pub mod mandelbrot;
pub mod rainbow;
pub mod render;
pub mod terminal;
pub mod waves;
