//! The invocation parameters an animation run is given.

use vstd::prelude::*;

verus! {

/// The visual styles on offer, one per effect generator.
#[derive(Clone, Copy, Debug, PartialEq, Eq, Structural)]
pub enum AnimationStyle {
    Rainbow,
    Explosion,
    Waves,
    WavesGradient,
    Mandelbrot,
    MandelbrotMatrix,
    MandelbrotFast,
}

/// One animation invocation: a style, a caption (which may be empty)
/// and a total duration in milliseconds, where zero means "run until
/// cancelled".
#[derive(Clone, Debug)]
pub struct Args {
    pub style: AnimationStyle,
    pub text: String,
    pub duration: u64,
}

} // verus!
