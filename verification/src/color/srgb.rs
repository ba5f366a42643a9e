//! Colors in the sRGB color space.
use vstd::prelude::*;

verus! {

/// A color with red, green and blue channels in the sRGB space.
#[derive(Clone, Copy, PartialEq, Eq, Debug)]
pub struct Srgb<T> {
    pub r: T,
    pub g: T,
    pub b: T,
}

impl<T> Srgb<T> {
    /// The color with the given channels.
    pub fn new(r: T, g: T, b: T) -> (c: Srgb<T>)
        ensures
            c.r == r,
            c.g == g,
            c.b == b,
    {
        Srgb { r: r, g: g, b: b }
    }
}

} // verus!
