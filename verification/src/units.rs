//! Values that several parts of the library share.

use vstd::prelude::*;

verus! {

/// A fraction. It is kept as it was computed, neither reduced nor rounded.
#[derive(Clone, Copy, PartialEq, Eq, Structural, Debug)]
pub struct Ratio {
    pub num: i128,
    pub den: i128,
}

/// A pair of coordinates.
#[derive(PartialEq, Eq, Structural, Debug)]
pub struct XY<T> {
    pub x: T,
    pub y: T,
}

} // verus!
