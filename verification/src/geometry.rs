//! Plain-value geometry and paint primitives carried through the command
//! stream.
//!
//! Coordinates are integer layout units (the boundary shell chooses the
//! pixel-to-unit scale); fractional quantities such as opacity and gradient
//! stop offsets use the same `UNIT_ONE` fixed-point scale. Transform matrix
//! entries are carried as opaque 32-bit patterns: the library never computes
//! on them, it only moves them across the boundary unchanged.

use vstd::prelude::*;

verus! {

/// Fixed-point scale: this many units represent 1.0.
pub const UNIT_ONE: i32 = 65536;

#[derive(Clone, Copy, PartialEq, Eq, Structural, Debug)]
pub struct IntPoint {
    pub x: i32,
    pub y: i32,
}

impl IntPoint {
    pub fn new(x: i32, y: i32) -> (r: IntPoint)
        ensures
            r == (IntPoint { x, y }),
    {
        IntPoint { x, y }
    }
}

#[derive(Clone, Copy, PartialEq, Eq, Structural, Debug)]
pub struct IntSize {
    pub width: i32,
    pub height: i32,
}

impl IntSize {
    pub fn new(width: i32, height: i32) -> (r: IntSize)
        ensures
            r == (IntSize { width, height }),
    {
        IntSize { width, height }
    }

    pub fn zero() -> (r: IntSize)
        ensures
            r == (IntSize { width: 0, height: 0 }),
    {
        IntSize { width: 0, height: 0 }
    }
}

#[derive(Clone, Copy, PartialEq, Eq, Structural, Debug)]
pub struct IntRect {
    pub x: i32,
    pub y: i32,
    pub width: i32,
    pub height: i32,
}

impl IntRect {
    pub fn new(x: i32, y: i32, width: i32, height: i32) -> (r: IntRect)
        ensures
            r == (IntRect { x, y, width, height }),
    {
        IntRect { x, y, width, height }
    }

    pub fn zero() -> (r: IntRect)
        ensures
            r == (IntRect { x: 0, y: 0, width: 0, height: 0 }),
    {
        IntRect { x: 0, y: 0, width: 0, height: 0 }
    }
}

/// Offsets from the four edges of a rectangle.
#[derive(Clone, Copy, PartialEq, Eq, Structural, Debug)]
pub struct SideOffsets {
    pub top: i32,
    pub right: i32,
    pub bottom: i32,
    pub left: i32,
}

impl SideOffsets {
    pub fn new(top: i32, right: i32, bottom: i32, left: i32) -> (r: SideOffsets)
        ensures
            r == (SideOffsets { top, right, bottom, left }),
    {
        SideOffsets { top, right, bottom, left }
    }
}

/// A color with 8-bit channels.
#[derive(Clone, Copy, PartialEq, Eq, Structural, Debug)]
pub struct ColorValue {
    pub r: u8,
    pub g: u8,
    pub b: u8,
    pub a: u8,
}

impl ColorValue {
    pub fn new(r: u8, g: u8, b: u8, a: u8) -> (c: ColorValue)
        ensures
            c == (ColorValue { r, g, b, a }),
    {
        ColorValue { r, g, b, a }
    }
}

/// A 4x4 transform, row major. Each entry is the 32-bit pattern of the
/// boundary's floating-point value; the library carries the patterns
/// unchanged and never interprets them numerically.
#[derive(Clone, Copy, PartialEq, Eq, Structural, Debug)]
pub struct TransformMatrix {
    pub m00: u32,
    pub m01: u32,
    pub m02: u32,
    pub m03: u32,
    pub m10: u32,
    pub m11: u32,
    pub m12: u32,
    pub m13: u32,
    pub m20: u32,
    pub m21: u32,
    pub m22: u32,
    pub m23: u32,
    pub m30: u32,
    pub m31: u32,
    pub m32: u32,
    pub m33: u32,
}

impl TransformMatrix {
    /// All entries zero; stands in where no literal transform is supplied.
    pub fn zero() -> (r: TransformMatrix)
        ensures
            r == TransformMatrix::zero_spec(),
    {
        TransformMatrix {
            m00: 0, m01: 0, m02: 0, m03: 0,
            m10: 0, m11: 0, m12: 0, m13: 0,
            m20: 0, m21: 0, m22: 0, m23: 0,
            m30: 0, m31: 0, m32: 0, m33: 0,
        }
    }

    pub open spec fn zero_spec() -> TransformMatrix {
        TransformMatrix {
            m00: 0, m01: 0, m02: 0, m03: 0,
            m10: 0, m11: 0, m12: 0, m13: 0,
            m20: 0, m21: 0, m22: 0, m23: 0,
            m30: 0, m31: 0, m32: 0, m33: 0,
        }
    }
}

} // verus!
