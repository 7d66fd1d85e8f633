use vstd::prelude::*;

verus! {

/// A length or coordinate measured in physical device pixels.
#[derive(Clone, Copy, PartialEq, Eq, Debug, Hash, Structural)]
pub struct DevicePixels(pub i32);

impl DevicePixels {
    /// The number of bytes that a row of this many pixels occupies (the length read as an
    /// unsigned 32-bit number).
    pub fn to_bytes(self, bytes_per_pixel: u8) -> (r: u32)
        requires
            (self.0 as u32) * bytes_per_pixel <= u32::MAX,
        ensures
            r == (self.0 as u32) * bytes_per_pixel,
    {
        (#[verifier::truncate] (self.0 as u32)) * bytes_per_pixel as u32
    }
}

/// A point in device pixels.
#[derive(Clone, Copy, PartialEq, Eq, Debug, Hash, Structural)]
pub struct Point {
    pub x: DevicePixels,
    pub y: DevicePixels,
}

/// A width and a height in device pixels.
#[derive(Clone, Copy, PartialEq, Eq, Debug, Hash, Structural)]
pub struct Size {
    pub width: DevicePixels,
    pub height: DevicePixels,
}

/// A rectangle given by its top-left corner and its size.
#[derive(Clone, Copy, PartialEq, Eq, Debug, Hash, Structural)]
pub struct Bounds {
    pub origin: Point,
    pub size: Size,
}

pub open spec fn min_i32(a: i32, b: i32) -> i32 {
    if a <= b { a } else { b }
}

pub open spec fn max_i32(a: i32, b: i32) -> i32 {
    if a >= b { a } else { b }
}

impl Size {
    /// The componentwise minimum of two sizes.
    pub fn min(&self, other: &Size) -> (r: Size)
        ensures
            r.width.0 == min_i32(self.width.0, other.width.0),
            r.height.0 == min_i32(self.height.0, other.height.0),
    {
        Size {
            width: if self.width.0 <= other.width.0 { self.width } else { other.width },
            height: if self.height.0 <= other.height.0 { self.height } else { other.height },
        }
    }

    /// The componentwise maximum of two sizes.
    pub fn max(&self, other: &Size) -> (r: Size)
        ensures
            r.width.0 == max_i32(self.width.0, other.width.0),
            r.height.0 == max_i32(self.height.0, other.height.0),
    {
        Size {
            width: if self.width.0 >= other.width.0 { self.width } else { other.width },
            height: if self.height.0 >= other.height.0 { self.height } else { other.height },
        }
    }
}

impl Bounds {
    pub fn left(&self) -> (r: DevicePixels)
        ensures
            r == self.origin.x,
    {
        self.origin.x
    }

    pub fn top(&self) -> (r: DevicePixels)
        ensures
            r == self.origin.y,
    {
        self.origin.y
    }

    pub fn right(&self) -> (r: DevicePixels)
        requires
            i32::MIN <= self.origin.x.0 + self.size.width.0 <= i32::MAX,
        ensures
            r.0 == self.origin.x.0 + self.size.width.0,
    {
        DevicePixels(self.origin.x.0 + self.size.width.0)
    }

    pub fn bottom(&self) -> (r: DevicePixels)
        requires
            i32::MIN <= self.origin.y.0 + self.size.height.0 <= i32::MAX,
        ensures
            r.0 == self.origin.y.0 + self.size.height.0,
    {
        DevicePixels(self.origin.y.0 + self.size.height.0)
    }
}

} // verus!
