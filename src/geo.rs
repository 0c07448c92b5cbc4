//! Geographic coordinates and the affine transform of a raster.
//!
//! Coordinates and transform coefficients are double-precision floats held as
//! their IEEE-754 binary64 bit patterns. Comparisons follow IEEE-754: a NaN
//! compares false with everything, and the two zeros are equal.

use vstd::prelude::*;
use vstd::string::StringSliceAdditionalSpecFns;

verus! {

/// The sign bit of a binary64 bit pattern.
pub const SIGN_BIT: u64 = 0x8000_0000_0000_0000;

/// The bit pattern of positive infinity; magnitudes above it are NaNs.
pub const INFINITY_BITS: u64 = 0x7ff0_0000_0000_0000;

/// The bit pattern of positive zero.
pub const ZERO_BITS: u64 = 0;

pub open spec fn is_nan(b: u64) -> bool {
    b % SIGN_BIT > INFINITY_BITS
}

/// A key that orders non-NaN bit patterns as their float values are ordered:
/// the magnitude, negated when the sign bit is set.
pub open spec fn order_key(b: u64) -> int {
    if b >= SIGN_BIT {
        -((b - SIGN_BIT) as int)
    } else {
        b as int
    }
}

/// `a <= b` on the float values.
pub open spec fn float_le(a: u64, b: u64) -> bool {
    !is_nan(a) && !is_nan(b) && order_key(a) <= order_key(b)
}

/// `a < b` on the float values.
pub open spec fn float_lt(a: u64, b: u64) -> bool {
    !is_nan(a) && !is_nan(b) && order_key(a) < order_key(b)
}

/// `a == b` on the float values.
pub open spec fn float_eq(a: u64, b: u64) -> bool {
    !is_nan(a) && !is_nan(b) && order_key(a) == order_key(b)
}

/// Float `<=` on two bit patterns.
pub fn le(a: u64, b: u64) -> (r: bool)
    ensures
        r == float_le(a, b),
{
    if a % SIGN_BIT > INFINITY_BITS || b % SIGN_BIT > INFINITY_BITS {
        false
    } else if a >= SIGN_BIT {
        if b >= SIGN_BIT {
            a >= b
        } else {
            true
        }
    } else if b >= SIGN_BIT {
        a == 0 && b == SIGN_BIT
    } else {
        a <= b
    }
}

/// Float `<` on two bit patterns.
pub fn lt(a: u64, b: u64) -> (r: bool)
    ensures
        r == float_lt(a, b),
{
    le(a, b) && !le(b, a)
}

/// Float `==` on two bit patterns.
pub fn eq(a: u64, b: u64) -> (r: bool)
    ensures
        r == float_eq(a, b),
{
    le(a, b) && le(b, a)
}

/// A geographic point: longitude and latitude as binary64 bit patterns.
#[derive(Clone, Copy, Debug, PartialEq, Eq)]
pub struct Coords {
    pub lng: u64,
    pub lat: u64,
}

/// A pixel index, truncated from the continuous transform.
#[derive(Clone, Copy, Debug, PartialEq, Eq)]
pub struct PixelCoords {
    pub x: i32,
    pub y: i32,
}

/// The six affine coefficients `[origin_x, pixel_width, row_rotation,
/// origin_y, column_rotation, pixel_height]`, as binary64 bit patterns.
#[derive(Clone, Copy, Debug, PartialEq, Eq)]
pub struct GeoTransform {
    pub coefficients: [u64; 6],
}

impl GeoTransform {
    pub open spec fn spec_is_north_up(&self) -> bool {
        let c = self.coefficients@;
        &&& float_eq(c[2], ZERO_BITS)
        &&& float_eq(c[4], ZERO_BITS)
        &&& float_lt(ZERO_BITS, c[1])
        &&& float_lt(c[5], ZERO_BITS)
    }

    /// Whether the transform has no rotation, a positive pixel width and a
    /// negative pixel height.
    pub fn is_north_up(&self) -> (r: bool)
        ensures
            r == self.spec_is_north_up(),
    {
        eq(self.coefficients[2], ZERO_BITS) && eq(self.coefficients[4], ZERO_BITS) && lt(
            ZERO_BITS,
            self.coefficients[1],
        ) && lt(self.coefficients[5], ZERO_BITS)
    }

    /// The corner of the raster at pixel (0, 0): the origin of the transform.
    pub fn top_left(&self) -> (r: Coords)
        ensures
            r.lng == self.coefficients@[0],
            r.lat == self.coefficients@[3],
    {
        Coords { lng: self.coefficients[0], lat: self.coefficients[3] }
    }
}

/// A transform with a rotation that is not zero, a pixel width that is not
/// positive or a pixel height that is not negative is not north-up.
pub proof fn lemma_not_north_up(t: GeoTransform)
    requires
        !float_eq(t.coefficients@[2], ZERO_BITS) || !float_eq(t.coefficients@[4], ZERO_BITS)
            || float_le(t.coefficients@[1], ZERO_BITS) || float_le(ZERO_BITS, t.coefficients@[5]),
    ensures
        !t.spec_is_north_up(),
{
}

/// The closed box between two corners of a raster.
#[derive(Clone, Copy, Debug, PartialEq, Eq)]
pub struct Bounds {
    pub top_left: Coords,
    pub bottom_right: Coords,
}

impl Bounds {
    pub open spec fn spec_contains(&self, c: Coords) -> bool {
        &&& float_le(self.top_left.lng, c.lng)
        &&& float_le(c.lng, self.bottom_right.lng)
        &&& float_le(self.bottom_right.lat, c.lat)
        &&& float_le(c.lat, self.top_left.lat)
    }

    /// Whether the point lies in the box, all four edges included.
    pub fn contains(&self, coords: &Coords) -> (r: bool)
        ensures
            r == self.spec_contains(*coords),
    {
        le(self.top_left.lng, coords.lng) && le(coords.lng, self.bottom_right.lng) && le(
            self.bottom_right.lat,
            coords.lat,
        ) && le(coords.lat, self.top_left.lat)
    }
}

/// Containment is boundary-inclusive: where the box is not empty, its four
/// corners lie in it.
pub proof fn lemma_corners_contained(b: Bounds)
    requires
        float_le(b.top_left.lng, b.bottom_right.lng),
        float_le(b.bottom_right.lat, b.top_left.lat),
    ensures
        b.spec_contains(b.top_left),
        b.spec_contains(b.bottom_right),
        b.spec_contains(Coords { lng: b.top_left.lng, lat: b.bottom_right.lat }),
        b.spec_contains(Coords { lng: b.bottom_right.lng, lat: b.top_left.lat }),
{
}

/// A point left of the left edge, right of the right edge, below the bottom
/// edge or above the top edge is not contained.
pub proof fn lemma_outside_not_contained(b: Bounds, c: Coords)
    requires
        float_lt(c.lng, b.top_left.lng) || float_lt(b.bottom_right.lng, c.lng) || float_lt(
            c.lat,
            b.bottom_right.lat,
        ) || float_lt(b.top_left.lat, c.lat),
    ensures
        !b.spec_contains(c),
{
}

/// Where the text of an origin `"<lng>,<lat>"` splits: the byte position of
/// its first comma, or `None` when it has none.
pub fn comma_position(s: &str) -> (r: Option<usize>)
    ensures
        r is None <==> forall|j: int| 0 <= j < s.spec_bytes().len() ==> s.spec_bytes()[j] != 0x2cu8,
        r matches Some(i) ==> i < s.spec_bytes().len() && s.spec_bytes()[i as int] == 0x2cu8
            && forall|j: int| 0 <= j < i ==> s.spec_bytes()[j] != 0x2cu8,
{
    let bytes = s.as_bytes();
    let mut i: usize = 0;
    while i < bytes.len()
        invariant
            bytes@ == s.spec_bytes(),
            i <= bytes@.len(),
            forall|j: int| 0 <= j < i ==> bytes@[j] != 0x2cu8,
        decreases bytes@.len() - i,
    {
        if bytes[i] == 0x2cu8 {
            return Some(i);
        }
        i = i + 1;
    }
    None
}

} // verus!
