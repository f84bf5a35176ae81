//! IEEE 754 numbers by their bit patterns.
//!
//! Volumes and parameter values are floating-point numbers at the edges of the
//! program. Here they are carried as the bits of those numbers, which is enough
//! to tell what they are and to compare them.

use vstd::prelude::*;

verus! {

/// A double-precision number.
#[derive(Clone, Copy, Debug, PartialEq, Eq, Structural)]
pub struct Real64 {
    pub bits: u64,
}

/// A single-precision number.
#[derive(Clone, Copy, Debug, PartialEq, Eq, Structural)]
pub struct Real32 {
    pub bits: u32,
}

/// The bits of 0.0.
pub const ZERO_64: u64 = 0;

/// The bits of 0.5.
pub const HALF_64: u64 = 0x3fe0_0000_0000_0000;

/// The bits of 0.75.
pub const THREE_QUARTERS_64: u64 = 0x3fe8_0000_0000_0000;

/// The bits of 1.0.
pub const ONE_64: u64 = 0x3ff0_0000_0000_0000;

/// The bits of 0.0 in single precision.
pub const ZERO_32: u32 = 0;

/// The bits of 0.5 in single precision.
pub const HALF_32: u32 = 0x3f00_0000;

/// The bits of 1.0 in single precision.
pub const ONE_32: u32 = 0x3f80_0000;

impl Real64 {
    /// The place of a number among all numbers: the bits without the sign,
    /// which grow with the magnitude, counted downwards for negative numbers.
    /// Both zeros have the same place.
    pub open spec fn place(self) -> int {
        if self.bits < 0x8000_0000_0000_0000 {
            self.bits as int
        } else {
            0x8000_0000_0000_0000 - self.bits
        }
    }

    /// Whether the bits stand for no number at all.
    pub open spec fn not_a_number(self) -> bool {
        self.place() > 0x7ff0_0000_0000_0000 || self.place() < -0x7ff0_0000_0000_0000
    }

    /// The numeric order. What is not a number is not ordered.
    pub open spec fn below(self, other: Real64) -> bool {
        !self.not_a_number() && !other.not_a_number() && self.place() < other.place()
    }

    /// The number itself between the bounds, else the bound it passed. What
    /// is not a number stays what it is.
    pub open spec fn clamped(self, low: Real64, high: Real64) -> Real64 {
        if self.below(low) {
            low
        } else if high.below(self) {
            high
        } else {
            self
        }
    }

    /// A number between 0.0 and 1.0.
    pub open spec fn within_unit(self) -> bool {
        0 <= self.place() <= ONE_64
    }

    /// A volume held between 0.0 and 1.0.
    pub open spec fn unit(self) -> Real64 {
        self.clamped(Real64 { bits: ZERO_64 }, Real64 { bits: ONE_64 })
    }

    fn is_nan(self) -> (yes: bool)
        ensures
            yes == self.not_a_number(),
    {
        if self.bits < 0x8000_0000_0000_0000 {
            self.bits > 0x7ff0_0000_0000_0000
        } else {
            self.bits > 0xfff0_0000_0000_0000
        }
    }

    /// Whether this number is less than another.
    pub fn less(self, other: Real64) -> (yes: bool)
        ensures
            yes == self.below(other),
    {
        if self.is_nan() || other.is_nan() {
            return false;
        }
        if self.bits < 0x8000_0000_0000_0000 {
            other.bits < 0x8000_0000_0000_0000 && self.bits < other.bits
        } else if other.bits < 0x8000_0000_0000_0000 {
            self.bits > 0x8000_0000_0000_0000 || other.bits > 0
        } else {
            self.bits > other.bits
        }
    }

    /// Holds a volume between 0.0 and 1.0.
    pub fn clamp_unit(self) -> (out: Real64)
        ensures
            out == self.unit(),
    {
        let low = Real64 { bits: ZERO_64 };
        let high = Real64 { bits: ONE_64 };
        if self.less(low) {
            low
        } else if high.less(self) {
            high
        } else {
            self
        }
    }
}

impl Real32 {
    /// The place of a number among all numbers, as for double precision.
    pub open spec fn place(self) -> int {
        if self.bits < 0x8000_0000 {
            self.bits as int
        } else {
            0x8000_0000 - self.bits
        }
    }

    /// Whether the bits stand for no number at all.
    pub open spec fn not_a_number(self) -> bool {
        self.place() > 0x7f80_0000 || self.place() < -0x7f80_0000
    }

    /// Whether the bits stand for a number other than the infinities.
    pub open spec fn finite(self) -> bool {
        -0x7f80_0000 < self.place() < 0x7f80_0000
    }

    /// The numeric order. What is not a number is not ordered.
    pub open spec fn below(self, other: Real32) -> bool {
        !self.not_a_number() && !other.not_a_number() && self.place() < other.place()
    }

    /// The number itself between the bounds, else the bound it passed.
    pub open spec fn clamped(self, low: Real32, high: Real32) -> Real32 {
        if self.below(low) {
            low
        } else if high.below(self) {
            high
        } else {
            self
        }
    }

    fn is_nan(self) -> (yes: bool)
        ensures
            yes == self.not_a_number(),
    {
        if self.bits < 0x8000_0000 {
            self.bits > 0x7f80_0000
        } else {
            self.bits > 0xff80_0000
        }
    }

    /// Whether this is a number other than the infinities.
    pub fn is_finite(self) -> (yes: bool)
        ensures
            yes == self.finite(),
    {
        if self.bits < 0x8000_0000 {
            self.bits < 0x7f80_0000
        } else {
            self.bits < 0xff80_0000
        }
    }

    /// Whether this number is less than another.
    pub fn less(self, other: Real32) -> (yes: bool)
        ensures
            yes == self.below(other),
    {
        if self.is_nan() || other.is_nan() {
            return false;
        }
        if self.bits < 0x8000_0000 {
            other.bits < 0x8000_0000 && self.bits < other.bits
        } else if other.bits < 0x8000_0000 {
            self.bits > 0x8000_0000 || other.bits > 0
        } else {
            self.bits > other.bits
        }
    }

    /// Holds the number between two bounds.
    pub fn clamp(self, low: Real32, high: Real32) -> (out: Real32)
        ensures
            out == self.clamped(low, high),
    {
        if self.less(low) {
            low
        } else if high.less(self) {
            high
        } else {
            self
        }
    }
}

/// A volume that is a number ends up between 0.0 and 1.0, one that lay there
/// stays what it was, and holding a volume twice is holding it once.
pub proof fn law_unit_volume(v: Real64)
    ensures
        !v.not_a_number() ==> v.unit().within_unit(),
        v.within_unit() ==> v.unit() == v,
        v.unit().unit() == v.unit(),
{
}

/// A volume below 0.0 is held at 0.0, one above 1.0 at 1.0, and what is not a
/// number stays what it is.
pub proof fn law_volume_bounds(v: Real64)
    ensures
        v.below(Real64 { bits: 0 }) ==> v.unit().bits == 0,
        (Real64 { bits: 0x3ff0_0000_0000_0000 }).below(v) ==> v.unit().bits
            == 0x3ff0_0000_0000_0000,
        v.not_a_number() ==> v.unit() == v,
        !v.below(Real64 { bits: 0 }) && !(Real64 { bits: 0x3ff0_0000_0000_0000 }).below(v)
            ==> v.unit() == v,
{
}

/// A number that is held between two bounds is the lower where it was below
/// that, the upper where it was above that, and else what it was.
pub proof fn law_clamp(v: Real32, low: Real32, high: Real32)
    ensures
        v.below(low) ==> v.clamped(low, high) == low,
        !v.below(low) && high.below(v) ==> v.clamped(low, high) == high,
        !v.below(low) && !high.below(v) ==> v.clamped(low, high) == v,
{
}

/// Numbers of a sign are ordered by the rest of their bits, downwards where the
/// sign is negative, and negative numbers come before the others. Both zeros
/// are the same number, and what is not a number has no place in the order.
pub proof fn law_number_order(a: u64, b: u64)
    requires
        a <= 0x7ff0_0000_0000_0000,
        b <= 0x7ff0_0000_0000_0000,
    ensures
        ({
            let minus_a = Real64 { bits: (a + 0x8000_0000_0000_0000) as u64 };
            let minus_b = Real64 { bits: (b + 0x8000_0000_0000_0000) as u64 };
            &&& (Real64 { bits: a }).below(Real64 { bits: b }) == (a < b)
            &&& minus_a.below(minus_b) == (b < a)
            &&& minus_a.below(Real64 { bits: b }) == (a > 0 || b > 0)
            &&& !(Real64 { bits: a }).below(minus_b)
        }),
        forall|v: Real64, w: Real64|
            (0x7ff0_0000_0000_0000 < v.bits < 0x8000_0000_0000_0000 || v.bits
                > 0xfff0_0000_0000_0000) ==> !(#[trigger] v.below(w)) && !w.below(v),
{
}

/// The order of single-precision numbers, in the same way.
pub proof fn law_single_order(a: u32, b: u32)
    requires
        a <= 0x7f80_0000,
        b <= 0x7f80_0000,
    ensures
        ({
            let minus_a = Real32 { bits: (a + 0x8000_0000) as u32 };
            let minus_b = Real32 { bits: (b + 0x8000_0000) as u32 };
            &&& (Real32 { bits: a }).below(Real32 { bits: b }) == (a < b)
            &&& minus_a.below(minus_b) == (b < a)
            &&& minus_a.below(Real32 { bits: b }) == (a > 0 || b > 0)
            &&& !(Real32 { bits: a }).below(minus_b)
            &&& (Real32 { bits: a }).finite() == (a < 0x7f80_0000)
            &&& minus_a.finite() == (a < 0x7f80_0000)
        }),
        forall|v: Real32, w: Real32|
            (0x7f80_0000 < v.bits < 0x8000_0000 || v.bits > 0xff80_0000) ==> !(#[trigger] v.below(
                w,
            )) && !w.below(v) && !v.finite(),
{
}

} // verus!
