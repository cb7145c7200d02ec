//! A value constrained to the unit interval, held in fixed point as parts
//! per million. Everything written to it is clamped into the valid range at
//! construction; reads hand back the stored value unchanged.

use vstd::prelude::*;

verus! {

/// Fixed-point denominator: one unit is this many parts.
pub const UNIT: u32 = 1000000;

/// Half a unit: the center of the valid range.
pub const HALF_UNIT: u32 = 500000;

/// A raw signed value clamped into `[0, UNIT]`.
pub open spec fn clamp_unit(v: int) -> u32 {
    if v < 0 {
        0
    } else if v > UNIT {
        UNIT
    } else {
        v as u32
    }
}

/// A stored value scaled to a new maximum `m`, rounding to nearest.
pub open spec fn scale_unit(v: u32, m: nat) -> nat {
    (((v as int) * (m as int) + (HALF_UNIT as int)) / (UNIT as int)) as nat
}

/// Linear interpolation between two stored values at parameter `t`, rounding
/// to nearest.
pub open spec fn lerp_unit(a: u32, b: u32, t: u32) -> nat {
    (((a as int) * (UNIT - t) + (b as int) * (t as int) + (HALF_UNIT as int)) / (
    UNIT as int)) as nat
}

/// A value in the unit interval, as parts per million.
///
/// Operations never store anything outside `[0, UNIT]`: new values are
/// clamped when written, so a read needs no clamping of its own.
#[derive(Copy, Clone, Debug, PartialEq, Eq, Structural, PartialOrd, Ord, Hash)]
pub struct ClampedValue(u32);

impl ClampedValue {
    /// The stored number of parts per million.
    pub closed spec fn value_spec(&self) -> u32 {
        self.0
    }

    /// The stored value lies in the valid range; constructors establish this
    /// and every operation preserves it.
    pub open spec fn wf(&self) -> bool {
        self.value_spec() <= UNIT
    }

    /// Creates a value from raw parts per million, clamping into `[0, UNIT]`.
    pub fn new(value: i64) -> (r: Self)
        ensures
            r.value_spec() == clamp_unit(value as int),
            r.wf(),
    {
        if value < 0 {
            ClampedValue(0)
        } else if value > UNIT as i64 {
            ClampedValue(UNIT)
        } else {
            ClampedValue(value as u32)
        }
    }

    /// Overwrites the value with raw parts per million, clamping as `new`
    /// does.
    pub fn set(&mut self, value: i64)
        ensures
            final(self).value_spec() == clamp_unit(value as int),
            final(self).wf(),
    {
        *self = Self::new(value);
    }

    /// The stored parts per million, unclamped because never out of range.
    pub fn value(&self) -> (r: u32)
        ensures
            r == self.value_spec(),
    {
        self.0
    }

    /// Linear interpolation from this value to `other`; the parameter is
    /// clamped into the unit interval first.
    pub fn lerp(&self, other: &Self, t: i64) -> (r: Self)
        requires
            self.wf(),
            other.wf(),
        ensures
            r.value_spec() == lerp_unit(self.value_spec(), other.value_spec(), clamp_unit(t as int)),
            r.wf(),
    {
        let tc: u64 = Self::new(t).value() as u64;
        let a: u64 = self.0 as u64;
        let b: u64 = other.0 as u64;
        let s: u64 = UNIT as u64 - tc;
        proof {
            assert(a * s <= 1000000000000) by (nonlinear_arith)
                requires
                    a <= 1000000 && s <= 1000000,
            ;
            assert(b * tc <= 1000000000000) by (nonlinear_arith)
                requires
                    b <= 1000000 && tc <= 1000000,
            ;
        }
        let num: u64 = a * s + b * tc + HALF_UNIT as u64;
        let q: u64 = num / UNIT as u64;
        proof {
            lemma_scale_bounds_two(a as int, b as int, s as int, tc as int);
        }
        ClampedValue(q as u32)
    }

    /// The value scaled to one byte, rounding to nearest.
    pub fn to_u8(&self) -> (r: u8)
        requires
            self.wf(),
        ensures
            r as nat == scale_unit(self.value_spec(), 255),
    {
        self.scale(255) as u8
    }

    /// The value scaled to two bytes, rounding to nearest.
    pub fn to_u16(&self) -> (r: u16)
        requires
            self.wf(),
        ensures
            r as nat == scale_unit(self.value_spec(), 65535),
    {
        self.scale(65535) as u16
    }

    /// The value scaled to three bytes, rounding to nearest.
    pub fn to_u24(&self) -> (r: u32)
        requires
            self.wf(),
        ensures
            r as nat == scale_unit(self.value_spec(), 16777215),
    {
        self.scale(16777215) as u32
    }

    /// The value scaled to four bytes, rounding to nearest.
    pub fn to_u32(&self) -> (r: u32)
        requires
            self.wf(),
        ensures
            r as nat == scale_unit(self.value_spec(), 4294967295),
    {
        self.scale(4294967295) as u32
    }

    /// The value scaled to a representation of the given width in bytes.
    pub fn to_bytes(&self, bytes: usize) -> (r: u32)
        requires
            self.wf(),
            1 <= bytes <= 4,
        ensures
            bytes == 1 ==> r as nat == scale_unit(self.value_spec(), 255),
            bytes == 2 ==> r as nat == scale_unit(self.value_spec(), 65535),
            bytes == 3 ==> r as nat == scale_unit(self.value_spec(), 16777215),
            bytes == 4 ==> r as nat == scale_unit(self.value_spec(), 4294967295),
    {
        match bytes {
            1 => self.to_u8() as u32,
            2 => self.to_u16() as u32,
            3 => self.to_u24(),
            _ => self.to_u32(),
        }
    }

    fn scale(&self, m: u64) -> (r: u64)
        requires
            self.wf(),
            m <= 4294967295,
        ensures
            r as nat == scale_unit(self.value_spec(), m as nat),
            r <= m,
    {
        proof {
            assert((self.0 as u64) * m <= 4294967295000000) by (nonlinear_arith)
                requires
                    self.0 <= 1000000 && m <= 4294967295,
            ;
        }
        let num: u64 = (self.0 as u64) * m + HALF_UNIT as u64;
        let q: u64 = num / (UNIT as u64);
        proof {
            lemma_scale_bounds(self.0 as int, m as int);
        }
        q
    }
}

impl Default for ClampedValue {
    /// The zero value.
    fn default() -> (r: Self)
        ensures
            r.value_spec() == 0,
            r.wf(),
    {
        ClampedValue(0)
    }
}

proof fn lemma_scale_bounds(v: int, m: int)
    requires
        0 <= v <= UNIT,
        0 <= m,
    ensures
        0 <= (v * m + HALF_UNIT) / (UNIT as int) <= m,
{
    assert(0 <= v * m <= UNIT * m) by (nonlinear_arith)
        requires
            0 <= v <= UNIT && 0 <= m,
    ;
    assert((UNIT * m + HALF_UNIT) / (UNIT as int) == m) by (nonlinear_arith)
        requires
            0 <= m,
    ;
    assert((v * m + HALF_UNIT) / (UNIT as int) <= (UNIT * m + HALF_UNIT) / (UNIT as int)) by (
    nonlinear_arith)
        requires
            v * m <= UNIT * m,
    ;
    assert(0 <= (v * m + HALF_UNIT) / (UNIT as int)) by (nonlinear_arith)
        requires
            0 <= v * m,
    ;
}

proof fn lemma_scale_bounds_two(a: int, b: int, s: int, t: int)
    requires
        0 <= a <= UNIT,
        0 <= b <= UNIT,
        0 <= s,
        0 <= t,
        s + t == UNIT,
    ensures
        0 <= (a * s + b * t + HALF_UNIT) / (UNIT as int) <= UNIT,
{
    assert(0 <= a * s <= UNIT * s) by (nonlinear_arith)
        requires
            0 <= a <= UNIT && 0 <= s,
    ;
    assert(0 <= b * t <= UNIT * t) by (nonlinear_arith)
        requires
            0 <= b <= UNIT && 0 <= t,
    ;
    assert(UNIT * s + UNIT * t == UNIT * UNIT) by (nonlinear_arith)
        requires
            s + t == UNIT,
    ;
    assert((UNIT * UNIT + HALF_UNIT) / (UNIT as int) == UNIT) by (nonlinear_arith);
    assert((a * s + b * t + HALF_UNIT) / (UNIT as int) <= (UNIT * UNIT + HALF_UNIT) / (
    UNIT as int)) by (nonlinear_arith)
        requires
            a * s + b * t <= UNIT * UNIT,
    ;
    assert(0 <= (a * s + b * t + HALF_UNIT) / (UNIT as int)) by (nonlinear_arith)
        requires
            0 <= a * s + b * t,
    ;
}

} // verus!
