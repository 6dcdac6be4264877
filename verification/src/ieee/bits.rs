//! Numbers in their interchange encoding.

use vstd::arithmetic::power2::*;
use vstd::prelude::*;

use crate::ieee::arith::{
    difference, minus, over, plus, product, quotient, sum, times,
};
use crate::ieee::convert::{
    from_integer, integer, nearest_i32, round_to_i32, truncate, truncate_u8, truncated, truncated_u8,
};
use crate::ieee::format::{Float, Format};
use crate::ieee::order::{at_most, equal, is_at_most, is_equal, is_less, less};
use crate::ieee::root::{sqrt, square_root};
use crate::ieee::rounding::lemma_pow2_values;

verus! {

/// A binary64 number, by its bits.
#[derive(Clone, Copy, Debug)]
pub struct F64 {
    pub bits: u64,
}

/// A binary32 number, by its bits.
#[derive(Clone, Copy, Debug)]
pub struct F32 {
    pub bits: u32,
}

/// Datum of the fields of an encoding whose fraction has `fraction_bits` bits
/// and whose largest exponent field is `special`.
pub open spec fn decoded(
    negative: bool,
    exponent: nat,
    fraction: nat,
    fraction_bits: nat,
    special: nat,
) -> Float {
    if exponent == special {
        if fraction == 0 {
            Float::Infinite { negative }
        } else {
            Float::NotANumber
        }
    } else if exponent == 0 {
        Float::Finite { negative, significand: fraction as u64, scale: 0 }
    } else {
        Float::Finite {
            negative,
            significand: (pow2(fraction_bits) + fraction) as u64,
            scale: (exponent - 1) as u32,
        }
    }
}

impl View for F64 {
    type V = Float;

    /// The sign is the top bit, then eleven bits of exponent, then the fraction.
    open spec fn view(&self) -> Float {
        decoded(
            self.bits >= 0x8000_0000_0000_0000,
            ((self.bits / 0x10_0000_0000_0000) % 0x800) as nat,
            (self.bits % 0x10_0000_0000_0000) as nat,
            52,
            0x7ff,
        )
    }
}

impl View for F32 {
    type V = Float;

    /// The sign is the top bit, then eight bits of exponent, then the fraction.
    open spec fn view(&self) -> Float {
        decoded(
            self.bits >= 0x8000_0000,
            ((self.bits / 0x80_0000) % 0x100) as nat,
            (self.bits % 0x80_0000) as nat,
            23,
            0xff,
        )
    }
}

impl F64 {
    /// Every bit pattern encodes a datum of the format.
    pub proof fn lemma_valid(self)
        ensures
            self@.valid(Format::Binary64),
    {
        lemma_pow2_values();
    }

    /// The datum that the bits encode.
    pub fn decode(self) -> (r: Float)
        ensures
            r == self@,
            r.valid(Format::Binary64),
    {
        proof {
            self.lemma_valid();
            lemma_pow2_values();
        }
        let negative: bool = self.bits >= 0x8000_0000_0000_0000;
        let exponent: u64 = (self.bits / 0x10_0000_0000_0000) % 0x800;
        let fraction: u64 = self.bits % 0x10_0000_0000_0000;
        if exponent == 0x7ff {
            if fraction == 0 {
                Float::Infinite { negative }
            } else {
                Float::NotANumber
            }
        } else if exponent == 0 {
            Float::Finite { negative, significand: fraction, scale: 0 }
        } else {
            Float::Finite {
                negative,
                significand: 0x10_0000_0000_0000 + fraction,
                scale: (exponent - 1) as u32,
            }
        }
    }

    /// The encoding of a datum; not-a-number gets its quiet form.
    pub fn encode(a: Float) -> (r: F64)
        requires
            a.valid(Format::Binary64),
        ensures
            r@ == a,
    {
        proof {
            lemma_pow2_values();
        }
        match a {
            Float::NotANumber => F64 { bits: 0x7ff8_0000_0000_0000 },
            Float::Infinite { negative } => if negative {
                F64 { bits: 0xfff0_0000_0000_0000 }
            } else {
                F64 { bits: 0x7ff0_0000_0000_0000 }
            },
            Float::Finite { negative, significand, scale } => {
                let sign: u64 = if negative {
                    0x8000_0000_0000_0000
                } else {
                    0
                };
                if significand < 0x10_0000_0000_0000 {
                    F64 { bits: sign + significand }
                } else {
                    let exponent: u64 = scale as u64 + 1;
                    let fraction: u64 = significand - 0x10_0000_0000_0000;
                    F64 { bits: sign + exponent * 0x10_0000_0000_0000 + fraction }
                }
            },
        }
    }

    /// The number nearest to an integer.
    pub fn from_i32(n: i32) -> (r: F64)
        ensures
            r@ == from_integer(Format::Binary64, n as int),
    {
        F64::encode(integer(Format::Binary64, n as i64))
    }

    /// `self + other`.
    pub fn plus(self, other: F64) -> (r: F64)
        ensures
            r@ == sum(Format::Binary64, self@, other@),
    {
        F64::encode(plus(Format::Binary64, self.decode(), other.decode()))
    }

    /// `self - other`.
    pub fn minus(self, other: F64) -> (r: F64)
        ensures
            r@ == difference(Format::Binary64, self@, other@),
    {
        F64::encode(minus(Format::Binary64, self.decode(), other.decode()))
    }

    /// `self * other`.
    pub fn times(self, other: F64) -> (r: F64)
        ensures
            r@ == product(Format::Binary64, self@, other@),
    {
        F64::encode(times(Format::Binary64, self.decode(), other.decode()))
    }

    /// `self / other`.
    pub fn over(self, other: F64) -> (r: F64)
        ensures
            r@ == quotient(Format::Binary64, self@, other@),
    {
        F64::encode(over(Format::Binary64, self.decode(), other.decode()))
    }

    /// `self < other`.
    pub fn is_less(self, other: F64) -> (r: bool)
        ensures
            r == less(self@, other@),
    {
        is_less(Format::Binary64, self.decode(), other.decode())
    }

    /// `self <= other`.
    pub fn is_at_most(self, other: F64) -> (r: bool)
        ensures
            r == at_most(self@, other@),
    {
        is_at_most(Format::Binary64, self.decode(), other.decode())
    }

    /// `self == other`.
    pub fn is_equal(self, other: F64) -> (r: bool)
        ensures
            r == equal(self@, other@),
    {
        is_equal(Format::Binary64, self.decode(), other.decode())
    }

    /// Cast to `i32`.
    pub fn truncate(self) -> (r: i32)
        ensures
            r == truncated(Format::Binary64, self@),
    {
        truncate(Format::Binary64, self.decode())
    }

    /// Rounding to the nearest integer, then a cast to `i32`.
    pub fn round_to_i32(self) -> (r: i32)
        ensures
            r == nearest_i32(Format::Binary64, self@),
    {
        round_to_i32(Format::Binary64, self.decode())
    }
}

impl F32 {
    /// Every bit pattern encodes a datum of the format.
    pub proof fn lemma_valid(self)
        ensures
            self@.valid(Format::Binary32),
    {
        lemma_pow2_values();
    }

    /// The datum that the bits encode.
    pub fn decode(self) -> (r: Float)
        ensures
            r == self@,
            r.valid(Format::Binary32),
    {
        proof {
            self.lemma_valid();
            lemma_pow2_values();
        }
        let negative: bool = self.bits >= 0x8000_0000;
        let exponent: u32 = (self.bits / 0x80_0000) % 0x100;
        let fraction: u32 = self.bits % 0x80_0000;
        if exponent == 0xff {
            if fraction == 0 {
                Float::Infinite { negative }
            } else {
                Float::NotANumber
            }
        } else if exponent == 0 {
            Float::Finite { negative, significand: fraction as u64, scale: 0 }
        } else {
            Float::Finite {
                negative,
                significand: 0x80_0000 + fraction as u64,
                scale: exponent - 1,
            }
        }
    }

    /// The encoding of a datum; not-a-number gets its quiet form.
    pub fn encode(a: Float) -> (r: F32)
        requires
            a.valid(Format::Binary32),
        ensures
            r@ == a,
    {
        proof {
            lemma_pow2_values();
        }
        match a {
            Float::NotANumber => F32 { bits: 0x7fc0_0000 },
            Float::Infinite { negative } => if negative {
                F32 { bits: 0xff80_0000 }
            } else {
                F32 { bits: 0x7f80_0000 }
            },
            Float::Finite { negative, significand, scale } => {
                let sign: u32 = if negative {
                    0x8000_0000
                } else {
                    0
                };
                if significand < 0x80_0000 {
                    F32 { bits: sign + significand as u32 }
                } else {
                    let exponent: u32 = scale + 1;
                    let fraction: u32 = (significand - 0x80_0000) as u32;
                    F32 { bits: sign + exponent * 0x80_0000 + fraction }
                }
            },
        }
    }

    /// The number nearest to an integer.
    pub fn from_i64(n: i64) -> (r: F32)
        ensures
            r@ == from_integer(Format::Binary32, n as int),
    {
        F32::encode(integer(Format::Binary32, n))
    }

    /// `self + other`.
    pub fn plus(self, other: F32) -> (r: F32)
        ensures
            r@ == sum(Format::Binary32, self@, other@),
    {
        F32::encode(plus(Format::Binary32, self.decode(), other.decode()))
    }

    /// `self - other`.
    pub fn minus(self, other: F32) -> (r: F32)
        ensures
            r@ == difference(Format::Binary32, self@, other@),
    {
        F32::encode(minus(Format::Binary32, self.decode(), other.decode()))
    }

    /// `self * other`.
    pub fn times(self, other: F32) -> (r: F32)
        ensures
            r@ == product(Format::Binary32, self@, other@),
    {
        F32::encode(times(Format::Binary32, self.decode(), other.decode()))
    }

    /// `self / other`.
    pub fn over(self, other: F32) -> (r: F32)
        ensures
            r@ == quotient(Format::Binary32, self@, other@),
    {
        F32::encode(over(Format::Binary32, self.decode(), other.decode()))
    }

    /// The square root.
    pub fn sqrt(self) -> (r: F32)
        ensures
            r@ == square_root(Format::Binary32, self@),
    {
        F32::encode(sqrt(Format::Binary32, self.decode()))
    }

    /// `self <= other`.
    pub fn is_at_most(self, other: F32) -> (r: bool)
        ensures
            r == at_most(self@, other@),
    {
        is_at_most(Format::Binary32, self.decode(), other.decode())
    }

    /// Cast to `u8`.
    pub fn truncate_u8(self) -> (r: u8)
        ensures
            r == truncated_u8(Format::Binary32, self@),
    {
        truncate_u8(Format::Binary32, self.decode())
    }
}

} // verus!
