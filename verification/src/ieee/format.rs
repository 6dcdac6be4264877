//! The two interchange formats and the numbers they hold.

use vstd::arithmetic::power2::pow2;
use vstd::prelude::*;

verus! {

/// An IEEE 754 binary interchange format.
#[derive(Clone, Copy, PartialEq, Eq, Structural, Debug)]
pub enum Format {
    Binary32,
    Binary64,
}

impl Format {
    /// Bits of the significand, the leading one included.
    pub open spec fn precision(self) -> nat {
        match self {
            Format::Binary32 => 24,
            Format::Binary64 => 53,
        }
    }

    /// The smallest positive number of the format is `2^-unit`; every finite
    /// number is a whole multiple of it.
    pub open spec fn unit(self) -> nat {
        match self {
            Format::Binary32 => 149,
            Format::Binary64 => 1074,
        }
    }

    /// The largest scale of a finite number.
    pub open spec fn max_scale(self) -> nat {
        match self {
            Format::Binary32 => 253,
            Format::Binary64 => 2045,
        }
    }
}

/// A floating-point datum. A finite one stands for
/// `(-1)^negative * significand * 2^scale` units of its format.
#[derive(Clone, Copy, Debug)]
pub enum Float {
    NotANumber,
    Infinite { negative: bool },
    Finite { negative: bool, significand: u64, scale: u32 },
}

impl Float {
    /// The datum is one of the format's, in its only representation.
    pub open spec fn valid(self, format: Format) -> bool {
        match self {
            Float::Finite { negative, significand, scale } => {
                &&& significand < pow2(format.precision())
                &&& scale <= format.max_scale()
                &&& scale > 0 ==> pow2((format.precision() - 1) as nat) <= significand
            },
            _ => true,
        }
    }

    /// Magnitude of a finite datum in units of the format.
    pub open spec fn units(self) -> nat {
        match self {
            Float::Finite { negative, significand, scale } => significand as nat * pow2(
                scale as nat,
            ),
            _ => 0,
        }
    }

    /// Sign bit; not-a-number counts as positive.
    pub open spec fn is_negative(self) -> bool {
        match self {
            Float::Finite { negative, significand, scale } => negative,
            Float::Infinite { negative } => negative,
            Float::NotANumber => false,
        }
    }

    /// Value of a finite datum in units of the format.
    pub open spec fn value(self) -> int {
        if self.is_negative() {
            -(self.units() as int)
        } else {
            self.units() as int
        }
    }
}

} // verus!
