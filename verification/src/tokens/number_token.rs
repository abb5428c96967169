//! The value of a JSON number.

use vstd::prelude::*;

verus! {

/// Ten to the power `n`.
pub open spec fn pow10(n: nat) -> nat
    decreases n,
{
    if n == 0 {
        1
    } else {
        10 * pow10((n - 1) as nat)
    }
}

/// A number that was written with a decimal point, kept digit for digit: the
/// value is `(integer + fraction / 10^fraction_digits) * 10^exponent`, negated
/// where `negative` is set.
#[derive(Debug, Clone, Copy, PartialEq, Eq, Structural)]
pub struct Decimal {
    /// Whether a minus sign stands before the number.
    pub negative: bool,
    /// The digits before the decimal point, read as one number.
    pub integer: i64,
    /// The digits behind the decimal point, read as one number.
    pub fraction: i64,
    /// How many digits stand behind the decimal point, leading zeros included.
    pub fraction_digits: u64,
    /// The power of ten by which the number is scaled.
    pub exponent: i64,
}

impl Decimal {
    /// All the digits of the number read as one natural number, the decimal
    /// point left out.
    pub open spec fn digits(self) -> int {
        self.integer * pow10(self.fraction_digits as nat) + self.fraction
    }

    /// The power of ten that `digits` has to be multiplied by: the number's
    /// magnitude is `digits * 10^scale`.
    pub open spec fn scale(self) -> int {
        self.exponent - self.fraction_digits
    }

    /// Neither part is negative, and the fraction has no more digits than
    /// were counted.
    pub open spec fn wf(self) -> bool {
        &&& self.integer >= 0
        &&& self.fraction >= 0
        &&& self.fraction < pow10(self.fraction_digits as nat)
    }
}

/// A number token: an exact integer where the text had neither a decimal point
/// nor an exponent, a decimal otherwise.
#[derive(Debug, Clone, Copy, PartialEq, Eq, Structural)]
pub enum NumberToken {
    Integer(i64),
    Float(Decimal),
}

} // verus!
