//! Double-precision numbers as the interpreter holds them.
//!
//! A number is carried as its IEEE-754 binary64 bit pattern together with its
//! decimal rendering. The interpreter orders and equates numbers through the
//! bits and prints them through the text. Arithmetic, and the conversion
//! between the two forms, belong to the embedding program.

use vstd::prelude::*;

verus! {

/// The sign bit of a binary64 pattern.
pub const SIGN: u64 = 0x8000_0000_0000_0000;

/// The exponent field with every bit set and an empty fraction: infinity.
pub const INFINITY: u64 = 0x7ff0_0000_0000_0000;

/// A double-precision number: bit pattern and decimal rendering.
#[derive(Debug)]
pub struct Number {
    pub bits: u64,
    pub text: String,
}

/// The mathematical model of a `Number`.
pub struct NumberView {
    pub bits: u64,
    pub text: Seq<char>,
}

impl View for Number {
    type V = NumberView;

    open spec fn view(&self) -> NumberView {
        NumberView { bits: self.bits, text: self.text@ }
    }
}

/// The pattern without its sign bit.
pub open spec fn magnitude(bits: u64) -> int {
    if bits >= SIGN {
        bits - SIGN
    } else {
        bits as int
    }
}

/// Whether the pattern is a NaN: full exponent, non-empty fraction.
pub open spec fn is_nan(bits: u64) -> bool {
    magnitude(bits) > INFINITY
}

/// Whether the pattern is positive or negative zero.
pub open spec fn is_zero(bits: u64) -> bool {
    magnitude(bits) == 0
}

/// A key that orders the patterns of non-NaN numbers as the numbers are
/// ordered: the magnitude, negated under the sign bit. Both zeros have key 0.
pub open spec fn order_key(bits: u64) -> int {
    if bits >= SIGN {
        -magnitude(bits)
    } else {
        magnitude(bits)
    }
}

/// IEEE equality: no NaN equals anything, the two zeros are equal.
pub open spec fn number_eq(a: u64, b: u64) -> bool {
    !is_nan(a) && !is_nan(b) && order_key(a) == order_key(b)
}

/// IEEE `<`: false when either side is a NaN.
pub open spec fn number_lt(a: u64, b: u64) -> bool {
    !is_nan(a) && !is_nan(b) && order_key(a) < order_key(b)
}

/// IEEE `<=`: false when either side is a NaN.
pub open spec fn number_le(a: u64, b: u64) -> bool {
    !is_nan(a) && !is_nan(b) && order_key(a) <= order_key(b)
}

fn magnitude_of(bits: u64) -> (m: u64)
    ensures
        m == magnitude(bits),
{
    if bits >= SIGN {
        bits - SIGN
    } else {
        bits
    }
}

impl Number {
    /// The number with these bits and this rendering.
    pub fn new(bits: u64, text: String) -> (n: Number)
        ensures
            n.bits == bits,
            n.text == text,
    {
        Number { bits, text }
    }

    /// A copy with the same bits and text.
    pub fn copy(&self) -> (n: Number)
        ensures
            n == *self,
    {
        Number { bits: self.bits, text: self.text.clone() }
    }

    /// Whether the number is a NaN.
    pub fn is_nan(&self) -> (r: bool)
        ensures
            r == is_nan(self.bits),
    {
        magnitude_of(self.bits) > INFINITY
    }

    /// Whether the number is positive or negative zero.
    pub fn is_zero(&self) -> (r: bool)
        ensures
            r == is_zero(self.bits),
    {
        magnitude_of(self.bits) == 0
    }

    /// `self == other` as IEEE defines it.
    pub fn equals(&self, other: &Number) -> (r: bool)
        ensures
            r == number_eq(self.bits, other.bits),
    {
        if self.is_nan() || other.is_nan() {
            return false;
        }
        if self.is_zero() && other.is_zero() {
            return true;
        }
        self.bits == other.bits
    }

    /// `self < other` as IEEE defines it.
    pub fn less(&self, other: &Number) -> (r: bool)
        ensures
            r == number_lt(self.bits, other.bits),
    {
        if self.is_nan() || other.is_nan() {
            return false;
        }
        let a = magnitude_of(self.bits);
        let b = magnitude_of(other.bits);
        if self.bits >= SIGN {
            if other.bits >= SIGN {
                a > b
            } else {
                a > 0 || b > 0
            }
        } else {
            if other.bits >= SIGN {
                false
            } else {
                a < b
            }
        }
    }

    /// `self <= other` as IEEE defines it.
    pub fn less_equal(&self, other: &Number) -> (r: bool)
        ensures
            r == number_le(self.bits, other.bits),
    {
        if self.is_nan() || other.is_nan() {
            return false;
        }
        let a = magnitude_of(self.bits);
        let b = magnitude_of(other.bits);
        if self.bits >= SIGN {
            if other.bits >= SIGN {
                a >= b
            } else {
                true
            }
        } else {
            if other.bits >= SIGN {
                a == 0 && b == 0
            } else {
                a <= b
            }
        }
    }
}

/// Equality is reflexive on everything but NaN, and symmetric.
pub proof fn number_eq_laws(a: u64, b: u64)
    ensures
        number_eq(a, a) <==> !is_nan(a),
        number_eq(a, b) <==> number_eq(b, a),
{
}

/// Of two numbers neither of which is a NaN, exactly one of `<`, `==`, `>`
/// holds, and `<=` is `<` or `==`.
pub proof fn number_order_laws(a: u64, b: u64)
    requires
        !is_nan(a),
        !is_nan(b),
    ensures
        number_lt(a, b) || number_eq(a, b) || number_lt(b, a),
        !(number_lt(a, b) && number_eq(a, b)),
        !(number_lt(a, b) && number_lt(b, a)),
        number_le(a, b) <==> number_lt(a, b) || number_eq(a, b),
{
}

} // verus!
