//! Scores, scale bounds and amounts of money as plain values.
//!
//! A [`Number`] is an IEEE 754 binary64 value by its bit pattern, together with
//! the texts that a message and a JSON document show for it. The order of such
//! values is decided on the bits, in integers.

use vstd::prelude::*;

verus! {

/// A binary64 value: its bit pattern, and the texts it is shown as.
#[derive(Debug, Clone, PartialEq, Eq)]
pub struct Number {
    /// The bit pattern: sign, eleven exponent bits, fifty-two fraction bits.
    pub bits: u64,
    /// The decimal text a message shows for the value.
    pub text: String,
    /// The text a JSON document holds for the value: with a fraction, also where it is a
    /// whole number.
    pub json: String,
}

/// The bit pattern of positive infinity.
pub const INFINITY: u64 = 0x7ff0_0000_0000_0000;

/// The bit pattern of ten.
pub const TEN: u64 = 0x4024_0000_0000_0000;

/// Whether the pattern stands for no number at all.
pub open spec fn is_nan(bits: u64) -> bool {
    (if bits >= 0x8000_0000_0000_0000u64 {
        bits - 0x8000_0000_0000_0000u64
    } else {
        bits as int
    }) > 0x7ff0_0000_0000_0000u64
}

/// The place of a value in the order of the numbers: the exponent and fraction
/// read as one integer, negated under the sign bit. Both zeros have rank zero.
pub open spec fn rank(bits: u64) -> int {
    if bits >= 0x8000_0000_0000_0000u64 {
        -(bits - 0x8000_0000_0000_0000u64)
    } else {
        bits as int
    }
}

/// Whether `a` is a number greater than the number `b`.
pub open spec fn above(a: u64, b: u64) -> bool {
    !is_nan(a) && !is_nan(b) && rank(a) > rank(b)
}

fn magnitude(bits: u64) -> (m: u64)
    ensures
        m == if bits >= 0x8000_0000_0000_0000u64 {
            bits - 0x8000_0000_0000_0000u64
        } else {
            bits as int
        },
{
    if bits >= 0x8000_0000_0000_0000u64 {
        bits - 0x8000_0000_0000_0000u64
    } else {
        bits
    }
}

/// Whether the pattern stands for no number at all.
pub fn nan(bits: u64) -> (r: bool)
    ensures
        r == is_nan(bits),
{
    magnitude(bits) > 0x7ff0_0000_0000_0000u64
}

/// Whether `a` is a number greater than the number `b`.
pub fn greater(a: u64, b: u64) -> (r: bool)
    ensures
        r == above(a, b),
{
    if nan(a) || nan(b) {
        return false;
    }
    let a_negative = a >= 0x8000_0000_0000_0000u64;
    let b_negative = b >= 0x8000_0000_0000_0000u64;
    let (x, y): (u64, u64) = (magnitude(a), magnitude(b));
    if a_negative {
        b_negative && x < y
    } else if b_negative {
        x > 0 || y > 0
    } else {
        x > y
    }
}

impl Number {
    /// A value by its bit pattern and its texts.
    pub fn new(bits: u64, text: &str, json: &str) -> (n: Self)
        ensures
            n.bits == bits,
            n.text@ == text@,
            n.json@ == json@,
    {
        Number { bits, text: text.to_owned(), json: json.to_owned() }
    }

    /// The same value once more.
    pub fn copied(&self) -> (n: Self)
        ensures
            n == *self,
    {
        Number { bits: self.bits, text: self.text.clone(), json: self.json.clone() }
    }
}

/// **No number is no number**: a pattern stands for none exactly when its exponent bits are
/// all set and its fraction is not zero.
pub proof fn lemma_what_is_no_number(bits: u64, r: bool)
    requires
        call_ensures(nan, (bits,), r),
    ensures
        r <==> (bits & 0x7ff0_0000_0000_0000u64) == 0x7ff0_0000_0000_0000u64 && (bits
            & 0x000f_ffff_ffff_ffffu64) != 0,
{
    assert(bits >= 0x8000_0000_0000_0000u64 ==> (((bits - 0x8000_0000_0000_0000u64)
        > 0x7ff0_0000_0000_0000u64) <==> ((bits & 0x7ff0_0000_0000_0000u64)
        == 0x7ff0_0000_0000_0000u64 && (bits & 0x000f_ffff_ffff_ffffu64) != 0)))
        by (bit_vector);
    assert(bits < 0x8000_0000_0000_0000u64 ==> ((bits > 0x7ff0_0000_0000_0000u64) <==> ((bits
        & 0x7ff0_0000_0000_0000u64) == 0x7ff0_0000_0000_0000u64 && (bits
        & 0x000f_ffff_ffff_ffffu64) != 0))) by (bit_vector);
}

/// **The order is that of the numbers**: of two positive ones the larger pattern is
/// greater, of two negative ones the smaller pattern, any positive one is above any negative
/// one but for the two zeros, and what is no number is neither above nor below anything.
pub proof fn lemma_greater_is_the_order_of_the_numbers(a: u64, b: u64, r: bool, x: bool, y: bool)
    requires
        call_ensures(greater, (a, b), r),
        call_ensures(nan, (a,), x),
        call_ensures(nan, (b,), y),
    ensures
        x || y ==> !r,
        !x && !y && a < 0x8000_0000_0000_0000u64 && b < 0x8000_0000_0000_0000u64 ==> r == (a > b),
        !x && !y && a >= 0x8000_0000_0000_0000u64 && b >= 0x8000_0000_0000_0000u64 ==> r == (a
            < b),
        !x && !y && a < 0x8000_0000_0000_0000u64 && b >= 0x8000_0000_0000_0000u64 ==> r == !(a == 0
            && b == 0x8000_0000_0000_0000u64),
        !x && !y && a >= 0x8000_0000_0000_0000u64 && b < 0x8000_0000_0000_0000u64 ==> !r,
{
}

} // verus!
