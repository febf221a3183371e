//! Floating-point values as the library holds them: the IEEE 754 binary64
//! bit pattern, together with the value's decimal rendering, which is what
//! the templates substitute. The comparisons below are those of IEEE 754 binary64
//! (`==`, `<`, `<=`), stated and computed on the bit pattern.

use vstd::prelude::*;

verus! {

/// A binary64 floating-point value, held as its bit pattern (the IEEE 754
/// encoding) and the texts that binary64 `Display` and `Debug` give for it.
#[derive(Debug, Clone, PartialEq)]
pub struct FloatNum {
    pub bits: u64,
    pub text: String,
    pub debug: String,
}

pub open spec fn two52() -> int {
    0x10000000000000
}

pub open spec fn two63() -> int {
    0x8000000000000000
}

/// The bit pattern encodes a NaN: all exponent bits set, non-zero fraction.
pub open spec fn spec_is_nan(bits: u64) -> bool {
    (bits as int / two52()) % 2048 == 2047 && (bits as int) % two52() != 0
}

/// The position of a non-NaN value on the number line: the magnitude bits,
/// negated when the sign bit is set (both zeros map to 0).
pub open spec fn order_key(bits: u64) -> int {
    if bits as int >= two63() {
        -((bits as int) % two63())
    } else {
        bits as int
    }
}

/// binary64 `==`.
pub open spec fn spec_float_eq(a: u64, b: u64) -> bool {
    !spec_is_nan(a) && !spec_is_nan(b) && order_key(a) == order_key(b)
}

/// binary64 `<=`.
pub open spec fn spec_float_le(a: u64, b: u64) -> bool {
    !spec_is_nan(a) && !spec_is_nan(b) && order_key(a) <= order_key(b)
}

/// binary64 `<`.
pub open spec fn spec_float_lt(a: u64, b: u64) -> bool {
    !spec_is_nan(a) && !spec_is_nan(b) && order_key(a) < order_key(b)
}

/// Whether the bit pattern encodes a NaN.
pub fn is_nan(bits: u64) -> (r: bool)
    ensures
        r == spec_is_nan(bits),
{
    (bits / 0x10000000000000) % 2048 == 2047 && bits % 0x10000000000000 != 0
}

fn order_key_exec(bits: u64) -> (k: i64)
    ensures
        k as int == order_key(bits),
{
    if bits >= 0x8000000000000000 {
        -((bits % 0x8000000000000000) as i64)
    } else {
        bits as i64
    }
}

/// `a == b` on the two floats.
pub fn float_eq(a: &FloatNum, b: &FloatNum) -> (r: bool)
    ensures
        r == spec_float_eq(a.bits, b.bits),
{
    !is_nan(a.bits) && !is_nan(b.bits) && order_key_exec(a.bits) == order_key_exec(b.bits)
}

/// `a <= b` on the two floats.
pub fn float_le(a: &FloatNum, b: &FloatNum) -> (r: bool)
    ensures
        r == spec_float_le(a.bits, b.bits),
{
    !is_nan(a.bits) && !is_nan(b.bits) && order_key_exec(a.bits) <= order_key_exec(b.bits)
}

/// `a < b` on the two floats.
pub fn float_lt(a: &FloatNum, b: &FloatNum) -> (r: bool)
    ensures
        r == spec_float_lt(a.bits, b.bits),
{
    !is_nan(a.bits) && !is_nan(b.bits) && order_key_exec(a.bits) < order_key_exec(b.bits)
}

/// A copy of `f`.
pub fn copy_float(f: &FloatNum) -> (r: FloatNum)
    ensures
        r.bits == f.bits,
        r.text@ == f.text@,
        r.debug@ == f.debug@,
{
    FloatNum { bits: f.bits, text: f.text.clone(), debug: f.debug.clone() }
}

} // verus!
