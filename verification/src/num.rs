//! 1024-bit integer arithmetic on values, relied on for the arithmetic
//! instructions. Each function wraps one operation of amplify's `u1024`;
//! operands are little-endian values of at most 128 bytes.

use vstd::prelude::*;
use crate::data::{le_nat, pow256, Value};

verus! {

/// Number of bytes of the widest arithmetic operand (1024 bits).
pub const ARITH_BYTES: u16 = 128;

/// The modulus of wrapping 1024-bit arithmetic.
pub open spec fn arith_mod() -> nat {
    pow256(128)
}

/// Relies on amplify's u1024::wrapping_add (ripple-carry addition that drops
/// the final carry): the sum modulo 2^1024, as a 128-byte value.
#[verifier::external_body]
pub fn vnum_add_wrapping(a: &Value, b: &Value) -> (r: Value)
    requires
        a.bytes@.len() <= 128,
        b.bytes@.len() <= 128,
    ensures
        r.bytes@.len() == 128,
        r.val() == (a.val() + b.val()) % arith_mod(),
{
    let mut xb = [0u8; 128];
    xb[..a.bytes.len()].copy_from_slice(&a.bytes);
    let mut yb = [0u8; 128];
    yb[..b.bytes.len()].copy_from_slice(&b.bytes);
    let x = amplify::num::u1024::from_le_bytes(xb);
    let y = amplify::num::u1024::from_le_bytes(yb);
    Value { bytes: x.wrapping_add(y).to_le_bytes().to_vec() }
}

/// Relies on amplify's u1024::wrapping_sub (two's-complement subtraction):
/// the difference modulo 2^1024, as a 128-byte value.
#[verifier::external_body]
pub fn vnum_sub_wrapping(a: &Value, b: &Value) -> (r: Value)
    requires
        a.bytes@.len() <= 128,
        b.bytes@.len() <= 128,
    ensures
        r.bytes@.len() == 128,
        r.val() == ((a.val() + arith_mod() - b.val()) as nat) % arith_mod(),
{
    let mut xb = [0u8; 128];
    xb[..a.bytes.len()].copy_from_slice(&a.bytes);
    let mut yb = [0u8; 128];
    yb[..b.bytes.len()].copy_from_slice(&b.bytes);
    let x = amplify::num::u1024::from_le_bytes(xb);
    let y = amplify::num::u1024::from_le_bytes(yb);
    Value { bytes: x.wrapping_sub(y).to_le_bytes().to_vec() }
}

/// Relies on amplify's u1024::wrapping_mul (schoolbook long multiplication
/// keeping the low words): the product modulo 2^1024, as a 128-byte value.
#[verifier::external_body]
pub fn vnum_mul_wrapping(a: &Value, b: &Value) -> (r: Value)
    requires
        a.bytes@.len() <= 128,
        b.bytes@.len() <= 128,
    ensures
        r.bytes@.len() == 128,
        r.val() == (a.val() * b.val()) % arith_mod(),
{
    let mut xb = [0u8; 128];
    xb[..a.bytes.len()].copy_from_slice(&a.bytes);
    let mut yb = [0u8; 128];
    yb[..b.bytes.len()].copy_from_slice(&b.bytes);
    let x = amplify::num::u1024::from_le_bytes(xb);
    let y = amplify::num::u1024::from_le_bytes(yb);
    Value { bytes: x.wrapping_mul(y).to_le_bytes().to_vec() }
}

/// Relies on amplify's u1024::checked_mul, whose overflow flag reports any
/// dropped high word: the exact product when it fits in 1024 bits, absent
/// otherwise.
#[verifier::external_body]
pub fn vnum_mul_checked(a: &Value, b: &Value) -> (r: Option<Value>)
    requires
        a.bytes@.len() <= 128,
        b.bytes@.len() <= 128,
    ensures
        match r {
            Some(v) => v.bytes@.len() == 128 && v.val() == a.val() * b.val() && a.val() * b.val()
                < arith_mod(),
            None => a.val() * b.val() >= arith_mod(),
        },
{
    let mut xb = [0u8; 128];
    xb[..a.bytes.len()].copy_from_slice(&a.bytes);
    let mut yb = [0u8; 128];
    yb[..b.bytes.len()].copy_from_slice(&b.bytes);
    let x = amplify::num::u1024::from_le_bytes(xb);
    let y = amplify::num::u1024::from_le_bytes(yb);
    x.checked_mul(y).map(|p| Value { bytes: p.to_le_bytes().to_vec() })
}

/// Relies on amplify's u1024::checked_div (shift-subtract long division,
/// absent exactly on a zero divisor): the quotient, as a 128-byte value.
#[verifier::external_body]
pub fn vnum_div_checked(a: &Value, b: &Value) -> (r: Option<Value>)
    requires
        a.bytes@.len() <= 128,
        b.bytes@.len() <= 128,
    ensures
        match r {
            Some(v) => b.val() != 0 && v.bytes@.len() == 128 && v.val() == a.val() / b.val(),
            None => b.val() == 0,
        },
{
    let mut xb = [0u8; 128];
    xb[..a.bytes.len()].copy_from_slice(&a.bytes);
    let mut yb = [0u8; 128];
    yb[..b.bytes.len()].copy_from_slice(&b.bytes);
    let x = amplify::num::u1024::from_le_bytes(xb);
    let y = amplify::num::u1024::from_le_bytes(yb);
    x.checked_div(y).map(|q| Value { bytes: q.to_le_bytes().to_vec() })
}

/// Relies on amplify's u1024::checked_rem (long division, absent exactly on
/// a zero divisor): the remainder, as a 128-byte value.
#[verifier::external_body]
pub fn vnum_rem_checked(a: &Value, b: &Value) -> (r: Option<Value>)
    requires
        a.bytes@.len() <= 128,
        b.bytes@.len() <= 128,
    ensures
        match r {
            Some(v) => b.val() != 0 && v.bytes@.len() == 128 && v.val() == a.val() % b.val(),
            None => b.val() == 0,
        },
{
    let mut xb = [0u8; 128];
    xb[..a.bytes.len()].copy_from_slice(&a.bytes);
    let mut yb = [0u8; 128];
    yb[..b.bytes.len()].copy_from_slice(&b.bytes);
    let x = amplify::num::u1024::from_le_bytes(xb);
    let y = amplify::num::u1024::from_le_bytes(yb);
    x.checked_rem(y).map(|m| Value { bytes: m.to_le_bytes().to_vec() })
}

} // verus!
