//! Scalar arithmetic for the network.
//!
//! Every numeric value in this library is the bit pattern of an IEEE 754
//! binary64 value, carried in a `u64`. The arithmetic itself is done by
//! outside crates behind the trusted wrappers below: `rustc_apfloat` for the
//! rounded basic operations and the ordering test, `libm` for the
//! transcendental functions. Each wrapper's result is a function of the
//! operand bits alone, so it is given a name that the rest of the library's
//! contracts are stated over.

use vstd::prelude::*;
use rustc_apfloat::Float;

verus! {

/// Bit pattern of the value zero.
pub const B_ZERO: u64 = 0;

/// Bit pattern of the value one.
pub const B_ONE: u64 = 0x3FF0000000000000;

/// Bit pattern of the value two.
pub const B_TWO: u64 = 0x4000000000000000;

pub uninterp spec fn fadd(a: u64, b: u64) -> u64;

pub uninterp spec fn fsub(a: u64, b: u64) -> u64;

pub uninterp spec fn fmul(a: u64, b: u64) -> u64;

pub uninterp spec fn fdiv(a: u64, b: u64) -> u64;

pub uninterp spec fn fgt(a: u64, b: u64) -> bool;

pub uninterp spec fn fexp(a: u64) -> u64;

pub uninterp spec fn ftanh(a: u64) -> u64;

pub uninterp spec fn fsqrt(a: u64) -> u64;

/// Negation of an IEEE 754 binary64 value is exactly a flip of its sign bit,
/// so it needs no outside call.
pub open spec fn fneg(a: u64) -> u64 {
    a ^ 0x8000000000000000u64
}

/// Relies on `rustc_apfloat::ieee::Double`'s addition (IEEE 754 binary64,
/// round to nearest even): the sum's bits are a function of the operand bits.
#[verifier::external_body]
pub(crate) fn add_bits(a: u64, b: u64) -> (r: u64)
    ensures
        r == fadd(a, b),
{
    let x = rustc_apfloat::ieee::Double::from_bits(a as u128);
    let y = rustc_apfloat::ieee::Double::from_bits(b as u128);
    (x + y).value.to_bits() as u64
}

/// Relies on `rustc_apfloat::ieee::Double`'s subtraction (IEEE 754 binary64,
/// round to nearest even): the difference's bits are a function of the operand bits.
#[verifier::external_body]
pub(crate) fn sub_bits(a: u64, b: u64) -> (r: u64)
    ensures
        r == fsub(a, b),
{
    let x = rustc_apfloat::ieee::Double::from_bits(a as u128);
    let y = rustc_apfloat::ieee::Double::from_bits(b as u128);
    (x - y).value.to_bits() as u64
}

/// Relies on `rustc_apfloat::ieee::Double`'s multiplication (IEEE 754
/// binary64, round to nearest even): the product's bits are a function of the operand bits.
#[verifier::external_body]
pub(crate) fn mul_bits(a: u64, b: u64) -> (r: u64)
    ensures
        r == fmul(a, b),
{
    let x = rustc_apfloat::ieee::Double::from_bits(a as u128);
    let y = rustc_apfloat::ieee::Double::from_bits(b as u128);
    (x * y).value.to_bits() as u64
}

/// Relies on `rustc_apfloat::ieee::Double`'s division (IEEE 754 binary64,
/// round to nearest even): the quotient's bits are a function of the operand bits.
#[verifier::external_body]
pub(crate) fn div_bits(a: u64, b: u64) -> (r: u64)
    ensures
        r == fdiv(a, b),
{
    let x = rustc_apfloat::ieee::Double::from_bits(a as u128);
    let y = rustc_apfloat::ieee::Double::from_bits(b as u128);
    (x / y).value.to_bits() as u64
}

/// Relies on `rustc_apfloat::ieee::Double`'s `PartialOrd`: the IEEE 754
/// ordering of the two values, false when either operand is a NaN.
#[verifier::external_body]
pub(crate) fn gt_bits(a: u64, b: u64) -> (r: bool)
    ensures
        r == fgt(a, b),
{
    let x = rustc_apfloat::ieee::Double::from_bits(a as u128);
    let y = rustc_apfloat::ieee::Double::from_bits(b as u128);
    x > y
}

/// Relies on `libm::exp`, a software implementation whose result depends on
/// the argument bits alone; `bytemuck::cast` reinterprets the bits unchanged.
#[verifier::external_body]
pub(crate) fn exp_bits(a: u64) -> (r: u64)
    ensures
        r == fexp(a),
{
    bytemuck::cast(libm::exp(bytemuck::cast(a)))
}

/// Relies on `libm::tanh`, a software implementation whose result depends on
/// the argument bits alone; `bytemuck::cast` reinterprets the bits unchanged.
#[verifier::external_body]
pub(crate) fn tanh_bits(a: u64) -> (r: u64)
    ensures
        r == ftanh(a),
{
    bytemuck::cast(libm::tanh(bytemuck::cast(a)))
}

/// Relies on `libm::sqrt`, a software implementation whose result depends on
/// the argument bits alone; `bytemuck::cast` reinterprets the bits unchanged.
#[verifier::external_body]
pub(crate) fn sqrt_bits(a: u64) -> (r: u64)
    ensures
        r == fsqrt(a),
{
    bytemuck::cast(libm::sqrt(bytemuck::cast(a)))
}

pub(crate) fn neg_bits(a: u64) -> (r: u64)
    ensures
        r == fneg(a),
{
    a ^ 0x8000000000000000u64
}

pub uninterp spec fn f_of_u16(x: u16) -> u64;

/// Relies on `rustc_apfloat`'s integer conversion: the IEEE 754 binary64
/// value that represents `x`, exact since `x` is far below 2^53.
#[verifier::external_body]
pub(crate) fn from_u16_bits(x: u16) -> (r: u64)
    ensures
        r == f_of_u16(x),
{
    rustc_apfloat::ieee::Double::from_u128(x as u128).value.to_bits() as u64
}

} // verus!
