//! The closed set of pointwise activation functions and their derivatives.
//!
//! `function` applies the activation to a pre-activation value; `derivative`
//! is d(activation)/dx evaluated at the pre-activation input. For Relu the
//! derivative at exactly zero is zero by policy: the IEEE comparison
//! `x > 0` does not hold there, so the zero branch of the specification
//! covers that input.

use vstd::prelude::*;

use crate::scalar::B_ONE;
use crate::scalar::B_ZERO;
use crate::scalar::add_bits;
use crate::scalar::div_bits;
use crate::scalar::exp_bits;
use crate::scalar::fadd;
use crate::scalar::fdiv;
use crate::scalar::fexp;
use crate::scalar::fgt;
use crate::scalar::fmul;
use crate::scalar::fneg;
use crate::scalar::fsub;
use crate::scalar::ftanh;
use crate::scalar::gt_bits;
use crate::scalar::mul_bits;
use crate::scalar::neg_bits;
use crate::scalar::sub_bits;
use crate::scalar::tanh_bits;

verus! {

/// The kinds of activation a layer can be configured with.
#[derive(Clone, Copy, Debug, PartialEq, Eq, Structural)]
pub enum ActivationType {
    Relu,
    Sigmoid,
    Tanh,
}

/// A selected activation kind; maps a pre-activation value to the activated
/// value and to the derivative at that input. Stateless.
#[derive(Clone, Copy, Debug, PartialEq, Eq, Structural)]
pub struct Activation {
    pub activation_type: ActivationType,
}

/// `1 / (1 + e^(-x))`, on bit patterns.
pub open spec fn spec_sigmoid(x: u64) -> u64 {
    fdiv(B_ONE, fadd(B_ONE, fexp(fneg(x))))
}

/// What `Activation::function` returns for each kind: `max(x, 0)` for Relu,
/// the logistic function for Sigmoid, the hyperbolic tangent for Tanh.
pub open spec fn spec_activate(kind: ActivationType, x: u64) -> u64 {
    match kind {
        ActivationType::Relu => if fgt(x, B_ZERO) {
            x
        } else {
            B_ZERO
        },
        ActivationType::Sigmoid => spec_sigmoid(x),
        ActivationType::Tanh => ftanh(x),
    }
}

/// What `Activation::derivative` returns for each kind, at the
/// pre-activation input: 1 or 0 for Relu (0 at exactly zero, by policy),
/// `s(x) * (1 - s(x))` for Sigmoid, `1 - tanh(x)^2` for Tanh.
pub open spec fn spec_derivative(kind: ActivationType, x: u64) -> u64 {
    match kind {
        ActivationType::Relu => if fgt(x, B_ZERO) {
            B_ONE
        } else {
            B_ZERO
        },
        ActivationType::Sigmoid => fmul(spec_sigmoid(x), fsub(B_ONE, spec_sigmoid(x))),
        ActivationType::Tanh => fsub(B_ONE, fmul(ftanh(x), ftanh(x))),
    }
}

impl Activation {
    /// The activated value for this kind.
    pub fn function(&self, value: u64) -> (r: u64)
        ensures
            r == spec_activate(self.activation_type, value),
    {
        match self.activation_type {
            ActivationType::Relu => relu(value),
            ActivationType::Sigmoid => sigmoid(value),
            ActivationType::Tanh => tanh_bits(value),
        }
    }

    /// The derivative of the activation at the pre-activation input `value`.
    pub fn derivative(&self, value: u64) -> (r: u64)
        ensures
            r == spec_derivative(self.activation_type, value),
    {
        match self.activation_type {
            ActivationType::Relu => relu_derivative(value),
            ActivationType::Sigmoid => sigmoid_derivative(value),
            ActivationType::Tanh => tanh_derivative(value),
        }
    }
}

fn sigmoid(value: u64) -> (r: u64)
    ensures
        r == spec_sigmoid(value),
{
    div_bits(B_ONE, add_bits(B_ONE, exp_bits(neg_bits(value))))
}

fn sigmoid_derivative(value: u64) -> (r: u64)
    ensures
        r == spec_derivative(ActivationType::Sigmoid, value),
{
    let s = sigmoid(value);
    mul_bits(s, sub_bits(B_ONE, s))
}

fn relu(value: u64) -> (r: u64)
    ensures
        r == spec_activate(ActivationType::Relu, value),
{
    if gt_bits(value, B_ZERO) {
        value
    } else {
        B_ZERO
    }
}

fn relu_derivative(value: u64) -> (r: u64)
    ensures
        r == spec_derivative(ActivationType::Relu, value),
{
    if gt_bits(value, B_ZERO) {
        B_ONE
    } else {
        B_ZERO
    }
}

fn tanh_derivative(value: u64) -> (r: u64)
    ensures
        r == spec_derivative(ActivationType::Tanh, value),
{
    let t = tanh_bits(value);
    sub_bits(B_ONE, mul_bits(t, t))
}

} // verus!
