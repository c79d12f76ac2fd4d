//! Floating-point settings (a timeout in seconds, a sampling temperature),
//! held without floats: a finite value exactly, as a JSON number, or one of
//! the three non-finite values.

use vstd::prelude::*;
use crate::json::{JsonNumber, FloatNum};
use crate::number::{num_order, compare_numbers};
use crate::text::Order;

verus! {

/// A floating-point value: finite (held exactly) or not.
#[derive(Debug, Clone, PartialEq)]
pub enum FloatValue {
    Finite(JsonNumber),
    Infinity,
    NegInfinity,
    NaN,
}

/// `x <= 0.0`.
pub open spec fn float_le_zero(f: FloatValue) -> bool {
    match f {
        FloatValue::Finite(n) => num_order(n, JsonNumber::Int(0)) != Order::Greater,
        FloatValue::NegInfinity => true,
        _ => false,
    }
}

/// `x > b` for a finite integer bound `b`.
pub open spec fn float_gt_int(f: FloatValue, b: int) -> bool {
    match f {
        FloatValue::Finite(n) => num_order(n, JsonNumber::Int(b as i128)) == Order::Greater,
        FloatValue::Infinity => true,
        _ => false,
    }
}

/// How Rust displays a non-finite value.
pub open spec fn nonfinite_text(f: FloatValue) -> Seq<char> {
    match f {
        FloatValue::Infinity => seq!['i', 'n', 'f'],
        FloatValue::NegInfinity => seq!['-', 'i', 'n', 'f'],
        _ => seq!['N', 'a', 'N'],
    }
}

impl FloatValue {
    pub fn is_finite(&self) -> (r: bool)
        ensures
            r == (*self is Finite),
    {
        match self {
            FloatValue::Finite(_) => true,
            _ => false,
        }
    }

    /// `self <= 0.0`.
    pub fn le_zero(&self) -> (r: bool)
        ensures
            r == float_le_zero(*self),
    {
        match self {
            FloatValue::Finite(JsonNumber::Int(i)) => {
                proof {
                    vstd::arithmetic::power2::lemma2_to64();
                    assert(vstd::arithmetic::power2::pow2(0) == 1);
                    assert(((0int - 0int) as nat) == 0nat);
                    assert(crate::number::scaled(*i as int, 0, 0) == *i as int);
                    assert(crate::number::scaled(0, 0, 0) == 0);
                }
                *i <= 0
            },
            FloatValue::Finite(n) => {
                let z = JsonNumber::Int(0);
                match compare_numbers(n, &z) {
                    Order::Greater => false,
                    _ => true,
                }
            },
            FloatValue::NegInfinity => true,
            _ => false,
        }
    }

    /// `self > b`.
    pub fn gt_int(&self, b: i64) -> (r: bool)
        ensures
            r == float_gt_int(*self, b as int),
    {
        match self {
            FloatValue::Finite(JsonNumber::Int(i)) => {
                proof {
                    vstd::arithmetic::power2::lemma2_to64();
                    assert(vstd::arithmetic::power2::pow2(0) == 1);
                    assert(((0int - 0int) as nat) == 0nat);
                    assert(crate::number::scaled(*i as int, 0, 0) == *i as int);
                    assert(crate::number::scaled(b as int, 0, 0) == b as int);
                }
                *i > b as i128
            },
            FloatValue::Finite(n) => {
                let c = JsonNumber::Int(b as i128);
                match compare_numbers(n, &c) {
                    Order::Greater => true,
                    _ => false,
                }
            },
            FloatValue::Infinity => true,
            _ => false,
        }
    }
}

} // verus!
