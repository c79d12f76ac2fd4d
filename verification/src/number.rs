//! Exact comparison of JSON numbers. Every number is a dyadic rational
//! `mant * 2^exp` (an integer has exponent 0), and numbers are ordered by
//! their value, with no rounding.

use vstd::prelude::*;
use vstd::arithmetic::power2::{pow2, lemma_pow2_pos, lemma_pow2_unfold, lemma_pow2_adds, lemma_pow2_strictly_increases};
use crate::json::{JsonNumber, FloatNum, int_in_range, dyadic_order};
use crate::text::Order;

verus! {

pub open spec fn num_mant(n: JsonNumber) -> int {
    match n {
        JsonNumber::Int(i) => i as int,
        JsonNumber::Float(f) => f.mant as int,
    }
}

pub open spec fn num_exp(n: JsonNumber) -> int {
    match n {
        JsonNumber::Int(_) => 0,
        JsonNumber::Float(f) => f.exp as int,
    }
}

pub open spec fn num_wf(n: JsonNumber) -> bool {
    match n {
        JsonNumber::Int(i) => int_in_range(i as int),
        JsonNumber::Float(_) => true,
    }
}

pub open spec fn int_order(x: int, y: int) -> Order {
    if x < y {
        Order::Less
    } else if x == y {
        Order::Equal
    } else {
        Order::Greater
    }
}

/// `m * 2^(e - base)` for `base <= e`.
pub open spec fn scaled(m: int, e: int, base: int) -> int {
    m * pow2((e - base) as nat)
}

pub open spec fn min_int(a: int, b: int) -> int {
    if a <= b { a } else { b }
}

/// The order of two numbers by their exact values.
pub open spec fn num_order(a: JsonNumber, b: JsonNumber) -> Order {
    let base = min_int(num_exp(a), num_exp(b));
    int_order(scaled(num_mant(a), num_exp(a), base), scaled(num_mant(b), num_exp(b), base))
}

/// Comparing at a lower common exponent gives the same order.
pub proof fn lemma_scaled_lower(ma: int, ea: int, mb: int, eb: int, b1: int, b0: int)
    requires
        b0 <= b1,
        b1 <= ea,
        b1 <= eb,
    ensures
        int_order(scaled(ma, ea, b1), scaled(mb, eb, b1)) == int_order(
            scaled(ma, ea, b0),
            scaled(mb, eb, b0),
        ),
{
    let p = pow2((b1 - b0) as nat);
    lemma_pow2_pos((b1 - b0) as nat);
    lemma_pow2_adds((ea - b1) as nat, (b1 - b0) as nat);
    lemma_pow2_adds((eb - b1) as nat, (b1 - b0) as nat);
    assert(((ea - b1) as nat + (b1 - b0) as nat) as nat == (ea - b0) as nat);
    assert(((eb - b1) as nat + (b1 - b0) as nat) as nat == (eb - b0) as nat);
    let x = scaled(ma, ea, b1);
    let y = scaled(mb, eb, b1);
    assert(scaled(ma, ea, b0) == x * p) by (nonlinear_arith)
        requires
            scaled(ma, ea, b0) == ma * pow2((ea - b0) as nat),
            pow2((ea - b0) as nat) == pow2((ea - b1) as nat) * p,
            x == ma * pow2((ea - b1) as nat),
    ;
    assert(scaled(mb, eb, b0) == y * p) by (nonlinear_arith)
        requires
            scaled(mb, eb, b0) == mb * pow2((eb - b0) as nat),
            pow2((eb - b0) as nat) == pow2((eb - b1) as nat) * p,
            y == mb * pow2((eb - b1) as nat),
    ;
    assert((x < y) == (x * p < y * p)) by (nonlinear_arith)
        requires
            p > 0,
    ;
    assert((x == y) == (x * p == y * p)) by (nonlinear_arith)
        requires
            p > 0,
    ;
}

/// Comparing two numbers at any exponent no larger than both gives `num_order`.
pub proof fn lemma_num_order_at(a: JsonNumber, b: JsonNumber, base: int)
    requires
        base <= num_exp(a),
        base <= num_exp(b),
    ensures
        num_order(a, b) == int_order(
            scaled(num_mant(a), num_exp(a), base),
            scaled(num_mant(b), num_exp(b), base),
        ),
{
    lemma_scaled_lower(
        num_mant(a),
        num_exp(a),
        num_mant(b),
        num_exp(b),
        min_int(num_exp(a), num_exp(b)),
        base,
    );
}

/// The order of numbers is antisymmetric: swapping the operands flips it.
pub proof fn lemma_num_order_flip(a: JsonNumber, b: JsonNumber)
    ensures
        num_order(b, a) == num_order(a, b).flip(),
{
}

/// The order of numbers is transitive.
pub proof fn lemma_num_order_trans(a: JsonNumber, b: JsonNumber, c: JsonNumber)
    requires
        num_order(a, b) != Order::Greater,
        num_order(b, c) != Order::Greater,
    ensures
        num_order(a, c) != Order::Greater,
        (num_order(a, b) == Order::Less || num_order(b, c) == Order::Less) ==> num_order(a, c)
            == Order::Less,
{
    let base = min_int(num_exp(a), min_int(num_exp(b), num_exp(c)));
    lemma_num_order_at(a, b, base);
    lemma_num_order_at(b, c, base);
    lemma_num_order_at(a, c, base);
}

/// Comparing two dyadic numbers at any exponent no larger than both gives
/// their order.
pub proof fn lemma_dyadic_at(m1: int, e1: int, m2: int, e2: int, base: int)
    requires
        base <= e1,
        base <= e2,
    ensures
        dyadic_order(m1, e1, m2, e2) == int_order(scaled(m1, e1, base), scaled(m2, e2, base)),
{
    lemma_scaled_lower(m1, e1, m2, e2, min_int(e1, e2), base);
}

/// Swapping two dyadic numbers flips their order.
pub proof fn lemma_dyadic_flip(m1: int, e1: int, m2: int, e2: int)
    ensures
        dyadic_order(m2, e2, m1, e1) == dyadic_order(m1, e1, m2, e2).flip(),
{
    lemma_dyadic_at(m2, e2, m1, e1, min_int(e1, e2));
}

/// The order of dyadic numbers is transitive.
pub proof fn lemma_dyadic_trans(m1: int, e1: int, m2: int, e2: int, m3: int, e3: int)
    requires
        dyadic_order(m1, e1, m2, e2) != Order::Greater,
        dyadic_order(m2, e2, m3, e3) != Order::Greater,
    ensures
        dyadic_order(m1, e1, m3, e3) != Order::Greater,
        (dyadic_order(m1, e1, m2, e2) == Order::Less || dyadic_order(m2, e2, m3, e3) == Order::Less)
            ==> dyadic_order(m1, e1, m3, e3) == Order::Less,
{
    let base = min_int(e1, min_int(e2, e3));
    lemma_dyadic_at(m1, e1, m2, e2, base);
    lemma_dyadic_at(m2, e2, m3, e3, base);
    lemma_dyadic_at(m1, e1, m3, e3, base);
}

/// The magnitude order of `x * 2^ex` and `y * 2^ey` for `0 < x, y < 2^64`.
fn magnitude_order(x: u128, ex: i32, y: u128, ey: i32) -> (r: Order)
    requires
        0 < x < 0x1_0000_0000_0000_0000,
        0 < y < 0x1_0000_0000_0000_0000,
    ensures
        r == int_order(
            scaled(x as int, ex as int, min_int(ex as int, ey as int)),
            scaled(y as int, ey as int, min_int(ex as int, ey as int)),
        ),
    decreases (if ex >= ey { 0int } else { 1int }),
{
    if ex >= ey {
        let d: i64 = ex as i64 - ey as i64;
        proof {
            vstd::arithmetic::power2::lemma2_to64();
            assert((ey as int - ey as int) as nat == 0);
            assert(y * pow2(0) == y) by (nonlinear_arith)
                requires
                    pow2(0) == 1,
            ;
            assert(scaled(y as int, ey as int, ey as int) == y);
        }
        if d >= 64 {
            proof {
                vstd::arithmetic::power2::lemma2_to64();
                if d > 64 {
                    lemma_pow2_strictly_increases(64, d as nat);
                }
                assert(x * pow2(d as nat) >= pow2(d as nat)) by (nonlinear_arith)
                    requires x >= 1, pow2(d as nat) > 0;
            }
            Order::Greater
        } else {
            let (p, _) = pow2_u128(d as u32);
            assert(x * p < 0x1_0000_0000_0000_0000 * 0x1_0000_0000_0000_0000) by (nonlinear_arith)
                requires
                    x < 0x1_0000_0000_0000_0000,
                    p < 0x1_0000_0000_0000_0000,
                    p > 0,
            ;
            let xp = x * p;
            assert(scaled(x as int, ex as int, ey as int) == xp);
            if xp < y {
                Order::Less
            } else if xp == y {
                Order::Equal
            } else {
                Order::Greater
            }
        }
    } else {
        let r = magnitude_order(y, ey, x, ex);
        r.reverse()
    }
}

/// `2^k` for `k < 64`.
fn pow2_u128(k: u32) -> (r: (u128, Ghost<()>))
    requires
        k < 64,
    ensures
        r.0 == pow2(k as nat),
        0 < r.0 < 0x1_0000_0000_0000_0000,
{
    let mut p: u128 = 1;
    let mut i: u32 = 0;
    proof {
        vstd::arithmetic::power2::lemma2_to64();
    }
    while i < k
        invariant
            i <= k < 64,
            p == pow2(i as nat),
        decreases k - i,
    {
        proof {
            lemma_pow2_unfold((i + 1) as nat);
            lemma_pow2_strictly_increases((i + 1) as nat, 64);
            vstd::arithmetic::power2::lemma2_to64();
        }
        p = p * 2;
        i = i + 1;
    }
    proof {
        lemma_pow2_pos(k as nat);
        if k < 64 {
            lemma_pow2_strictly_increases(k as nat, 64);
        }
        vstd::arithmetic::power2::lemma2_to64();
    }
    (p, Ghost(()))
}


fn parts_of(n: &JsonNumber) -> (r: (i128, i32))
    requires
        num_wf(*n),
    ensures
        r.0 == num_mant(*n),
        r.1 == num_exp(*n),
        -0x1_0000_0000_0000_0000 < r.0 < 0x1_0000_0000_0000_0000,
{
    match n {
        JsonNumber::Int(i) => (*i, 0),
        JsonNumber::Float(f) => (f.mant as i128, f.exp),
    }
}

proof fn lemma_scaled_sign(m: int, e: int, base: int)
    requires
        base <= e,
    ensures
        m > 0 ==> scaled(m, e, base) > 0,
        m < 0 ==> scaled(m, e, base) < 0,
        m == 0 ==> scaled(m, e, base) == 0,
        scaled(-m, e, base) == -scaled(m, e, base),
{
    let p = pow2((e - base) as nat);
    lemma_pow2_pos((e - base) as nat);
    assert(m > 0 ==> m * p > 0) by (nonlinear_arith)
        requires
            p > 0,
    ;
    assert(m < 0 ==> m * p < 0) by (nonlinear_arith)
        requires
            p > 0,
    ;
    assert((-m) * p == -(m * p)) by (nonlinear_arith);
}

/// Compares two numbers exactly by value.
pub fn compare_numbers(a: &JsonNumber, b: &JsonNumber) -> (r: Order)
    requires
        num_wf(*a),
        num_wf(*b),
    ensures
        r == num_order(*a, *b),
{
    let (m1, e1) = parts_of(a);
    let (m2, e2) = parts_of(b);
    let ghost base = min_int(e1 as int, e2 as int);
    proof {
        lemma_scaled_sign(m1 as int, e1 as int, base);
        lemma_scaled_sign(m2 as int, e2 as int, base);
    }
    if m1 < 0 {
        if m2 >= 0 {
            return Order::Less;
        }
        let x = (0 - m1) as u128;
        let y = (0 - m2) as u128;
        proof {
            lemma_scaled_sign(x as int, e1 as int, base);
            lemma_scaled_sign(y as int, e2 as int, base);
        }
        let r = magnitude_order(x, e1, y, e2);
        r.reverse()
    } else if m1 == 0 {
        if m2 > 0 {
            Order::Less
        } else if m2 == 0 {
            Order::Equal
        } else {
            Order::Greater
        }
    } else {
        if m2 <= 0 {
            return Order::Greater;
        }
        magnitude_order(m1 as u128, e1, m2 as u128, e2)
    }
}

} // verus!
