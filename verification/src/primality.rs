//! The circuit field is a field: its characteristic is prime.
use vstd::prelude::*;

use crate::circuit::CHARACTERISTICS;

verus! {

#[verifier::rlimit(100)]
proof fn lemma_no_small_divisor(d: u32)
    by (bit_vector)
    requires
        2 <= d && d <= 46340,
    ensures
        0x7fff_ffffu32 % d != 0,
{
}

/// No number strictly between one and the characteristic divides it.
pub proof fn characteristic_is_prime(d: int)
    requires
        2 <= d < CHARACTERISTICS,
    ensures
        CHARACTERISTICS as int % d != 0,
{
    let p = CHARACTERISTICS as int;
    if d <= 46340 {
        lemma_no_small_divisor(d as u32);
    } else if p % d == 0 {
        let e = p / d;
        vstd::arithmetic::div_mod::lemma_fundamental_div_mod(p, d);
        assert(d * e == p);
        assert(2 <= e <= 46340) by (nonlinear_arith)
            requires
                d * e == 0x7fff_ffff,
                46341 <= d < 0x7fff_ffff,
        {
        }
        assert(p == e * d + 0) by (nonlinear_arith)
            requires
                d * e == p,
        {
        }
        vstd::arithmetic::div_mod::lemma_fundamental_div_mod_converse(p, e, d, 0);
        lemma_no_small_divisor(e as u32);
    }
}

proof fn lemma_euclid(x: int, y: int)
    requires
        0 < x < CHARACTERISTICS,
        (x * y) % (CHARACTERISTICS as int) == 0,
    ensures
        y % (CHARACTERISTICS as int) == 0,
    decreases x,
{
    let p = CHARACTERISTICS as int;
    if x == 1 {
        assert(x * y == y);
    } else {
        characteristic_is_prime(x);
        let q = p / x;
        let r = p % x;
        vstd::arithmetic::div_mod::lemma_fundamental_div_mod(p, x);
        let k = (x * y) / p;
        vstd::arithmetic::div_mod::lemma_fundamental_div_mod(x * y, p);
        assert(r * y == p * (y - q * k)) by (nonlinear_arith)
            requires
                p == x * q + r,
                x * y == p * k,
        {
        }
        vstd::arithmetic::div_mod::lemma_mod_multiples_vanish(y - q * k, 0, p);
        assert((r * y) % p == 0);
        lemma_euclid(r, y);
    }
}

/// Every nonzero element of the field has an inverse.
pub proof fn inverses_exist(a: int) -> (x: int)
    requires
        0 < a < CHARACTERISTICS,
    ensures
        0 <= x < CHARACTERISTICS,
        (a * x) % (CHARACTERISTICS as int) == 1,
    decreases a,
{
    let p = CHARACTERISTICS as int;
    if a == 1 {
        1
    } else {
        characteristic_is_prime(a);
        let q = p / a;
        let r = p % a;
        vstd::arithmetic::div_mod::lemma_fundamental_div_mod(p, a);
        let y = inverses_exist(r);
        let z = 0 - q * y;
        assert(a * z == p * (0 - y) + r * y) by (nonlinear_arith)
            requires
                p == a * q + r,
                z == 0 - q * y,
        {
        }
        vstd::arithmetic::div_mod::lemma_mod_multiples_vanish(0 - y, r * y, p);
        assert((a * z) % p == 1);
        vstd::arithmetic::div_mod::lemma_mul_mod_noop_right(a, z, p);
        z % p
    }
}

/// A product vanishes in the field only if one of its factors does.
pub proof fn product_vanishes(x: int, y: int)
    requires
        (x * y) % (CHARACTERISTICS as int) == 0,
    ensures
        x % (CHARACTERISTICS as int) == 0 || y % (CHARACTERISTICS as int) == 0,
{
    let p = CHARACTERISTICS as int;
    if x % p != 0 {
        vstd::arithmetic::div_mod::lemma_mul_mod_noop(x, y, p);
        vstd::arithmetic::div_mod::lemma_mul_mod_noop_left(x, y, p);
        lemma_euclid(x % p, y);
    }
}

} // verus!
