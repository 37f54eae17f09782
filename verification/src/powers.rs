//! Lemmas about powers in the field: enough group theory to show that a
//! generator of exact power-of-two order has pairwise distinct powers, which
//! makes the evaluation domains valid interpolation domains.

use vstd::prelude::*;
use vstd::arithmetic::div_mod::lemma_mul_mod_noop_general;
use vstd::arithmetic::div_mod::lemma_small_mod;
use vstd::arithmetic::mul::lemma_mul_basics_1;
use vstd::arithmetic::mul::lemma_mul_inequality;
use vstd::arithmetic::mul::lemma_mul_is_associative;
use vstd::arithmetic::mul::lemma_mul_is_commutative;
use vstd::arithmetic::mul::lemma_mul_is_distributive_add;
use vstd::arithmetic::power2::lemma2_to64;
use vstd::arithmetic::power2::lemma_pow2_adds;
use vstd::arithmetic::power2::lemma_pow2_strictly_increases;
use vstd::arithmetic::power2::lemma_pow2_unfold;
use vstd::arithmetic::power2::pow2;
use crate::field::f_mul_s;
use crate::field::f_pow_s;
use crate::field::FIELD_MODULUS;

verus! {

/// Powers of any value are reduced field values.
pub proof fn lemma_f_pow_range(a: int, e: nat)
    ensures
        0 <= f_pow_s(a, e) < FIELD_MODULUS,
{
    if e == 0 {
    }
}

/// Field multiplication is associative.
proof fn lemma_f_mul_assoc(a: int, b: int, c: int)
    ensures
        f_mul_s(f_mul_s(a, b), c) == f_mul_s(a, f_mul_s(b, c)),
{
    lemma_mul_mod_noop_general(a * b, c, FIELD_MODULUS as int);
    lemma_mul_is_associative(a, b, c);
    lemma_mul_mod_noop_general(a, b * c, FIELD_MODULUS as int);
}

/// A sum in the exponent is a product of powers.
pub proof fn lemma_f_pow_add(a: int, e1: nat, e2: nat)
    ensures
        f_pow_s(a, e1 + e2) == f_mul_s(f_pow_s(a, e1), f_pow_s(a, e2)),
    decreases e1,
{
    if e1 == 0 {
        lemma_f_pow_range(a, e2);
        lemma_small_mod(f_pow_s(a, e2) as nat, FIELD_MODULUS as nat);
    } else {
        lemma_f_pow_add(a, (e1 - 1) as nat, e2);
        lemma_f_mul_assoc(a, f_pow_s(a, (e1 - 1) as nat), f_pow_s(a, e2));
    }
}

/// A product in the exponent is an iterated power.
pub proof fn lemma_f_pow_mul(a: int, e1: nat, e2: nat)
    ensures
        f_pow_s(a, e1 * e2) == f_pow_s(f_pow_s(a, e1), e2),
    decreases e2,
{
    if e2 == 0 {
    } else {
        let b = f_pow_s(a, e1);
        lemma_f_pow_mul(a, e1, (e2 - 1) as nat);
        assert(f_pow_s(a, e1 * ((e2 - 1) as nat)) == f_pow_s(b, (e2 - 1) as nat));
        lemma_mul_is_distributive_add(e1 as int, (e2 - 1) as int, 1);
        assert(e1 * e2 == e1 * ((e2 - 1) as nat) + e1);
        lemma_f_pow_add(a, e1 * ((e2 - 1) as nat), e1);
        assert(f_pow_s(a, e1 * e2) == f_mul_s(f_pow_s(b, (e2 - 1) as nat), b));
        assert(f_pow_s(b, e2) == f_mul_s(b, f_pow_s(b, (e2 - 1) as nat)));
        assert(f_mul_s(f_pow_s(b, (e2 - 1) as nat), b) == f_mul_s(
            b,
            f_pow_s(b, (e2 - 1) as nat),
        ));
    }
}

/// Every power of one is one.
proof fn lemma_f_pow_one(e: nat)
    ensures
        f_pow_s(1, e) == 1,
    decreases e,
{
    if e == 0 {
    } else {
        lemma_f_pow_one((e - 1) as nat);
        lemma_small_mod(1nat, FIELD_MODULUS as nat);
    }
}

/// A reduced value whose odd power and whose 2^m-th power are both one is one.
proof fn lemma_odd_and_pow2_unit(h: int, u: nat, m: nat)
    requires
        0 <= h < FIELD_MODULUS,
        u % 2 == 1,
        f_pow_s(h, u) == 1,
        f_pow_s(h, pow2(m)) == 1,
    ensures
        h == 1,
    decreases m,
{
    lemma2_to64();
    lemma_small_mod(h as nat, FIELD_MODULUS as nat);
    if m == 0 {
        assert(f_pow_s(h, 0) == 1);
        assert(f_pow_s(h, 1) == f_mul_s(h, 1));
        assert(f_mul_s(h, 1) == h);
    } else {
        let h2 = f_pow_s(h, 2);
        lemma_f_pow_range(h, 2);
        lemma_pow2_unfold(m);
        lemma_f_pow_mul(h, 2, pow2((m - 1) as nat));
        assert(f_pow_s(h2, pow2((m - 1) as nat)) == 1);
        lemma_f_pow_mul(h, 2, u);
        lemma_f_pow_add(h, u, u);
        lemma_small_mod(1nat, FIELD_MODULUS as nat);
        assert(f_mul_s(1, 1) == 1);
        assert(f_pow_s(h2, u) == 1);
        lemma_odd_and_pow2_unit(h2, u, (m - 1) as nat);
        let t = u / 2;
        assert(u == 2 * t + 1);
        lemma_f_pow_mul(h, 2, t);
        lemma_f_pow_one(t);
        assert(f_pow_s(h, 2 * t) == 1);
        lemma_f_pow_add(h, 2 * t, 1);
        assert(f_pow_s(h, 1) == f_mul_s(h, 1));
        assert(f_mul_s(h, 1) == h);
        assert(1 == f_mul_s(1, h));
        assert(f_mul_s(1, h) == h);
    }
}

/// Every positive natural number is a power of two times an odd number.
proof fn lemma_pow2_odd_decomposition(m: nat) -> (r: (nat, nat))
    requires
        m >= 1,
    ensures
        m == pow2(r.0) * r.1,
        r.1 % 2 == 1,
    decreases m,
{
    lemma2_to64();
    if m % 2 == 1 {
        assert(m == pow2(0) * m);
        (0, m)
    } else {
        let (a, u) = lemma_pow2_odd_decomposition(m / 2);
        lemma_pow2_unfold(a + 1);
        lemma_mul_is_associative(2, pow2(a) as int, u as int);
        assert(pow2(a + 1) * u == 2 * (pow2(a) * u));
        assert(m == pow2(a + 1) * u);
        (a + 1, u)
    }
}

/// No power of a root of unity is zero: a zero power would force every later
/// power, the 2^k-th included, to be zero instead of one.
pub proof fn lemma_generator_powers_nonzero(g: int, k: nat)
    requires
        f_pow_s(g, pow2(k)) == 1,
    ensures
        forall|i: nat| i < pow2(k) ==> f_pow_s(g, i) != 0,
{
    assert forall|i: nat| i < pow2(k) implies f_pow_s(g, i) != 0 by {
        if f_pow_s(g, i) == 0 {
            let rest = (pow2(k) - i) as nat;
            lemma_f_pow_add(g, i, rest);
            lemma_mul_basics_1(f_pow_s(g, rest));
            assert(f_mul_s(0, f_pow_s(g, rest)) == 0);
            assert(false);
        }
    }
}

/// A reduced generator whose 2^k-th power is one but whose 2^(k-1)-th power is
/// not has pairwise distinct first 2^k powers.
pub proof fn lemma_generator_powers_distinct(g: int, k: nat)
    requires
        0 <= g < FIELD_MODULUS,
        f_pow_s(g, pow2(k)) == 1,
        k >= 1 ==> f_pow_s(g, pow2((k - 1) as nat)) != 1,
    ensures
        forall|i: nat, j: nat| i < j < pow2(k) ==> f_pow_s(g, i) != f_pow_s(g, j),
{
    lemma2_to64();
    if k >= 1 {
        assert forall|i: nat, j: nat| i < j < pow2(k) implies f_pow_s(g, i) != f_pow_s(g, j) by {
            if f_pow_s(g, i) == f_pow_s(g, j) {
                let d = (pow2(k) - j) as nat;
                lemma_f_pow_add(g, i, d);
                lemma_f_pow_add(g, j, d);
                let m = i + d;
                assert(1 <= m < pow2(k));
                assert(f_pow_s(g, m) == 1);
                let r = lemma_pow2_odd_decomposition(m);
                let a = r.0;
                let u = r.1;
                lemma_mul_inequality(1, u as int, pow2(a) as int);
                lemma_mul_is_commutative(pow2(a) as int, u as int);
                assert(pow2(a) <= pow2(a) * u);
                if a >= k {
                    if a > k {
                        lemma_pow2_strictly_increases(k, a);
                    }
                    assert(false);
                }
                let h = f_pow_s(g, pow2(a));
                lemma_f_pow_range(g, pow2(a));
                lemma_f_pow_mul(g, pow2(a), u);
                lemma_pow2_adds(a, (k - a) as nat);
                lemma_f_pow_mul(g, pow2(a), pow2((k - a) as nat));
                lemma_odd_and_pow2_unit(h, u, (k - a) as nat);
                lemma_pow2_adds(a, (k - 1 - a) as nat);
                lemma_f_pow_mul(g, pow2(a), pow2((k - 1 - a) as nat));
                lemma_f_pow_one(pow2((k - 1 - a) as nat));
                assert(false);
            }
        }
    }
}

} // verus!
