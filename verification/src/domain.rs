use vstd::prelude::*;
use vstd::arithmetic::div_mod::lemma_small_mod;
use vstd::arithmetic::mul::lemma_mul_inequality;
use vstd::arithmetic::mul::lemma_mul_is_associative;
use vstd::arithmetic::power2::is_pow2;
use vstd::arithmetic::power2::lemma2_to64;
use vstd::arithmetic::power2::lemma_pow2_strictly_increases;
use vstd::arithmetic::power2::lemma_pow2_unfold;
use vstd::arithmetic::power2::pow2;
use crate::field::f_pow_s;
use crate::field::Felt;
use crate::field::FIELD_MODULUS;
use winter_math::fields::f64::BaseElement;
use winter_math::StarkField;

verus! {

/// The canonical value of the backend's generator of the multiplicative
/// subgroup of order 2^32 (winter-math's `TWO_ADIC_ROOT_OF_UNITY` for the
/// 64-bit field).
pub const TWO_ADIC_GENERATOR: u64 = 7277203076849721926;

/// The largest e such that the field has a root of unity of order 2^e.
pub const TWO_ADICITY: u32 = 32;

/// The largest accepted trace length: half the largest domain size, so that the
/// doubled extension domain still has a root of unity.
pub const MAX_TRACE_LEN: usize = 0x8000_0000;

/// A trace length is accepted when it is a power of two (hence nonzero), no
/// larger than half the largest supported root-of-unity order, and small
/// enough that its doubled extension is still a machine length.
pub open spec fn valid_trace_len(n: nat) -> bool {
    is_pow2(n as int) && n <= pow2(31) && 2 * n <= usize::MAX
}

/// The generator of the evaluation domain of size 2^log_order: the identity for
/// the trivial domain, otherwise the backend's canonical root of unity of that
/// order, `TWO_ADIC_GENERATOR` raised to the power 2^(32 - log_order).
pub open spec fn root_s(log_order: nat) -> int {
    if log_order == 0 {
        1
    } else {
        f_pow_s(TWO_ADIC_GENERATOR as int, pow2((TWO_ADICITY - log_order) as nat))
    }
}

/// The evaluation domain of size 2^log_order: the consecutive powers of its
/// generator, in order.
pub open spec fn domain_s(log_order: nat) -> Seq<int> {
    Seq::new(pow2(log_order), |i: int| f_pow_s(root_s(log_order), i as nat))
}

/// Relies on `BaseElement::get_root_of_unity` (winter-math): for 1 <= n <= 32
/// it returns `TWO_ADIC_ROOT_OF_UNITY` raised to the power 2^(32 - n), which
/// its documentation states is the root of unity of order exactly 2^n, so its
/// 2^n-th power is one while its 2^(n-1)-th power is not. `as_int` returns the
/// canonical (reduced) representative.
#[verifier::external_body]
fn root_of_unity_call(log_order: u32) -> (r: u64)
    requires
        1 <= log_order <= 32,
    ensures
        r < FIELD_MODULUS,
        r as int == root_s(log_order as nat),
        f_pow_s(r as int, pow2(log_order as nat)) == 1,
        f_pow_s(r as int, pow2((log_order - 1) as nat)) != 1,
{
    BaseElement::get_root_of_unity(log_order).as_int()
}

/// The generator of the evaluation domain of size 2^log_order, with its first
/// 2^log_order powers pairwise distinct and none of them zero.
pub fn domain_generator(log_order: u32) -> (r: Felt)
    requires
        log_order <= 32,
    ensures
        r.wf(),
        r@ == root_s(log_order as nat),
        forall|i: nat, j: nat|
            i < j < pow2(log_order as nat) ==> f_pow_s(r@, i) != f_pow_s(r@, j),
        forall|i: nat| i < pow2(log_order as nat) ==> f_pow_s(r@, i) != 0,
{
    if log_order == 0 {
        proof {
            lemma2_to64();
        }
        Felt::one()
    } else {
        let g: u64 = root_of_unity_call(log_order);
        let r: Felt = Felt::new(g);
        proof {
            lemma_small_mod(g as nat, FIELD_MODULUS as nat);
            crate::powers::lemma_generator_powers_distinct(g as int, log_order as nat);
            crate::powers::lemma_generator_powers_nonzero(g as int, log_order as nat);
        }
        r
    }
}

/// The first `count` powers of `g`, in order.
pub fn power_series(g: Felt, count: usize) -> (r: Vec<Felt>)
    requires
        g.wf(),
    ensures
        r@.len() == count,
        forall|i: int|
            0 <= i < count ==> (#[trigger] r@[i]).wf() && r@[i]@ == f_pow_s(g@, i as nat),
{
    let mut out: Vec<Felt> = Vec::new();
    let mut cur: Felt = Felt::one();
    let mut i: usize = 0;
    while i < count
        invariant
            g.wf(),
            cur.wf(),
            i <= count,
            out@.len() == i,
            cur@ == f_pow_s(g@, i as nat),
            forall|k: int|
                0 <= k < i ==> (#[trigger] out@[k]).wf() && out@[k]@ == f_pow_s(g@, k as nat),
        decreases count - i,
    {
        out.push(cur);
        cur = g.mul(cur);
        i = i + 1;
    }
    out
}

/// Whether `n` is a power of two.
pub fn is_power_of_two_u(n: usize) -> (r: bool)
    ensures
        r == is_pow2(n as int),
{
    proof {
        reveal(is_pow2);
    }
    if n == 0 {
        return false;
    }
    let mut m: usize = n;
    while m > 1
        invariant
            m >= 1,
            is_pow2(n as int) == is_pow2(m as int),
        decreases m,
    {
        proof {
            reveal(is_pow2);
        }
        if m % 2 == 1 {
            return false;
        }
        m = m / 2;
    }
    proof {
        reveal(is_pow2);
    }
    true
}

/// The base-2 logarithm, rounded down.
pub open spec fn log2_s(n: nat) -> nat
    decreases n,
{
    if n <= 1 {
        0
    } else {
        1 + log2_s(n / 2)
    }
}

/// On a power of two, `pow2` inverts `log2_s`.
pub proof fn lemma_pow2_log2(n: nat)
    requires
        is_pow2(n as int),
    ensures
        pow2(log2_s(n)) == n,
    decreases n,
{
    reveal(is_pow2);
    if n <= 1 {
        lemma2_to64();
    } else {
        lemma_pow2_log2(n / 2);
        lemma_pow2_unfold(log2_s(n));
    }
}

/// The exponent of a power of two.
pub fn log2_u(n: usize) -> (k: u32)
    requires
        is_pow2(n as int),
    ensures
        k as nat == log2_s(n as nat),
        pow2(k as nat) == n as nat,
{
    let mut m: usize = n;
    let mut k: u32 = 0;
    proof {
        reveal(is_pow2);
        lemma2_to64();
    }
    while m > 1
        invariant
            m >= 1,
            is_pow2(m as int),
            n as nat == m as nat * pow2(k as nat),
            pow2(k as nat) <= n as nat,
        decreases m,
    {
        proof {
            reveal(is_pow2);
            lemma_pow2_unfold(k as nat + 1);
            lemma_mul_is_associative(m as int / 2, 2, pow2(k as nat) as int);
            lemma_mul_inequality(2, m as int, pow2(k as nat) as int);
            if k >= 64 {
                if k > 64 {
                    lemma_pow2_strictly_increases(64, k as nat);
                }
                lemma2_to64();
                assert(false);
            }
        }
        m = m / 2;
        k = k + 1;
    }
    proof {
        lemma_pow2_log2(n as nat);
        if (k as nat) < log2_s(n as nat) {
            lemma_pow2_strictly_increases(k as nat, log2_s(n as nat));
        }
        if log2_s(n as nat) < k as nat {
            lemma_pow2_strictly_increases(log2_s(n as nat), k as nat);
        }
    }
    k
}

/// Halving the domain: the even-indexed points of the doubled domain are the
/// points of the trace domain, since the doubled domain's generator squares to
/// the trace domain's.
pub proof fn lemma_domain_square(k: nat)
    requires
        k + 1 <= 32,
    ensures
        forall|i: int| 0 <= i < pow2(k) ==> domain_s(k + 1)[2 * i] == domain_s(k)[i],
{
    lemma_pow2_unfold(k + 1);
    lemma2_to64();
    if k >= 1 {
        let h = root_s(k + 1);
        lemma_pow2_unfold((TWO_ADICITY - k) as nat);
        crate::powers::lemma_f_pow_mul(
            TWO_ADIC_GENERATOR as int,
            pow2((TWO_ADICITY - k - 1) as nat),
            2,
        );
        assert(f_pow_s(h, 2) == root_s(k));
        assert forall|i: int| 0 <= i < pow2(k) implies domain_s(k + 1)[2 * i] == domain_s(
            k,
        )[i] by {
            crate::powers::lemma_f_pow_mul(h, 2, i as nat);
        }
    }
}

/// The n-point evaluation domain for a trace of length n: the powers of the
/// order-n generator, pairwise distinct and nowhere zero.
pub fn trace_domain(n: usize) -> (r: Vec<Felt>)
    requires
        valid_trace_len(n as nat),
    ensures
        r@.len() == n,
        forall|i: int|
            0 <= i < n ==> (#[trigger] r@[i]).wf() && r@[i]@ == domain_s(log2_s(n as nat))[i],
        forall|i: int, j: int|
            0 <= i < j < n
                ==> domain_s(log2_s(n as nat))[i] != domain_s(log2_s(n as nat))[j],
        forall|i: int| 0 <= i < n ==> domain_s(log2_s(n as nat))[i] != 0,
{
    let k: u32 = log2_u(n);
    proof {
        if k > 31 {
            lemma_pow2_strictly_increases(31, k as nat);
        }
    }
    let g: Felt = domain_generator(k);
    let r: Vec<Felt> = power_series(g, n);
    proof {
        assert forall|i: int, j: int| 0 <= i < j < n implies domain_s(
            log2_s(n as nat),
        )[i] != domain_s(log2_s(n as nat))[j] by {
            assert(f_pow_s(g@, i as nat) != f_pow_s(g@, j as nat));
        }
        assert forall|i: int| 0 <= i < n implies domain_s(log2_s(n as nat))[i] != 0 by {
            assert(f_pow_s(g@, i as nat) != 0);
        }
    }
    r
}

} // verus!
