use vstd::prelude::*;
use vstd::arithmetic::div_mod::lemma_small_mod;
use vstd::arithmetic::power2::lemma2_to64;
use vstd::arithmetic::power2::lemma_pow2_strictly_increases;
use vstd::arithmetic::power2::lemma_pow2_unfold;
use vstd::arithmetic::power2::pow2;
use crate::domain::domain_generator;
use crate::domain::domain_s;
use crate::domain::is_power_of_two_u;
use crate::domain::lemma_pow2_log2;
use crate::domain::log2_s;
use crate::domain::log2_u;
use crate::domain::power_series;
use crate::domain::trace_domain;
use crate::domain::valid_trace_len;
use crate::domain::MAX_TRACE_LEN;
use crate::field::distinct_seq;
use crate::field::f_add_s;
use crate::field::f_mul_s;
use crate::field::felt_vals;
use crate::field::felts_wf;
use crate::field::u64_vals;
use crate::field::Felt;
use crate::field::FIELD_MODULUS;
use crate::ProofError;
use winter_math::fields::f64::BaseElement;
use winter_math::StarkField;

verus! {

/// The value at `x` of the polynomial whose coefficients are `c`, lowest degree
/// first: Horner's recurrence over the field.
pub open spec fn poly_eval_s(c: Seq<int>, x: int) -> int
    decreases c.len(),
{
    if c.len() == 0 {
        0
    } else {
        f_add_s(c[0], f_mul_s(x, poly_eval_s(c.drop_first(), x)))
    }
}

/// Evaluates the polynomial with coefficients `coeffs` at `x`.
pub fn evaluate(coeffs: &Vec<Felt>, x: Felt) -> (r: Felt)
    requires
        felts_wf(coeffs@),
        x.wf(),
    ensures
        r.wf(),
        r@ == poly_eval_s(felt_vals(coeffs@), x@),
{
    let mut acc: Felt = Felt::zero();
    let mut i: usize = coeffs.len();
    while i > 0
        invariant
            felts_wf(coeffs@),
            x.wf(),
            acc.wf(),
            i <= coeffs@.len(),
            acc@ == poly_eval_s(felt_vals(coeffs@).skip(i as int), x@),
        decreases i,
    {
        i = i - 1;
        proof {
            assert(felt_vals(coeffs@).skip(i as int).drop_first() =~= felt_vals(
                coeffs@,
            ).skip(i as int + 1));
            assert(felt_vals(coeffs@).skip(i as int)[0] == coeffs@[i as int]@);
        }
        acc = coeffs[i].add(x.mul(acc));
    }
    proof {
        assert(felt_vals(coeffs@).skip(0) =~= felt_vals(coeffs@));
    }
    acc
}

/// The coefficient vector that the backend's Lagrange interpolation returns for
/// the given domain points and values.
pub uninterp spec fn interp_of(xs: Seq<int>, ys: Seq<int>) -> Seq<int>;

/// Relies on `polynom::interpolate` (winter-math): given equally many domain
/// points and values it returns, without trimming leading zeros, a coefficient
/// vector of the same length in canonical (reduced) form; the result is a
/// function of the two inputs alone, and — as its documentation shows with
/// `assert_eq!(ys, eval_many(&p, &xs))` — when the domain points are pairwise
/// distinct the returned polynomial evaluates to `ys[i]` at `xs[i]`. A zero
/// domain point is excluded: the synthetic division by (X - x) inside asserts
/// that its constant x is nonzero, so the call would abort on it.
#[verifier::external_body]
fn interpolate_call(xs: &Vec<u64>, ys: &Vec<u64>) -> (r: Vec<u64>)
    requires
        xs@.len() == ys@.len(),
        forall|i: int| 0 <= i < xs@.len() ==> 0 < #[trigger] xs@[i] < FIELD_MODULUS,
        forall|i: int| 0 <= i < ys@.len() ==> ys@[i] < FIELD_MODULUS,
    ensures
        r@.len() == xs@.len(),
        forall|i: int| 0 <= i < r@.len() ==> r@[i] < FIELD_MODULUS,
        u64_vals(r@) == interp_of(u64_vals(xs@), u64_vals(ys@)),
        distinct_seq(u64_vals(xs@)) ==> forall|i: int|
            0 <= i < xs@.len() ==> poly_eval_s(u64_vals(r@), u64_vals(xs@)[i]) == u64_vals(
                ys@,
            )[i],
{
    let xs_e: Vec<BaseElement> = xs.iter().map(|v| BaseElement::new(*v)).collect();
    let ys_e: Vec<BaseElement> = ys.iter().map(|v| BaseElement::new(*v)).collect();
    let p = winter_math::polynom::interpolate(&xs_e, &ys_e, false);
    p.iter().map(|e| e.as_int()).collect()
}

/// The canonical values of a sequence of field elements, as machine words.
fn felts_to_u64s(v: &Vec<Felt>) -> (r: Vec<u64>)
    ensures
        r@.len() == v@.len(),
        u64_vals(r@) == felt_vals(v@),
        forall|i: int| 0 <= i < v@.len() ==> r@[i] as int == v@[i]@,
{
    let mut out: Vec<u64> = Vec::new();
    let mut i: usize = 0;
    while i < v.len()
        invariant
            i <= v@.len(),
            out@.len() == i,
            forall|k: int| 0 <= k < i ==> out@[k] as int == v@[k]@,
        decreases v@.len() - i,
    {
        out.push(v[i].value());
        i = i + 1;
    }
    proof {
        assert(u64_vals(out@) =~= felt_vals(v@));
    }
    out
}

/// Field elements built from reduced machine words.
fn u64s_to_felts(v: &Vec<u64>) -> (r: Vec<Felt>)
    requires
        forall|i: int| 0 <= i < v@.len() ==> v@[i] < FIELD_MODULUS,
    ensures
        r@.len() == v@.len(),
        felts_wf(r@),
        felt_vals(r@) == u64_vals(v@),
{
    let mut out: Vec<Felt> = Vec::new();
    let mut i: usize = 0;
    while i < v.len()
        invariant
            forall|k: int| 0 <= k < v@.len() ==> v@[k] < FIELD_MODULUS,
            i <= v@.len(),
            out@.len() == i,
            forall|k: int| 0 <= k < i ==> (#[trigger] out@[k]).wf() && out@[k]@ == v@[k] as int,
        decreases v@.len() - i,
    {
        proof {
            lemma_small_mod(v@[i as int] as nat, FIELD_MODULUS as nat);
        }
        out.push(Felt::new(v[i]));
        i = i + 1;
    }
    proof {
        assert(felt_vals(out@) =~= u64_vals(v@));
    }
    out
}

/// The interpolation polynomial of a trace: the coefficients the backend
/// returns for the trace over its evaluation domain.
pub open spec fn coeffs_s(t: Seq<int>) -> Seq<int> {
    interp_of(domain_s(log2_s(t.len())), t)
}

/// Turns a trace into the polynomial of degree below the trace length that
/// agrees with the trace on the trace's evaluation domain; rejects traces whose
/// length is not an accepted power of two.
pub fn interpolate(trace: &Vec<Felt>) -> (r: Result<Vec<Felt>, ProofError>)
    requires
        felts_wf(trace@),
    ensures
        r is Ok <==> valid_trace_len(trace@.len()),
        r is Err ==> r->Err_0 == ProofError::InvalidTraceLength,
        r is Ok ==> r->Ok_0@.len() == trace@.len() && felts_wf(r->Ok_0@) && felt_vals(
            r->Ok_0@,
        ) == coeffs_s(felt_vals(trace@)),
        r is Ok ==> forall|i: int|
            0 <= i < trace@.len() ==> poly_eval_s(
                coeffs_s(felt_vals(trace@)),
                domain_s(log2_s(trace@.len()))[i],
            ) == felt_vals(trace@)[i],
{
    let n: usize = trace.len();
    let pow: bool = is_power_of_two_u(n);
    proof {
        lemma2_to64();
    }
    if !(pow && n <= MAX_TRACE_LEN && n <= usize::MAX / 2) {
        return Err(ProofError::InvalidTraceLength);
    }
    let xs: Vec<Felt> = trace_domain(n);
    let xs_u: Vec<u64> = felts_to_u64s(&xs);
    let ys_u: Vec<u64> = felts_to_u64s(trace);
    proof {
        lemma_pow2_log2(n as nat);
        assert(u64_vals(xs_u@) =~= domain_s(log2_s(n as nat)));
        assert(distinct_seq(u64_vals(xs_u@)));
        assert(forall|i: int| 0 <= i < xs_u@.len() ==> 0 < #[trigger] xs_u@[i] < FIELD_MODULUS) by {
            assert(forall|i: int|
                0 <= i < xs@.len() ==> (#[trigger] xs@[i]).wf() && xs_u@[i] as int == xs@[i]@
                    && xs@[i]@ == domain_s(log2_s(n as nat))[i]);
        }
        assert(forall|i: int| 0 <= i < ys_u@.len() ==> ys_u@[i] < FIELD_MODULUS) by {
            assert(forall|i: int|
                0 <= i < trace@.len() ==> (#[trigger] trace@[i]).wf() && ys_u@[i] as int
                    == trace@[i]@);
        }
    }
    let c_u: Vec<u64> = interpolate_call(&xs_u, &ys_u);
    let c: Vec<Felt> = u64s_to_felts(&c_u);
    proof {
        assert(u64_vals(ys_u@) =~= felt_vals(trace@));
    }
    Ok(c)
}

/// The extended evaluations of a trace: its interpolation polynomial evaluated
/// over the doubled domain, in domain order.
pub open spec fn lde_s(t: Seq<int>) -> Seq<int> {
    Seq::new(
        2 * t.len(),
        |i: int| poly_eval_s(coeffs_s(t), domain_s(log2_s(t.len()) + 1)[i]),
    )
}

/// Evaluates the polynomial over the domain of twice the trace length, in
/// domain order: the low-degree extension of the trace.
pub fn extend(poly: &Vec<Felt>, n: usize) -> (r: Vec<Felt>)
    requires
        felts_wf(poly@),
        valid_trace_len(n as nat),
    ensures
        r@.len() == 2 * n,
        felts_wf(r@),
        forall|i: int|
            0 <= i < 2 * n ==> r@[i]@ == poly_eval_s(
                felt_vals(poly@),
                domain_s(log2_s(n as nat) + 1)[i],
            ),
{
    proof {
        lemma2_to64();
    }
    let k: u32 = log2_u(n);
    proof {
        if k > 31 {
            lemma_pow2_strictly_increases(31, k as nat);
        }
        lemma_pow2_unfold(k as nat + 1);
        assert(pow2(log2_s(n as nat) + 1) == 2 * n);
    }
    let h: Felt = domain_generator(k + 1);
    let points: Vec<Felt> = power_series(h, 2 * n);
    let mut out: Vec<Felt> = Vec::new();
    let mut i: usize = 0;
    while i < points.len()
        invariant
            felts_wf(poly@),
            pow2(log2_s(n as nat) + 1) == 2 * n,
            points@.len() == 2 * n,
            forall|t: int|
                0 <= t < 2 * n ==> (#[trigger] points@[t]).wf() && points@[t]@ == domain_s(
                    log2_s(n as nat) + 1,
                )[t],
            i <= 2 * n,
            out@.len() == i,
            forall|t: int|
                0 <= t < i ==> (#[trigger] out@[t]).wf() && out@[t]@ == poly_eval_s(
                    felt_vals(poly@),
                    domain_s(log2_s(n as nat) + 1)[t],
                ),
        decreases points@.len() - i,
    {
        out.push(evaluate(poly, points[i]));
        i = i + 1;
    }
    out
}

} // verus!
