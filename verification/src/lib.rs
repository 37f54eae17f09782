//! A minimal trace-commitment pipeline of the kind used as a building block in
//! STARK-style proof systems: a trace of field elements is interpolated into a
//! polynomial, the polynomial is evaluated over a doubled domain (the
//! low-degree extension), and the extended evaluations are folded into a
//! Merkle root, which is the commitment. Verification regenerates the root
//! from the full trace and compares it with the claimed one.

use vstd::prelude::*;
use vstd::arithmetic::power2::is_pow2;
use vstd::arithmetic::power2::lemma_pow2_strictly_increases;
use vstd::arithmetic::power2::lemma_pow2_unfold;
use vstd::arithmetic::power2::pow2;

pub mod domain;
pub mod field;
pub mod merkle;
pub mod poly;
pub mod powers;

pub use domain::valid_trace_len;
pub use field::Felt;
pub use field::FIELD_MODULUS;
pub use merkle::commit;
pub use poly::evaluate;
pub use poly::extend;
pub use poly::interpolate;

use crate::domain::domain_s;
use crate::domain::lemma_domain_square;
use crate::domain::lemma_pow2_log2;
use crate::domain::log2_s;
use crate::field::felt_vals;
use crate::field::felts_wf;
use crate::merkle::leaves_s;
use crate::merkle::merkle_root_s;
use crate::poly::coeffs_s;
use crate::poly::lde_s;
use crate::poly::poly_eval_s;

verus! {

/// The ways the pipeline can fail.
#[derive(Clone, Copy, PartialEq, Eq, Structural, Debug)]
pub enum ProofError {
    /// The trace length is not a power of two, or exceeds the largest
    /// supported root-of-unity order; detected before any computation.
    InvalidTraceLength,
    /// The sequence handed to the commitment builder is empty or not of
    /// power-of-two length; unreachable for a validated trace.
    CommitmentConstructionError,
    /// The field backend was asked to invert zero during interpolation;
    /// unreachable for a validated trace, whose domain points are distinct.
    FieldInversionError,
}

/// A trace commitment: the 32-byte Merkle root of the extended trace. The only
/// externally visible artifact of proof generation, freely copyable.
#[derive(Clone, Debug)]
pub struct Proof {
    /// The commitment root.
    pub root: Vec<u8>,
}

/// The Merkle root the pipeline assigns to a trace: the leaf digests of the
/// extended evaluations, folded into a binary Merkle tree.
pub open spec fn proof_root_s(t: Seq<int>) -> Seq<u8> {
    merkle_root_s(leaves_s(lde_s(t)))
}

/// What verification accepts: the trace is valid and the claimed root is
/// exactly the root the pipeline assigns to the trace.
pub open spec fn verifies_s(t: Seq<int>, root: Seq<u8>) -> bool {
    valid_trace_len(t.len()) && root == proof_root_s(t)
}

/// Generates the commitment for a single-column trace: interpolation,
/// low-degree extension, Merkle commitment. A trace whose length is not an
/// accepted power of two is rejected before any computation. The committed
/// extended evaluations embed the trace: every even-indexed one is the trace
/// value at half its index.
pub fn generate_proof(trace: &Vec<Felt>) -> (r: Result<Proof, ProofError>)
    requires
        felts_wf(trace@),
    ensures
        r is Ok <==> valid_trace_len(trace@.len()),
        r is Err ==> r->Err_0 == ProofError::InvalidTraceLength,
        r is Ok ==> r->Ok_0.root@.len() == 32 && r->Ok_0.root@ == proof_root_s(
            felt_vals(trace@),
        ),
        r is Ok ==> forall|i: int|
            0 <= i < trace@.len() ==> lde_s(felt_vals(trace@))[2 * i] == felt_vals(trace@)[i],
{
    let n: usize = trace.len();
    let coeffs: Vec<Felt> = match interpolate(trace) {
        Ok(c) => c,
        Err(e) => {
            return Err(e);
        },
    };
    let lde: Vec<Felt> = extend(&coeffs, n);
    proof {
        assert(felt_vals(lde@) =~= lde_s(felt_vals(trace@)));
        reveal(is_pow2);
        lemma_pow2_unfold(log2_s(n as nat) + 1);
        lemma_pow2_log2(n as nat);
        if log2_s(n as nat) > 31 {
            lemma_pow2_strictly_increases(31, log2_s(n as nat));
        }
        lemma_domain_square(log2_s(n as nat));
        assert forall|i: int|
            0 <= i < trace@.len() implies lde_s(felt_vals(trace@))[2 * i] == felt_vals(
            trace@,
        )[i] by {
            assert(domain_s(log2_s(n as nat) + 1)[2 * i] == domain_s(log2_s(n as nat))[i]);
            assert(poly_eval_s(coeffs_s(felt_vals(trace@)), domain_s(log2_s(n as nat))[i])
                == felt_vals(trace@)[i]);
        }
    }
    let root: Vec<u8> = match commit(&lde) {
        Ok(ro) => ro,
        Err(e) => {
            return Err(e);
        },
    };
    Ok(Proof { root })
}

/// Verifies a claimed commitment by regenerating the pipeline from the trace
/// and comparing roots; a trace whose regeneration fails does not verify.
pub fn verify_proof(trace: &Vec<Felt>, proof: &Proof) -> (r: bool)
    requires
        felts_wf(trace@),
    ensures
        r == verifies_s(felt_vals(trace@), proof.root@),
{
    match generate_proof(trace) {
        Ok(p) => bytes_eq(&p.root, &proof.root),
        Err(_) => false,
    }
}

/// Byte-for-byte equality of two byte vectors.
fn bytes_eq(a: &Vec<u8>, b: &Vec<u8>) -> (r: bool)
    ensures
        r == (a@ == b@),
{
    if a.len() != b.len() {
        return false;
    }
    let mut i: usize = 0;
    while i < a.len()
        invariant
            a@.len() == b@.len(),
            i <= a@.len(),
            forall|k: int| 0 <= k < i ==> a@[k] == b@[k],
        decreases a@.len() - i,
    {
        if a[i] != b[i] {
            return false;
        }
        i = i + 1;
    }
    proof {
        assert(a@ =~= b@);
    }
    true
}

/// Round-trip correctness: for every trace of accepted length, `generate_proof`
/// succeeds with a proof whose root is `proof_root_s` of the trace, and
/// `verify_proof` of the same trace against that proof returns exactly
/// `verifies_s`, which this lemma shows holds — so the round trip yields true.
pub proof fn lemma_round_trip(t: Seq<int>)
    requires
        valid_trace_len(t.len()),
    ensures
        verifies_s(t, proof_root_s(t)),
{
}

/// Determinism: for a trace of accepted length, `generate_proof` ensures the
/// root of every successful call equals `proof_root_s` of the trace, a pure
/// function of the trace values alone; so the roots of any two calls on the
/// same trace are bit-identical.
pub proof fn lemma_proof_deterministic(t: Seq<int>, r1: Seq<u8>, r2: Seq<u8>)
    requires
        valid_trace_len(t.len()),
        r1 == proof_root_s(t),
        r2 == proof_root_s(t),
    ensures
        r1 == r2,
{
}

} // verus!
