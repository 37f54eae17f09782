use vstd::prelude::*;
use vstd::arithmetic::power2::is_pow2;
use crate::domain::is_power_of_two_u;
use crate::field::felt_vals;
use crate::field::felts_wf;
use crate::field::Felt;
use crate::field::FIELD_MODULUS;
use crate::ProofError;
use winter_crypto::hashers::Blake3_256;
use winter_crypto::Digest;
use winter_crypto::ElementHasher;
use winter_crypto::Hasher;
use winter_math::fields::f64::BaseElement;

verus! {

/// The digest the backend's hasher assigns to a single field value.
pub uninterp spec fn leaf_hash_of(v: int) -> Seq<u8>;

/// The digest the backend's hasher assigns to a pair of child digests.
pub uninterp spec fn merge_of(a: Seq<u8>, b: Seq<u8>) -> Seq<u8>;

/// Relies on `Blake3_256::hash_elements` (winter-crypto): the 32-byte BLAKE3
/// digest of one field element, a function of the element's canonical value
/// alone.
#[verifier::external_body]
fn leaf_hash_call(v: u64) -> (r: Vec<u8>)
    requires
        v < FIELD_MODULUS,
    ensures
        r@.len() == 32,
        r@ == leaf_hash_of(v as int),
{
    let d = Blake3_256::<BaseElement>::hash_elements(&[BaseElement::new(v)]);
    d.as_bytes().to_vec()
}

/// Relies on `Blake3_256::hash` (winter-crypto): the 32-byte BLAKE3 digest of
/// the concatenation of the two 32-byte child digests, which is exactly what
/// the hasher's pairwise `merge` computes for adjacent tree nodes.
#[verifier::external_body]
fn merge_call(a: &Vec<u8>, b: &Vec<u8>) -> (r: Vec<u8>)
    requires
        a@.len() == 32,
        b@.len() == 32,
    ensures
        r@.len() == 32,
        r@ == merge_of(a@, b@),
{
    let mut buf: Vec<u8> = Vec::with_capacity(64);
    buf.extend_from_slice(a);
    buf.extend_from_slice(b);
    Blake3_256::<BaseElement>::hash(&buf).as_bytes().to_vec()
}

/// One level of the tree folded up: adjacent digests merged pairwise, in order.
pub open spec fn pair_merge_s(level: Seq<Seq<u8>>) -> Seq<Seq<u8>> {
    Seq::new(level.len() / 2, |i: int| merge_of(level[2 * i], level[2 * i + 1]))
}

/// The root of the binary Merkle tree over a level of digests: adjacent
/// digests are merged pairwise until a single digest remains.
pub open spec fn merkle_root_s(level: Seq<Seq<u8>>) -> Seq<u8>
    decreases level.len(),
{
    if level.len() <= 1 {
        if level.len() == 1 {
            level[0]
        } else {
            Seq::empty()
        }
    } else {
        merkle_root_s(pair_merge_s(level))
    }
}

/// The leaf digests of a sequence of field values, in order.
pub open spec fn leaves_s(vals: Seq<int>) -> Seq<Seq<u8>> {
    vals.map_values(|v: int| leaf_hash_of(v))
}

/// The byte sequences held by a vector of byte vectors.
pub open spec fn digests_of(s: Seq<Vec<u8>>) -> Seq<Seq<u8>> {
    s.map_values(|v: Vec<u8>| v@)
}

/// Commits to a sequence of field values: hashes each value into a leaf digest
/// and folds the digests pairwise into the root of a binary Merkle tree.
/// Rejects a sequence whose length is empty or not a power of two.
pub fn commit(values: &Vec<Felt>) -> (r: Result<Vec<u8>, ProofError>)
    requires
        felts_wf(values@),
    ensures
        r is Ok <==> is_pow2(values@.len() as int),
        r is Err ==> r->Err_0 == ProofError::CommitmentConstructionError,
        r is Ok ==> r->Ok_0@.len() == 32 && r->Ok_0@ == merkle_root_s(
            leaves_s(felt_vals(values@)),
        ),
{
    let n: usize = values.len();
    if !is_power_of_two_u(n) {
        return Err(ProofError::CommitmentConstructionError);
    }
    let mut level: Vec<Vec<u8>> = Vec::new();
    let mut i: usize = 0;
    while i < n
        invariant
            felts_wf(values@),
            n == values@.len(),
            i <= n,
            level@.len() == i,
            forall|k: int|
                0 <= k < i ==> (#[trigger] level@[k])@.len() == 32 && level@[k]@ == leaf_hash_of(
                    values@[k]@,
                ),
        decreases n - i,
    {
        level.push(leaf_hash_call(values[i].value()));
        i = i + 1;
    }
    proof {
        reveal(is_pow2);
        assert(digests_of(level@) =~= leaves_s(felt_vals(values@)));
    }
    while level.len() > 1
        invariant
            is_pow2(level@.len() as int),
            level@.len() >= 1,
            forall|k: int| 0 <= k < level@.len() ==> (#[trigger] level@[k])@.len() == 32,
            merkle_root_s(digests_of(level@)) == merkle_root_s(leaves_s(felt_vals(values@))),
        decreases level@.len(),
    {
        let half: usize = level.len() / 2;
        let mut next: Vec<Vec<u8>> = Vec::new();
        let mut j: usize = 0;
        while j < half
            invariant
                half == level@.len() / 2,
                half <= usize::MAX / 2,
                level@.len() > 1,
                forall|k: int| 0 <= k < level@.len() ==> (#[trigger] level@[k])@.len() == 32,
                j <= half,
                next@.len() == j,
                forall|k: int|
                    0 <= k < j ==> (#[trigger] next@[k])@.len() == 32 && next@[k]@ == merge_of(
                        level@[2 * k]@,
                        level@[2 * k + 1]@,
                    ),
            decreases half - j,
        {
            let merged: Vec<u8> = merge_call(&level[2 * j], &level[2 * j + 1]);
            next.push(merged);
            j = j + 1;
        }
        proof {
            reveal(is_pow2);
            assert(digests_of(next@) =~= pair_merge_s(digests_of(level@)));
        }
        level = next;
    }
    let root: Vec<u8> = level.remove(0);
    Ok(root)
}

} // verus!
