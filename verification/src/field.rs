use vstd::prelude::*;
use vstd::arithmetic::mul::lemma_mul_upper_bound;

verus! {

/// The prime modulus of the field: 2^64 - 2^32 + 1, the "Goldilocks" prime of
/// the backend's 64-bit base field.
pub const FIELD_MODULUS: u64 = 18446744069414584321;

/// Field addition, as a mathematical function on canonical values.
pub open spec fn f_add_s(a: int, b: int) -> int {
    (a + b) % (FIELD_MODULUS as int)
}

/// Field multiplication, as a mathematical function on canonical values.
pub open spec fn f_mul_s(a: int, b: int) -> int {
    (a * b) % (FIELD_MODULUS as int)
}

/// Field exponentiation by a natural number, by repeated multiplication.
pub open spec fn f_pow_s(a: int, e: nat) -> int
    decreases e,
{
    if e == 0 {
        1
    } else {
        f_mul_s(a, f_pow_s(a, (e - 1) as nat))
    }
}

/// An element of the prime field, held as its canonical representative.
#[derive(Clone, Copy, PartialEq, Eq, Structural, Debug)]
pub struct Felt {
    /// The representative; a well-formed element keeps it below the modulus.
    pub v: u64,
}

impl View for Felt {
    type V = int;

    open spec fn view(&self) -> int {
        self.v as int
    }
}

impl Felt {
    /// A field element is well formed when its representative is reduced.
    pub open spec fn wf(self) -> bool {
        self.v < FIELD_MODULUS
    }

    /// Builds a field element from an integer, reducing it modulo the prime.
    pub fn new(value: u64) -> (r: Felt)
        ensures
            r.wf(),
            r@ == (value as int) % (FIELD_MODULUS as int),
    {
        let reduced: u64 = value % FIELD_MODULUS;
        Felt { v: reduced }
    }

    /// The canonical integer representative of this element.
    pub fn value(self) -> (r: u64)
        ensures
            r as int == self@,
    {
        self.v
    }

    /// The additive identity.
    pub fn zero() -> (r: Felt)
        ensures
            r.wf(),
            r@ == 0,
    {
        Felt { v: 0 }
    }

    /// The multiplicative identity.
    pub fn one() -> (r: Felt)
        ensures
            r.wf(),
            r@ == 1,
    {
        Felt { v: 1 }
    }

    /// Field addition.
    pub fn add(self, rhs: Felt) -> (r: Felt)
        requires
            self.wf(),
            rhs.wf(),
        ensures
            r.wf(),
            r@ == f_add_s(self@, rhs@),
    {
        let s: u128 = self.v as u128 + rhs.v as u128;
        let m: u128 = s % (FIELD_MODULUS as u128);
        Felt { v: m as u64 }
    }

    /// Field multiplication.
    pub fn mul(self, rhs: Felt) -> (r: Felt)
        requires
            self.wf(),
            rhs.wf(),
        ensures
            r.wf(),
            r@ == f_mul_s(self@, rhs@),
    {
        proof {
            lemma_mul_upper_bound(
                self.v as int,
                u64::MAX as int,
                rhs.v as int,
                u64::MAX as int,
            );
        }
        let p: u128 = self.v as u128 * rhs.v as u128;
        let m: u128 = p % (FIELD_MODULUS as u128);
        Felt { v: m as u64 }
    }
}

/// The canonical values of a sequence of field elements, in order.
pub open spec fn felt_vals(s: Seq<Felt>) -> Seq<int> {
    s.map_values(|f: Felt| f@)
}

/// Every element of the sequence is a reduced field element.
pub open spec fn felts_wf(s: Seq<Felt>) -> bool {
    forall|i: int| 0 <= i < s.len() ==> (#[trigger] s[i]).wf()
}

/// The integer values of a sequence of machine words, in order.
pub open spec fn u64_vals(s: Seq<u64>) -> Seq<int> {
    s.map_values(|x: u64| x as int)
}

/// No value occurs twice in the sequence.
pub open spec fn distinct_seq(s: Seq<int>) -> bool {
    forall|i: int, j: int| 0 <= i < j < s.len() ==> s[i] != s[j]
}

} // verus!
