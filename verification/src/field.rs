//! Field elements of the proof system's scalar field, held in their
//! canonical little-endian byte representation.
//!
//! The arithmetic itself is delegated to the elliptic-curve library;
//! this module states what the delegated operations return over the
//! byte representations and proves everything around them.

use vstd::prelude::*;

use blstrs::Scalar;

verus! {

/// The value of a byte sequence read as a little-endian integer.
pub open spec fn le_val(b: Seq<u8>) -> nat
    decreases b.len(),
{
    if b.len() == 0 {
        0
    } else {
        (b[0] as nat) + 256 * le_val(b.drop_first())
    }
}

/// `256^k`.
pub open spec fn pow256(k: nat) -> nat
    decreases k,
{
    if k == 0 {
        1
    } else {
        256 * pow256((k - 1) as nat)
    }
}

/// The `k`-byte little-endian encoding of `v` (truncating above `256^k`).
pub open spec fn le_bytes(v: nat, k: nat) -> Seq<u8>
    decreases k,
{
    if k == 0 {
        Seq::empty()
    } else {
        seq![(v % 256) as u8] + le_bytes(v / 256, (k - 1) as nat)
    }
}

/// The order of the scalar field of the BLS12-381 curve, from its four
/// little-endian 64-bit limbs.
pub open spec fn scalar_modulus() -> nat {
    0xffffffff00000001 + 0x10000000000000000 * (0x53bda402fffe5bfe
        + 0x10000000000000000 * (0x3339d80809a1d805 + 0x10000000000000000
            * 0x73eda753299d7d48))
}

/// A byte sequence that is the canonical representation of a scalar:
/// exactly 32 bytes, read little-endian, below the field order.
pub open spec fn fr_wf(b: Seq<u8>) -> bool {
    &&& b.len() == 32
    &&& le_val(b) < scalar_modulus()
}

pub proof fn lemma_le_bytes_len(v: nat, k: nat)
    ensures
        le_bytes(v, k).len() == k,
    decreases k,
{
    if k > 0 {
        lemma_le_bytes_len(v / 256, (k - 1) as nat);
    }
}

/// Reading back the `k`-byte little-endian encoding of `v < 256^k`
/// recovers `v`.
pub proof fn lemma_le_bytes_val(v: nat, k: nat)
    requires
        v < pow256(k),
    ensures
        le_val(le_bytes(v, k)) == v,
    decreases k,
{
    if k > 0 {
        let rest = le_bytes(v / 256, (k - 1) as nat);
        assert(le_bytes(v, k).drop_first() =~= rest);
        assert(v / 256 < pow256((k - 1) as nat)) by {
            assert(pow256(k) == 256 * pow256((k - 1) as nat));
            assert(v / 256 * 256 <= v) by (nonlinear_arith);
            assert(256 * pow256((k - 1) as nat) <= 256 * (v / 256)
                ==> pow256((k - 1) as nat) <= v / 256) by (nonlinear_arith);
        }
        lemma_le_bytes_val(v / 256, (k - 1) as nat);
        assert(v % 256 + 256 * (v / 256) == v) by (nonlinear_arith);
    }
}

/// The little-endian encoding of zero is all zero bytes.
pub proof fn lemma_le_bytes_zero(k: nat)
    ensures
        le_bytes(0, k) =~= Seq::new(k, |i: int| 0u8),
    decreases k,
{
    if k > 0 {
        lemma_le_bytes_zero((k - 1) as nat);
        assert(le_bytes(0, k) =~= Seq::new(k, |i: int| 0u8));
    }
}

/// What field addition returns, over canonical representations.
pub uninterp spec fn fr_add_repr(a: Seq<u8>, b: Seq<u8>) -> Seq<u8>;

/// What field multiplication returns, over canonical representations.
pub uninterp spec fn fr_mul_repr(a: Seq<u8>, b: Seq<u8>) -> Seq<u8>;

/// Relies on `blstrs::Scalar::from::<u64>` and `Scalar::to_bytes_le`:
/// the canonical representation of the scalar `n` is the little-endian
/// bytes of `n`, zero padded to 32 bytes.
#[verifier::external_body]
fn scalar_repr_of_u64(n: u64) -> (r: Vec<u8>)
    ensures
        r@ == le_bytes(n as nat, 32),
{
    Scalar::from(n).to_bytes_le().to_vec()
}

/// Relies on `blstrs::Scalar::from_bytes_le` (accepts exactly the
/// canonical representations), field addition on `blstrs::Scalar`, and
/// `Scalar::to_bytes_le` (returns a canonical representation): the sum
/// is a function of the two operand representations alone.
#[verifier::external_body]
fn scalar_add(a: &Vec<u8>, b: &Vec<u8>) -> (r: Vec<u8>)
    requires
        fr_wf(a@),
        fr_wf(b@),
    ensures
        r@ == fr_add_repr(a@, b@),
        fr_wf(r@),
{
    let x = Scalar::from_bytes_le(a.as_slice().try_into().unwrap()).unwrap();
    let y = Scalar::from_bytes_le(b.as_slice().try_into().unwrap()).unwrap();
    (x + y).to_bytes_le().to_vec()
}

/// Relies on `blstrs::Scalar::from_bytes_le`, field multiplication on
/// `blstrs::Scalar`, and `Scalar::to_bytes_le`, as `scalar_add` does.
#[verifier::external_body]
fn scalar_mul(a: &Vec<u8>, b: &Vec<u8>) -> (r: Vec<u8>)
    requires
        fr_wf(a@),
        fr_wf(b@),
    ensures
        r@ == fr_mul_repr(a@, b@),
        fr_wf(r@),
{
    let x = Scalar::from_bytes_le(a.as_slice().try_into().unwrap()).unwrap();
    let y = Scalar::from_bytes_le(b.as_slice().try_into().unwrap()).unwrap();
    (x * y).to_bytes_le().to_vec()
}

/// One field element, as its canonical 32-byte representation.
pub struct Fr {
    bytes: Vec<u8>,
}

impl View for Fr {
    type V = Seq<u8>;

    closed spec fn view(&self) -> Seq<u8> {
        self.bytes@
    }
}

impl Fr {
    /// The representation is canonical.
    pub open spec fn wf(&self) -> bool {
        fr_wf(self@)
    }

    /// The scalar congruent to `n`.
    pub fn from_u64(n: u64) -> (r: Fr)
        ensures
            r@ == le_bytes(n as nat, 32),
            r.wf(),
    {
        let bytes = scalar_repr_of_u64(n);
        proof {
            lemma_le_bytes_len(n as nat, 32);
            assert(pow256(32) > u64::MAX) by {
                reveal_with_fuel(pow256, 33);
            }
            lemma_le_bytes_val(n as nat, 32);
            assert(le_val(bytes@) < scalar_modulus());
        }
        Fr { bytes }
    }

    /// The additive identity.
    pub fn zero() -> (r: Fr)
        ensures
            r@ == le_bytes(0, 32),
            r.wf(),
    {
        Fr::from_u64(0)
    }

    /// The multiplicative identity: the value of the constant-one wire.
    pub fn one() -> (r: Fr)
        ensures
            r@ == le_bytes(1, 32),
            r.wf(),
    {
        Fr::from_u64(1)
    }

    /// Field addition.
    pub fn add(&self, other: &Fr) -> (r: Fr)
        requires
            self.wf(),
            other.wf(),
        ensures
            r@ == fr_add_repr(self@, other@),
            r.wf(),
    {
        Fr { bytes: scalar_add(&self.bytes, &other.bytes) }
    }

    /// Field multiplication.
    pub fn mul(&self, other: &Fr) -> (r: Fr)
        requires
            self.wf(),
            other.wf(),
        ensures
            r@ == fr_mul_repr(self@, other@),
            r.wf(),
    {
        Fr { bytes: scalar_mul(&self.bytes, &other.bytes) }
    }

    /// Whether this is the zero element.
    pub fn is_zero(&self) -> (r: bool)
        requires
            self.wf(),
        ensures
            r == (self@ == le_bytes(0, 32)),
    {
        proof {
            lemma_le_bytes_zero(32);
        }
        let mut i: usize = 0;
        let mut all_zero: bool = true;
        while i < 32
            invariant
                self.wf(),
                i <= 32,
                all_zero == (forall|j: int| 0 <= j < i ==> self@[j] == 0u8),
            decreases 32 - i,
        {
            if self.bytes[i] != 0 {
                all_zero = false;
            }
            i += 1;
        }
        proof {
            if all_zero {
                assert(self@ =~= le_bytes(0, 32));
            }
        }
        all_zero
    }

    /// The canonical representation, as plain bytes.
    pub fn to_bytes(&self) -> (r: Vec<u8>)
        ensures
            r@ == self@,
    {
        let mut r: Vec<u8> = Vec::new();
        let mut i: usize = 0;
        proof {
            assert(r@ =~= self.bytes@.take(0));
        }
        while i < self.bytes.len()
            invariant
                i <= self.bytes@.len(),
                r@ == self.bytes@.take(i as int),
            decreases self.bytes@.len() - i,
        {
            r.push(self.bytes[i]);
            assert(r@ =~= self.bytes@.take(i + 1));
            i += 1;
        }
        proof {
            assert(r@ =~= self@);
        }
        r
    }
}

} // verus!
