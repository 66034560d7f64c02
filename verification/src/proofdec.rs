//! The proof decoder: reads the external prover's binary output
//! stream and reconstructs one proof object per circuit, in stream
//! order.
//!
//! Each record is a compressed G1 element (48 bytes), a compressed G2
//! element (96 bytes) and a compressed G1 element (48 bytes), in that
//! order.  A truncated stream or a byte string that is not a valid
//! group element aborts decoding immediately.

use vstd::prelude::*;

use group::prime::PrimeCurveAffine;

use crate::errors::{DecodeError, DizkError};

verus! {

/// Whether the elliptic-curve library accepts these 48 bytes as a
/// compressed, subgroup-checked, non-identity G1 element.
pub uninterp spec fn g1_accepts(b: Seq<u8>) -> bool;

/// Whether the elliptic-curve library accepts these 96 bytes as a
/// compressed, subgroup-checked, non-identity G2 element.
pub uninterp spec fn g2_accepts(b: Seq<u8>) -> bool;

/// Relies on `blstrs::G1Affine::from_compressed` (decompression with
/// curve and subgroup checks) and `G1Affine::is_identity`: acceptance
/// is a function of the 48 input bytes alone.
#[verifier::external_body]
fn g1_check(bytes: &Vec<u8>) -> (r: bool)
    requires
        bytes@.len() == 48,
    ensures
        r == g1_accepts(bytes@),
{
    let arr: &[u8; 48] = bytes.as_slice().try_into().unwrap();
    let ct = blstrs::G1Affine::from_compressed(arr);
    if bool::from(ct.is_some()) {
        let p = ct.unwrap();
        !bool::from(p.is_identity())
    } else {
        false
    }
}

/// Relies on `blstrs::G2Affine::from_compressed` and
/// `G2Affine::is_identity`, as `g1_check` does, over 96 bytes.
#[verifier::external_body]
fn g2_check(bytes: &Vec<u8>) -> (r: bool)
    requires
        bytes@.len() == 96,
    ensures
        r == g2_accepts(bytes@),
{
    let arr: &[u8; 96] = bytes.as_slice().try_into().unwrap();
    let ct = blstrs::G2Affine::from_compressed(arr);
    if bool::from(ct.is_some()) {
        let p = ct.unwrap();
        !bool::from(p.is_identity())
    } else {
        false
    }
}

/// One proof object: the three compressed group elements of one
/// circuit's proof, each accepted by the curve library.
pub struct Proof {
    a: Vec<u8>,
    b: Vec<u8>,
    c: Vec<u8>,
}

impl Proof {
    pub closed spec fn a_view(&self) -> Seq<u8> {
        self.a@
    }

    pub closed spec fn b_view(&self) -> Seq<u8> {
        self.b@
    }

    pub closed spec fn c_view(&self) -> Seq<u8> {
        self.c@
    }

    /// Every stored element has its fixed width and is a valid
    /// compressed group element.
    pub open spec fn wf(&self) -> bool {
        &&& self.a_view().len() == 48
        &&& g1_accepts(self.a_view())
        &&& self.b_view().len() == 96
        &&& g2_accepts(self.b_view())
        &&& self.c_view().len() == 48
        &&& g1_accepts(self.c_view())
    }

    /// The compressed bytes of the first G1 element.
    pub fn a_bytes(&self) -> (r: &Vec<u8>)
        ensures
            r@ == self.a_view(),
    {
        &self.a
    }

    /// The compressed bytes of the G2 element.
    pub fn b_bytes(&self) -> (r: &Vec<u8>)
        ensures
            r@ == self.b_view(),
    {
        &self.b
    }

    /// The compressed bytes of the second G1 element.
    pub fn c_bytes(&self) -> (r: &Vec<u8>)
        ensures
            r@ == self.c_view(),
    {
        &self.c
    }
}

/// The `k`-th 192-byte record of the stream.
pub open spec fn stream_record(b: Seq<u8>, k: int) -> Seq<u8> {
    b.subrange(192 * k, 192 * k + 192)
}

/// A full record whose three elements are all accepted.
pub open spec fn record_ok(rec: Seq<u8>) -> bool {
    &&& g1_accepts(rec.subrange(0, 48))
    &&& g2_accepts(rec.subrange(48, 144))
    &&& g1_accepts(rec.subrange(144, 192))
}

/// A stream that decodes completely: a whole number of records, all
/// of them valid.
pub open spec fn stream_ok(b: Seq<u8>) -> bool {
    &&& b.len() % 192 == 0
    &&& forall|k: int| 0 <= k < b.len() / 192 ==> record_ok(#[trigger] stream_record(b, k))
}

/// The proofs a valid stream holds, in stream order.
pub open spec fn proofs_match_stream(b: Seq<u8>, ps: Seq<Proof>) -> bool {
    &&& ps.len() == b.len() / 192
    &&& forall|k: int|
        0 <= k < ps.len() ==> {
            let rec = stream_record(b, k);
            &&& (#[trigger] ps[k]).a_view() == rec.subrange(0, 48)
            &&& ps[k].b_view() == rec.subrange(48, 144)
            &&& ps[k].c_view() == rec.subrange(144, 192)
            &&& ps[k].wf()
        }
}

/// Copies `len` bytes out of the stream.
fn copy_range(bytes: &Vec<u8>, start: usize, len: usize) -> (r: Vec<u8>)
    requires
        start + len <= bytes@.len(),
    ensures
        r@ == bytes@.subrange(start as int, start as int + len),
{
    let n = bytes.len();
    let mut r: Vec<u8> = Vec::new();
    let mut i: usize = 0;
    proof {
        assert(r@ =~= bytes@.subrange(start as int, start as int));
    }
    while i < len
        invariant
            i <= len,
            n == bytes@.len(),
            start + len <= n,
            r@ == bytes@.subrange(start as int, start as int + i),
        decreases len - i,
    {
        r.push(bytes[start + i]);
        i += 1;
        proof {
            assert(bytes@.subrange(start as int, start as int + i) =~= bytes@.subrange(
                start as int,
                start as int + i - 1,
            ).push(bytes@[start + i - 1]));
        }
    }
    r
}

/// Decodes the external prover's proof stream.
///
/// Returns all proofs, in stream order, exactly when the stream is a
/// whole number of valid records.  The first record with an element
/// the curve library rejects aborts with its index; a trailing
/// partial record aborts with a truncation error; no partial result
/// is ever returned.
pub fn decode_proofs(bytes: &Vec<u8>) -> (r: Result<Vec<Proof>, DizkError>)
    ensures
        r is Ok <==> stream_ok(bytes@),
        r is Ok ==> proofs_match_stream(bytes@, r->Ok_0@),
        r is Err ==> (match r->Err_0 {
            DizkError::Decode { detail } => match detail {
                DecodeError::InvalidPoint { record } => {
                    &&& 0 <= record < bytes@.len() / 192
                    &&& !record_ok(stream_record(bytes@, record as int))
                    &&& forall|j: int|
                        0 <= j < record ==> record_ok(#[trigger] stream_record(bytes@, j))
                },
                DecodeError::Truncated => {
                    &&& bytes@.len() % 192 != 0
                    &&& forall|j: int|
                        0 <= j < bytes@.len() / 192 ==> record_ok(
                            #[trigger] stream_record(bytes@, j),
                        )
                },
                _ => false,
            },
            _ => false,
        }),
{
    let n = bytes.len();
    let full = n / 192;
    let mut proofs: Vec<Proof> = Vec::new();
    let mut k: usize = 0;
    while k < full
        invariant
            n == bytes@.len(),
            full == n / 192,
            k <= full,
            proofs@.len() == k,
            forall|j: int| 0 <= j < k ==> record_ok(#[trigger] stream_record(bytes@, j)),
            forall|j: int|
                0 <= j < k ==> {
                    let rec = stream_record(bytes@, j);
                    &&& (#[trigger] proofs@[j]).a_view() == rec.subrange(0, 48)
                    &&& proofs@[j].b_view() == rec.subrange(48, 144)
                    &&& proofs@[j].c_view() == rec.subrange(144, 192)
                    &&& proofs@[j].wf()
                },
        decreases full - k,
    {
        let base = k * 192;
        proof {
            assert(base + 192 <= n) by (nonlinear_arith)
                requires
                    k < full,
                    full == n / 192,
                    base == k * 192,
            ;
        }
        let a = copy_range(bytes, base, 48);
        let b = copy_range(bytes, base + 48, 96);
        let c = copy_range(bytes, base + 144, 48);
        let ghost rec = stream_record(bytes@, k as int);
        proof {
            assert(rec =~= bytes@.subrange(base as int, base + 192));
            assert(a@ =~= rec.subrange(0, 48));
            assert(b@ =~= rec.subrange(48, 144));
            assert(c@ =~= rec.subrange(144, 192));
        }
        let ok = g1_check(&a) && g2_check(&b) && g1_check(&c);
        if !ok {
            return Err(DizkError::Decode { detail: DecodeError::InvalidPoint { record: k } });
        }
        proofs.push(Proof { a, b, c });
        k += 1;
    }
    proof {
        assert(full * 192 <= n && n - full * 192 == n % 192) by (nonlinear_arith)
            requires
                full == n / 192,
        ;
    }
    if n % 192 != 0 {
        return Err(DizkError::Decode { detail: DecodeError::Truncated });
    }
    Ok(proofs)
}

} // verus!
