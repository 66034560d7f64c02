//! The handoff wire format: the versioned, length-prefixed binary
//! layout in which the flattened assignment batch is written for the
//! external prover.
//!
//! Layout: one version byte, then the number of assignment sequences
//! as a little-endian 64-bit count, then each sequence as its own
//! little-endian 64-bit element count followed by the elements'
//! fixed-width 32-byte representations, input sequences first,
//! auxiliary sequences after them.

use vstd::prelude::*;

use std::sync::Arc;

use crate::field::{le_bytes, le_val, pow256};
use crate::synth::{arc_reprs_view, bytes_vecs_view};

verus! {

/// The version tag this crate writes and accepts.
pub open spec fn wire_version() -> u8 {
    1u8
}

/// The concatenation of the representations of one sequence.
pub open spec fn concat_reprs(rs: Seq<Seq<u8>>) -> Seq<u8>
    decreases rs.len(),
{
    if rs.len() == 0 {
        Seq::empty()
    } else {
        rs[0] + concat_reprs(rs.drop_first())
    }
}

/// The encoding of one assignment sequence: its element count, then
/// its elements.
pub open spec fn enc_group(rs: Seq<Seq<u8>>) -> Seq<u8> {
    le_bytes(rs.len(), 8) + concat_reprs(rs)
}

/// The encoding of several assignment sequences, in order.
pub open spec fn enc_groups(gs: Seq<Seq<Seq<u8>>>) -> Seq<u8>
    decreases gs.len(),
{
    if gs.len() == 0 {
        Seq::empty()
    } else {
        enc_group(gs[0]) + enc_groups(gs.drop_first())
    }
}

/// The whole handoff file for a flattened assignment batch.
pub open spec fn encode_batch_spec(inputs: Seq<Seq<Seq<u8>>>, aux: Seq<Seq<Seq<u8>>>) -> Seq<u8> {
    seq![wire_version()] + le_bytes(inputs.len() + aux.len(), 8) + enc_groups(inputs + aux)
}

/// What the encoder accepts: every element is a fixed-width 32-byte
/// representation and every count fits its 64-bit field.
pub open spec fn group_encodable(rs: Seq<Seq<u8>>) -> bool {
    &&& rs.len() < pow256(8)
    &&& forall|i: int| 0 <= i < rs.len() ==> (#[trigger] rs[i]).len() == 32
}

pub open spec fn groups_encodable(gs: Seq<Seq<Seq<u8>>>) -> bool {
    forall|i: int| 0 <= i < gs.len() ==> group_encodable(#[trigger] gs[i])
}

/// Reads one 64-bit little-endian count.
pub open spec fn dec_u64(b: Seq<u8>) -> Option<(nat, Seq<u8>)> {
    if b.len() < 8 {
        Option::None
    } else {
        Option::Some((le_val(b.take(8)), b.skip(8)))
    }
}

/// Reads `k` fixed-width 32-byte elements.
pub open spec fn dec_elems(b: Seq<u8>, k: nat) -> Option<(Seq<Seq<u8>>, Seq<u8>)>
    decreases k,
{
    if k == 0 {
        Option::Some((Seq::empty(), b))
    } else if b.len() < 32 {
        Option::None
    } else {
        match dec_elems(b.skip(32), (k - 1) as nat) {
            Option::None => Option::None,
            Option::Some((es, rest)) => Option::Some((seq![b.take(32)] + es, rest)),
        }
    }
}

/// Reads `s` assignment sequences.
pub open spec fn dec_groups(b: Seq<u8>, s: nat) -> Option<(Seq<Seq<Seq<u8>>>, Seq<u8>)>
    decreases s,
{
    if s == 0 {
        Option::Some((Seq::empty(), b))
    } else {
        match dec_u64(b) {
            Option::None => Option::None,
            Option::Some((k, b1)) => match dec_elems(b1, k) {
                Option::None => Option::None,
                Option::Some((es, b2)) => match dec_groups(b2, (s - 1) as nat) {
                    Option::None => Option::None,
                    Option::Some((gs, b3)) => Option::Some((seq![es] + gs, b3)),
                },
            },
        }
    }
}

/// Decodes a whole handoff file back into the two sequence groups.
/// Rejects a wrong version byte, an odd sequence count, a short
/// stream, and trailing bytes.
pub open spec fn decode_batch_spec(b: Seq<u8>) -> Option<
    (Seq<Seq<Seq<u8>>>, Seq<Seq<Seq<u8>>>),
> {
    if b.len() < 1 || b[0] != wire_version() {
        Option::None
    } else {
        match dec_u64(b.skip(1)) {
            Option::None => Option::None,
            Option::Some((s2, b1)) => if s2 % 2 != 0 {
                Option::None
            } else {
                match dec_groups(b1, s2) {
                    Option::None => Option::None,
                    Option::Some((gs, rest)) => if rest.len() != 0 {
                        Option::None
                    } else {
                        Option::Some((gs.take((s2 / 2) as int), gs.skip((s2 / 2) as int)))
                    },
                }
            },
        }
    }
}

/// Reading a count recovers what was written.
pub proof fn lemma_dec_u64_enc(n: nat, rest: Seq<u8>)
    requires
        n < pow256(8),
    ensures
        dec_u64(le_bytes(n, 8) + rest) == Option::Some((n, rest)),
{
    crate::field::lemma_le_bytes_len(n, 8);
    crate::field::lemma_le_bytes_val(n, 8);
    assert((le_bytes(n, 8) + rest).take(8) =~= le_bytes(n, 8));
    assert((le_bytes(n, 8) + rest).skip(8) =~= rest);
}

/// Reading elements recovers what was written.
pub proof fn lemma_dec_elems_enc(rs: Seq<Seq<u8>>, rest: Seq<u8>)
    requires
        forall|i: int| 0 <= i < rs.len() ==> (#[trigger] rs[i]).len() == 32,
    ensures
        dec_elems(concat_reprs(rs) + rest, rs.len()) == Option::Some((rs, rest)),
    decreases rs.len(),
{
    if rs.len() == 0 {
        assert(concat_reprs(rs) + rest =~= rest);
    } else {
        let b = concat_reprs(rs) + rest;
        assert(b =~= rs[0] + (concat_reprs(rs.drop_first()) + rest));
        assert(b.take(32) =~= rs[0]);
        assert(b.skip(32) =~= concat_reprs(rs.drop_first()) + rest);
        lemma_dec_elems_enc(rs.drop_first(), rest);
        assert(seq![b.take(32)] + rs.drop_first() =~= rs);
    }
}

/// Reading sequences recovers what was written.
pub proof fn lemma_dec_groups_enc(gs: Seq<Seq<Seq<u8>>>, rest: Seq<u8>)
    requires
        groups_encodable(gs),
    ensures
        dec_groups(enc_groups(gs) + rest, gs.len()) == Option::Some((gs, rest)),
    decreases gs.len(),
{
    if gs.len() == 0 {
        assert(enc_groups(gs) + rest =~= rest);
    } else {
        let b = enc_groups(gs) + rest;
        let g0 = gs[0];
        let tail = enc_groups(gs.drop_first()) + rest;
        assert(b =~= le_bytes(g0.len(), 8) + (concat_reprs(g0) + tail));
        lemma_dec_u64_enc(g0.len(), concat_reprs(g0) + tail);
        lemma_dec_elems_enc(g0, tail);
        lemma_dec_groups_enc(gs.drop_first(), rest);
        assert(seq![g0] + gs.drop_first() =~= gs);
    }
}

/// Serializing a flattened assignment batch through the handoff wire
/// format and deserializing it again yields exactly the element
/// sequences that were written, byte for byte.
pub proof fn lemma_batch_round_trip(inputs: Seq<Seq<Seq<u8>>>, aux: Seq<Seq<Seq<u8>>>)
    requires
        groups_encodable(inputs),
        groups_encodable(aux),
        inputs.len() == aux.len(),
        inputs.len() + aux.len() < pow256(8),
    ensures
        decode_batch_spec(encode_batch_spec(inputs, aux)) == Option::Some((inputs, aux)),
{
    let s2 = inputs.len() + aux.len();
    let gs = inputs + aux;
    let b = encode_batch_spec(inputs, aux);
    assert(b[0] == wire_version());
    assert(b.skip(1) =~= le_bytes(s2, 8) + enc_groups(gs));
    assert(enc_groups(gs) =~= enc_groups(gs) + Seq::<u8>::empty());
    lemma_dec_u64_enc(s2, enc_groups(gs));
    assert(groups_encodable(gs)) by {
        assert forall|i: int| 0 <= i < gs.len() implies group_encodable(#[trigger] gs[i]) by {
            if i < inputs.len() {
                assert(gs[i] == inputs[i]);
            } else {
                assert(gs[i] == aux[i - inputs.len()]);
            }
        }
    }
    lemma_dec_groups_enc(gs, Seq::<u8>::empty());
    assert(gs.take((s2 / 2) as int) =~= inputs);
    assert(gs.skip((s2 / 2) as int) =~= aux);
}

/// Appends the little-endian 64-bit encoding of `n`.
fn push_u64_le(out: &mut Vec<u8>, n: u64)
    ensures
        final(out)@ == old(out)@ + le_bytes(n as nat, 8),
{
    let mut x = n;
    let mut i: usize = 0;
    proof {
        assert(old(out)@ + le_bytes(n as nat, 8) =~= out@ + le_bytes(x as nat, 8));
    }
    while i < 8
        invariant
            i <= 8,
            old(out)@ + le_bytes(n as nat, 8) == out@ + le_bytes(x as nat, (8 - i) as nat),
        decreases 8 - i,
    {
        let b = (x % 256) as u8;
        let ghost prev = out@;
        let ghost xprev = x as nat;
        out.push(b);
        x = x / 256;
        i += 1;
        proof {
            assert(le_bytes(xprev, (9 - i) as nat) == seq![b] + le_bytes(x as nat, (8 - i) as nat));
            assert(prev + le_bytes(xprev, (9 - i) as nat) =~= out@ + le_bytes(
                x as nat,
                (8 - i) as nat,
            ));
        }
    }
    proof {
        assert(le_bytes(x as nat, 0) =~= Seq::<u8>::empty());
        assert(out@ + le_bytes(x as nat, 0) =~= out@);
    }
}

/// Appends all bytes of `b`.
fn push_bytes(out: &mut Vec<u8>, b: &Vec<u8>)
    ensures
        final(out)@ == old(out)@ + b@,
{
    let mut i: usize = 0;
    proof {
        assert(out@ + b@.take(0) =~= out@);
    }
    while i < b.len()
        invariant
            i <= b@.len(),
            out@ == old(out)@ + b@.take(i as int),
        decreases b@.len() - i,
    {
        out.push(b[i]);
        i += 1;
        proof {
            assert(old(out)@ + b@.take(i as int) =~= (old(out)@ + b@.take(i - 1)).push(
                b@[i - 1],
            ));
        }
    }
    proof {
        assert(b@.take(b@.len() as int) =~= b@);
    }
}

/// `enc_groups` grows one group at a time.
pub proof fn lemma_enc_groups_snoc(gs: Seq<Seq<Seq<u8>>>, g: Seq<Seq<u8>>)
    ensures
        enc_groups(gs.push(g)) == enc_groups(gs) + enc_group(g),
    decreases gs.len(),
{
    if gs.len() == 0 {
        assert(gs.push(g).drop_first() =~= Seq::<Seq<Seq<u8>>>::empty());
        assert(gs.push(g)[0] == g);
        assert(enc_groups(gs.push(g)) == enc_group(g) + enc_groups(
            Seq::<Seq<Seq<u8>>>::empty(),
        ));
        assert(enc_group(g) + Seq::<u8>::empty() =~= enc_group(g));
        assert(enc_groups(gs) + enc_group(g) =~= enc_group(g));
    } else {
        assert(gs.push(g).drop_first() =~= gs.drop_first().push(g));
        assert(gs.push(g)[0] == gs[0]);
        lemma_enc_groups_snoc(gs.drop_first(), g);
        assert(enc_groups(gs.push(g)) =~= enc_groups(gs) + enc_group(g));
    }
}

/// `concat_reprs` grows one element at a time.
pub proof fn lemma_concat_reprs_snoc(rs: Seq<Seq<u8>>, r: Seq<u8>)
    ensures
        concat_reprs(rs.push(r)) == concat_reprs(rs) + r,
    decreases rs.len(),
{
    if rs.len() == 0 {
        assert(rs.push(r).drop_first() =~= Seq::<Seq<u8>>::empty());
        assert(rs.push(r)[0] == r);
        assert(concat_reprs(rs.push(r)) == r + concat_reprs(Seq::<Seq<u8>>::empty()));
        assert(r + Seq::<u8>::empty() =~= r);
        assert(concat_reprs(rs) + r =~= r);
    } else {
        assert(rs.push(r).drop_first() =~= rs.drop_first().push(r));
        assert(rs.push(r)[0] == rs[0]);
        lemma_concat_reprs_snoc(rs.drop_first(), r);
        assert(concat_reprs(rs.push(r)) =~= concat_reprs(rs) + r);
    }
}

/// Appends the encoding of one assignment sequence.
fn push_group(out: &mut Vec<u8>, group: &Vec<Vec<u8>>)
    ensures
        final(out)@ == old(out)@ + enc_group(bytes_vecs_view(group@)),
{
    let g = group.len();
    push_u64_le(out, g as u64);
    let ghost gv = bytes_vecs_view(group@);
    let mut j: usize = 0;
    proof {
        assert(gv.take(0) =~= Seq::<Seq<u8>>::empty());
        assert(out@ + concat_reprs(gv.take(0)) =~= out@);
        assert(gv.len() == g);
    }
    while j < g
        invariant
            j <= g,
            g == group@.len(),
            gv == bytes_vecs_view(group@),
            gv.len() == g,
            out@ == old(out)@ + le_bytes(g as nat, 8) + concat_reprs(gv.take(j as int)),
        decreases g - j,
    {
        push_bytes(out, &group[j]);
        j += 1;
        proof {
            assert(gv.take(j as int) =~= gv.take(j - 1).push(gv[j - 1]));
            lemma_concat_reprs_snoc(gv.take(j - 1), gv[j - 1]);
            assert(gv[j - 1] == group@[j - 1]@);
            assert(out@ =~= old(out)@ + le_bytes(g as nat, 8) + concat_reprs(gv.take(j as int)));
        }
    }
    proof {
        assert(gv.take(g as int) =~= gv);
        assert(out@ =~= old(out)@ + enc_group(gv));
    }
}

/// Serializes a flattened assignment batch into the handoff wire
/// format, input sequences first, then auxiliary sequences.
pub fn encode_assignment_batch(inputs: &Vec<Arc<Vec<Vec<u8>>>>, aux: &Vec<Arc<Vec<Vec<u8>>>>) -> (r:
    Vec<u8>)
    requires
        inputs@.len() + aux@.len() < pow256(8),
    ensures
        r@ == encode_batch_spec(arc_reprs_view(inputs@), arc_reprs_view(aux@)),
{
    let mut out: Vec<u8> = Vec::new();
    out.push(1u8);
    let n_in = inputs.len();
    let n_aux = aux.len();
    proof {
        crate::field::lemma_le_bytes_len((n_in + n_aux) as nat, 8);
        assert(pow256(8) <= u64::MAX + 1) by {
            reveal_with_fuel(pow256, 9);
        }
    }
    push_u64_le(&mut out, (n_in as u64) + (n_aux as u64));
    let ghost iv = arc_reprs_view(inputs@);
    let ghost av = arc_reprs_view(aux@);
    let ghost header = seq![wire_version()] + le_bytes((n_in + n_aux) as nat, 8);
    proof {
        assert(out@ =~= header);
        assert(enc_groups(iv.take(0)) =~= Seq::<u8>::empty());
        assert(out@ + enc_groups(iv.take(0)) =~= out@);
    }
    let mut i: usize = 0;
    while i < n_in
        invariant
            i <= n_in,
            n_in == inputs@.len(),
            iv == arc_reprs_view(inputs@),
            out@ == header + enc_groups(iv.take(i as int)),
        decreases n_in - i,
    {
        proof {
            assert(iv[i as int] == bytes_vecs_view(inputs@[i as int]@));
        }
        push_group(&mut out, &inputs[i]);
        i += 1;
        proof {
            assert(iv.take(i as int) =~= iv.take(i - 1).push(iv[i - 1]));
            lemma_enc_groups_snoc(iv.take(i - 1), iv[i - 1]);
            assert(iv[i - 1] == bytes_vecs_view(inputs@[i - 1]@));
            assert(out@ =~= header + enc_groups(iv.take(i as int)));
        }
    }
    proof {
        assert(iv.take(n_in as int) =~= iv);
        assert(enc_groups(av.take(0)) =~= Seq::<u8>::empty());
    }
    let mut j: usize = 0;
    while j < n_aux
        invariant
            j <= n_aux,
            n_aux == aux@.len(),
            av == arc_reprs_view(aux@),
            iv == arc_reprs_view(inputs@),
            out@ == header + enc_groups(iv) + enc_groups(av.take(j as int)),
        decreases n_aux - j,
    {
        proof {
            assert(av[j as int] == bytes_vecs_view(aux@[j as int]@));
        }
        push_group(&mut out, &aux[j]);
        j += 1;
        proof {
            assert(av.take(j as int) =~= av.take(j - 1).push(av[j - 1]));
            lemma_enc_groups_snoc(av.take(j - 1), av[j - 1]);
            assert(av[j - 1] == bytes_vecs_view(aux@[j - 1]@));
            assert(out@ =~= header + enc_groups(iv) + enc_groups(av.take(j as int)));
        }
    }
    proof {
        assert(av.take(n_aux as int) =~= av);
        lemma_enc_groups_concat(iv, av);
        assert(out@ =~= encode_batch_spec(iv, av));
    }
    out
}

/// Encoding distributes over concatenation of sequence groups.
pub proof fn lemma_enc_groups_concat(xs: Seq<Seq<Seq<u8>>>, ys: Seq<Seq<Seq<u8>>>)
    ensures
        enc_groups(xs + ys) == enc_groups(xs) + enc_groups(ys),
    decreases xs.len(),
{
    if xs.len() == 0 {
        assert(xs + ys =~= ys);
        assert(enc_groups(xs) + enc_groups(ys) =~= enc_groups(ys));
    } else {
        assert((xs + ys)[0] == xs[0]);
        assert((xs + ys).drop_first() =~= xs.drop_first() + ys);
        lemma_enc_groups_concat(xs.drop_first(), ys);
        assert(enc_groups(xs + ys) =~= enc_groups(xs) + enc_groups(ys));
    }
}

/// The views of decoded sequence groups.
pub open spec fn groups3_view(s: Seq<Vec<Vec<u8>>>) -> Seq<Seq<Seq<u8>>> {
    s.map_values(|g: Vec<Vec<u8>>| bytes_vecs_view(g@))
}

/// The shape of `dec_elems`: it succeeds exactly when enough bytes
/// remain, and then yields the next `k` 32-byte chunks.
pub proof fn lemma_dec_elems_shape(b: Seq<u8>, k: nat)
    ensures
        b.len() < 32 * k ==> dec_elems(b, k) is None,
        b.len() >= 32 * k ==> {
            &&& dec_elems(b, k) is Some
            &&& dec_elems(b, k)->Some_0.0.len() == k
            &&& dec_elems(b, k)->Some_0.1 == b.skip(32 * k as int)
            &&& forall|i: int|
                0 <= i < k ==> dec_elems(b, k)->Some_0.0[i] == b.subrange(32 * i, 32 * i + 32)
        },
    decreases k,
{
    if k > 0 {
        if b.len() < 32 {
            assert(b.len() < 32 * k);
        } else {
            lemma_dec_elems_shape(b.skip(32), (k - 1) as nat);
            if b.len() >= 32 * k {
                let es = dec_elems(b, k)->Some_0.0;
                let tailes = dec_elems(b.skip(32), (k - 1) as nat)->Some_0.0;
                assert(b.skip(32).skip(32 * (k - 1)) =~= b.skip(32 * k as int));
                assert forall|i: int| 0 <= i < k implies es[i] == b.subrange(
                    32 * i,
                    32 * i + 32,
                ) by {
                    if i == 0 {
                        assert(es[0] == b.take(32));
                        assert(b.take(32) =~= b.subrange(0, 32));
                    } else {
                        assert(es[i] == tailes[i - 1]);
                        assert(b.skip(32).subrange(32 * (i - 1), 32 * (i - 1) + 32) =~= b.subrange(
                            32 * i,
                            32 * i + 32,
                        ));
                    }
                }
            }
        }
    }
}

/// Copies one 32-byte representation out of the stream.
fn copy_chunk(bytes: &Vec<u8>, start: usize) -> (r: Vec<u8>)
    requires
        start + 32 <= bytes@.len(),
    ensures
        r@ == bytes@.subrange(start as int, start as int + 32),
{
    let n = bytes.len();
    let mut r: Vec<u8> = Vec::new();
    let mut i: usize = 0;
    proof {
        assert(r@ =~= bytes@.subrange(start as int, start as int));
    }
    while i < 32
        invariant
            i <= 32,
            n == bytes@.len(),
            start + 32 <= n,
            r@ == bytes@.subrange(start as int, start as int + i),
        decreases 32 - i,
    {
        r.push(bytes[start + i]);
        i += 1;
        proof {
            assert(bytes@.subrange(start as int, start as int + i) =~= bytes@.subrange(
                start as int,
                start as int + i - 1,
            ).push(bytes@[start + i - 1]));
        }
    }
    r
}

/// Reads one little-endian 64-bit count out of the stream.
fn read_u64_at(bytes: &Vec<u8>, pos: usize) -> (r: u64)
    requires
        pos + 8 <= bytes@.len(),
    ensures
        r as nat == le_val(bytes@.subrange(pos as int, pos as int + 8)),
{
    let n = bytes.len();
    let mut val: u64 = 0;
    let mut k: usize = 8;
    proof {
        assert(bytes@.subrange(pos + 8, pos + 8) =~= Seq::<u8>::empty());
    }
    while k > 0
        invariant
            k <= 8,
            n == bytes@.len(),
            pos + 8 <= n,
            val as nat == le_val(bytes@.subrange(pos + k, pos as int + 8)),
            val < pow256((8 - k) as nat),
        decreases k,
    {
        let b = bytes[pos + k - 1];
        proof {
            let whole = bytes@.subrange(pos + k - 1, pos as int + 8);
            assert(whole[0] == bytes@[pos + k - 1]);
            assert(whole.drop_first() =~= bytes@.subrange(pos + k, pos as int + 8));
            assert(le_val(whole) == (b as nat) + 256 * le_val(whole.drop_first()));
            assert(pow256((9 - k) as nat) == 256 * pow256((8 - k) as nat));
            assert((b as nat) + 256 * (val as nat) < 256 * pow256((8 - k) as nat))
                by (nonlinear_arith)
                requires
                    b < 256,
                    (val as nat) < pow256((8 - k) as nat),
            ;
            assert(pow256(8) <= u64::MAX + 1) by {
                reveal_with_fuel(pow256, 9);
            }
            lemma_pow256_le(  (9 - k) as nat, 8);
        }
        val = (b as u64) + 256 * val;
        k -= 1;
    }
    proof {
        assert(bytes@.subrange(pos as int, pos as int + 8) == bytes@.subrange(
            pos + 0,
            pos as int + 8,
        ));
    }
    val
}

/// `pow256` is monotone.
pub proof fn lemma_pow256_le(a: nat, b: nat)
    requires
        a <= b,
    ensures
        pow256(a) <= pow256(b),
    decreases b,
{
    if a < b {
        lemma_pow256_le(a, (b - 1) as nat);
        assert(pow256(b) == 256 * pow256((b - 1) as nat));
    }
}

/// Deserializes a handoff file back into its input and auxiliary
/// sequence groups; returns nothing at all on any malformed stream.
#[verifier::rlimit(100)]
pub fn decode_assignment_batch(bytes: &Vec<u8>) -> (r: Option<
    (Vec<Vec<Vec<u8>>>, Vec<Vec<Vec<u8>>>),
>)
    ensures
        match (r, decode_batch_spec(bytes@)) {
            (Option::None, Option::None) => true,
            (Option::Some(p), Option::Some(q)) => groups3_view(p.0@) == q.0 && groups3_view(p.1@)
                == q.1,
            _ => false,
        },
{
    let n = bytes.len();
    if n < 9 {
        return None;
    }
    if bytes[0] != 1u8 {
        return None;
    }
    let s2 = read_u64_at(bytes, 1);
    let ghost b1 = bytes@.skip(9);
    proof {
        assert(bytes@.skip(1).take(8) =~= bytes@.subrange(1, 9));
        assert(bytes@.skip(1).skip(8) =~= b1);
        assert(dec_u64(bytes@.skip(1)) == Option::Some((s2 as nat, b1)));
    }
    if s2 % 2 != 0 {
        return None;
    }
    let mut acc: Vec<Vec<Vec<u8>>> = Vec::new();
    let mut pos: usize = 9;
    let mut done: u64 = 0;
    proof {
        assert(bytes@.skip(9) =~= b1);
        assert(groups3_view(acc@) =~= Seq::<Seq<Seq<u8>>>::empty());
        if dec_groups(b1, s2 as nat) is Some {
            assert(Seq::<Seq<Seq<u8>>>::empty() + dec_groups(b1, s2 as nat)->Some_0.0 =~= dec_groups(
                b1,
                s2 as nat,
            )->Some_0.0);
        }
    }
    while done < s2
        invariant
            done <= s2,
            n == bytes@.len(),
            bytes@.len() >= 9,
            bytes@[0] == wire_version(),
            b1 == bytes@.skip(9),
            dec_u64(bytes@.skip(1)) == Option::Some((s2 as nat, b1)),
            s2 % 2 == 0,
            pos <= bytes@.len(),
            acc@.len() == done,
            (match dec_groups(bytes@.skip(pos as int), (s2 - done) as nat) {
                Option::None => dec_groups(b1, s2 as nat) is None,
                Option::Some((gs, rest)) => dec_groups(b1, s2 as nat) matches Option::Some(whole)
                    && whole.0 == groups3_view(acc@) + gs && whole.1 == rest,
            }),
        decreases s2 - done,
    {
        if n - pos < 8 {
            proof {
                assert(bytes@.skip(pos as int).len() < 8);
            }
            return None;
        }
        let k = read_u64_at(bytes, pos);
        let ghost rem0 = bytes@.skip(pos as int);
        let ghost after_count = bytes@.skip(pos + 8);
        proof {
            assert(rem0.take(8) =~= bytes@.subrange(pos as int, pos as int + 8));
            assert(rem0.skip(8) =~= after_count);
            assert(dec_u64(rem0) == Option::Some((k as nat, after_count)));
            lemma_dec_elems_shape(after_count, k as nat);
        }
        let avail = n - pos - 8;
        if k > (avail as u64) / 32 {
            proof {
                assert(after_count.len() < 32 * (k as nat)) by (nonlinear_arith)
                    requires
                        after_count.len() == avail,
                        avail < 0x10000000000000000,
                        (k as nat) > (avail as nat) / 32,
                ;
            }
            return None;
        }
        let kk = k as usize;
        proof {
            assert(32 * (k as nat) <= avail) by (nonlinear_arith)
                requires
                    (k as nat) <= (avail as nat) / 32,
            ;
        }
        let ghost es = dec_elems(after_count, k as nat)->Some_0.0;
        let mut group: Vec<Vec<u8>> = Vec::new();
        let mut j: usize = 0;
        let base = pos + 8;
        while j < kk
            invariant
                j <= kk,
                base == pos + 8,
                n == bytes@.len(),
                base + 32 * kk <= n,
                group@.len() == j,
                after_count == bytes@.skip(base as int),
                es == dec_elems(after_count, kk as nat)->Some_0.0,
                dec_elems(after_count, kk as nat) is Some,
                es.len() == kk,
                forall|t: int| 0 <= t < kk ==> es[t] == after_count.subrange(32 * t, 32 * t + 32),
                forall|t: int| 0 <= t < j ==> (#[trigger] group@[t])@ == es[t],
            decreases kk - j,
        {
            let chunk = copy_chunk(bytes, base + 32 * j);
            proof {
                assert(after_count.subrange(32 * j, 32 * j + 32) =~= bytes@.subrange(
                    base + 32 * j,
                    base + 32 * j + 32,
                ));
            }
            group.push(chunk);
            j += 1;
        }
        proof {
            assert(bytes_vecs_view(group@) =~= es);
        }
        let ghost accv0 = groups3_view(acc@);
        acc.push(group);
        pos = base + 32 * kk;
        done = done + 1;
        proof {
            assert(after_count.skip(32 * (kk as int)) =~= bytes@.skip(pos as int));
            assert(groups3_view(acc@) =~= accv0.push(es));
            let remaining = (s2 - done) as nat;
            assert(dec_groups(rem0, (remaining + 1) as nat) == (match dec_groups(
                bytes@.skip(pos as int),
                remaining,
            ) {
                Option::None => Option::<(Seq<Seq<Seq<u8>>>, Seq<u8>)>::None,
                Option::Some((gs, rest)) => Option::Some((seq![es] + gs, rest)),
            }));
            if dec_groups(bytes@.skip(pos as int), remaining) is Some {
                let gs = dec_groups(bytes@.skip(pos as int), remaining)->Some_0.0;
                assert(accv0 + (seq![es] + gs) =~= groups3_view(acc@) + gs);
            }
        }
    }
    proof {
        assert(dec_groups(bytes@.skip(pos as int), 0) == Option::Some((
            Seq::<Seq<Seq<u8>>>::empty(),
            bytes@.skip(pos as int),
        )));
        assert(groups3_view(acc@) + Seq::<Seq<Seq<u8>>>::empty() =~= groups3_view(acc@));
    }
    if pos != n {
        proof {
            assert(bytes@.skip(pos as int).len() != 0);
        }
        return None;
    }
    proof {
        assert(bytes@.skip(pos as int).len() == 0);
    }
    let half = acc.len() / 2;
    proof {
        assert(half as nat == (s2 as nat) / 2);
        assert(half <= acc@.len());
    }
    let ghost accv = groups3_view(acc@);
    let aux_part = acc.split_off(half);
    proof {
        assert(groups3_view(acc@) =~= accv.take(half as int));
        assert(groups3_view(aux_part@) =~= accv.skip(half as int));
    }
    Some((acc, aux_part))
}

} // verus!
