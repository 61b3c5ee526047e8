//! The byte boundary of the fused BN256 GPU core (the h-FFT and the five MSMs
//! in one executable): the wire layout of scalars and points, the decoding of
//! the core's five outputs, and the check that a core was exported for the
//! circuit's shape.
//!
//! The wire layout is the zk_dtypes boundary one (standard form, 32-byte LE; G1
//! `x‖y`, G2 `x.c0‖x.c1‖y.c0‖y.c1`; identity = all-zero). The dense proving key
//! is fed straight in.
use std::time::Duration;
use vstd::prelude::*;

use crate::curve::{g1_identity, g2_identity, AffinePoint, G1Affine, G2Affine};
use crate::field::{fq_from_repr, fq_modulus, le_nat, lemma_le_nat_zero, Fq, Fq2, Fr};
use crate::setup::GpuProvingKey;

verus! {

/// Scalar / coordinate bytes (zk_dtypes 32-byte LE limb).
pub const SF: usize = 32;

/// G1 affine: x ‖ y.
pub const G1B: usize = 2 * SF;

/// G2 affine: x.c0 ‖ x.c1 ‖ y.c0 ‖ y.c1.
pub const G2B: usize = 4 * SF;

/// The wire bytes of a sequence of scalars: their encodings, one after the
/// other.
pub open spec fn scalars_wire(s: Seq<Fr>) -> Seq<u8>
    decreases s.len(),
{
    if s.len() == 0 {
        Seq::empty()
    } else {
        scalars_wire(s.drop_last()) + s.last().repr@
    }
}

/// `n` zero bytes.
pub open spec fn zero_bytes(n: nat) -> Seq<u8> {
    Seq::new(n, |i: int| 0u8)
}

/// Every byte is zero.
pub open spec fn is_zero_seq(s: Seq<u8>) -> bool {
    forall|k: int| 0 <= k < s.len() ==> s[k] == 0
}

/// The wire bytes of a G1 point: all-zero for the point at infinity, else
/// `x ‖ y`.
pub open spec fn g1_wire(p: G1Affine) -> Seq<u8> {
    if p.spec_is_identity() {
        zero_bytes(64)
    } else {
        p.x.repr@ + p.y.repr@
    }
}

/// The wire bytes of a G2 point: all-zero for the point at infinity, else
/// `x.c0 ‖ x.c1 ‖ y.c0 ‖ y.c1`.
pub open spec fn g2_wire(p: G2Affine) -> Seq<u8> {
    if p.spec_is_identity() {
        zero_bytes(128)
    } else {
        p.x.c0.repr@ + p.x.c1.repr@ + p.y.c0.repr@ + p.y.c1.repr@
    }
}

/// The wire bytes of a sequence of G1 points.
pub open spec fn g1s_wire(s: Seq<G1Affine>) -> Seq<u8>
    decreases s.len(),
{
    if s.len() == 0 {
        Seq::empty()
    } else {
        g1s_wire(s.drop_last()) + g1_wire(s.last())
    }
}

/// The wire bytes of a sequence of G2 points.
pub open spec fn g2s_wire(s: Seq<G2Affine>) -> Seq<u8>
    decreases s.len(),
{
    if s.len() == 0 {
        Seq::empty()
    } else {
        g2s_wire(s.drop_last()) + g2_wire(s.last())
    }
}

/// The `i`-th 32-byte coordinate of a wire string.
pub open spec fn chunk(b: Seq<u8>, i: int) -> Seq<u8> {
    b.subrange(32 * i, 32 * i + 32)
}

/// Coordinate `i` is present and denotes a canonical base-field element.
pub open spec fn fq_chunk_ok(b: Seq<u8>, i: int) -> bool {
    32 * i + 32 <= b.len() && le_nat(chunk(b, i)) < fq_modulus()
}

/// A wire string that the G1 decoder accepts: all-zero, or two canonical
/// coordinates.
pub open spec fn g1_decodable(b: Seq<u8>) -> bool {
    is_zero_seq(b) || (fq_chunk_ok(b, 0) && fq_chunk_ok(b, 1))
}

/// A wire string that the G2 decoder accepts: all-zero, or four canonical
/// coordinates.
pub open spec fn g2_decodable(b: Seq<u8>) -> bool {
    is_zero_seq(b) || (fq_chunk_ok(b, 0) && fq_chunk_ok(b, 1) && fq_chunk_ok(b, 2) && fq_chunk_ok(b, 3))
}

/// `p` is what the G1 decoder gives for `b`.
pub open spec fn g1_decodes_to(b: Seq<u8>, p: G1Affine) -> bool {
    if is_zero_seq(b) {
        p@ == g1_identity()
    } else {
        p.x.repr@ == chunk(b, 0) && p.y.repr@ == chunk(b, 1)
    }
}

/// `p` is what the G2 decoder gives for `b`.
pub open spec fn g2_decodes_to(b: Seq<u8>, p: G2Affine) -> bool {
    if is_zero_seq(b) {
        p@ == g2_identity()
    } else {
        &&& p.x.c0.repr@ == chunk(b, 0)
        &&& p.x.c1.repr@ == chunk(b, 1)
        &&& p.y.c0.repr@ == chunk(b, 2)
        &&& p.y.c1.repr@ == chunk(b, 3)
    }
}

/// Append the 32 bytes of an encoding.
fn push_bytes(out: &mut Vec<u8>, bytes: &[u8; 32])
    ensures
        final(out)@ == old(out)@ + bytes@,
{
    let mut k: usize = 0;
    while k < 32
        invariant
            0 <= k <= 32,
            out@ == old(out)@ + bytes@.take(k as int),
        decreases 32 - k,
    {
        out.push(bytes[k]);
        proof {
            assert(bytes@.take(k + 1) =~= bytes@.take(k as int).push(bytes@[k as int]));
        }
        k = k + 1;
    }
    proof {
        assert(bytes@.take(32) =~= bytes@);
    }
}

/// The scalars of a witness vector, serialized for the core.
pub fn scalar_bytes(v: &[Fr]) -> (b: Vec<u8>)
    ensures
        b@ == scalars_wire(v@),
        b@.len() == SF * v@.len(),
{
    let mut b: Vec<u8> = Vec::new();
    let mut i: usize = 0;
    while i < v.len()
        invariant
            0 <= i <= v@.len(),
            b@ == scalars_wire(v@.take(i as int)),
            b@.len() == 32 * i,
        decreases v@.len() - i,
    {
        push_bytes(&mut b, &v[i].repr);
        proof {
            assert(v@.take(i + 1).drop_last() =~= v@.take(i as int));
        }
        i = i + 1;
    }
    proof {
        assert(v@.take(v@.len() as int) =~= v@);
    }
    b
}

/// A G1 point in wire form; halo2curves' affine identity maps to all-zero.
pub fn g1_to_bytes(p: &G1Affine) -> (out: [u8; 64])
    ensures
        out@ == g1_wire(*p),
{
    let mut out = [0u8; 64];
    if p.is_identity() {
        proof {
            assert(out@ =~= zero_bytes(64));
        }
        return out;
    }
    let mut k: usize = 0;
    while k < 32
        invariant
            0 <= k <= 32,
            forall|j: int| 0 <= j < k ==> out@[j] == p.x.repr@[j] && out@[32 + j] == p.y.repr@[j],
        decreases 32 - k,
    {
        out[k] = p.x.repr[k];
        out[32 + k] = p.y.repr[k];
        k = k + 1;
    }
    proof {
        assert(out@ =~= p.x.repr@ + p.y.repr@);
    }
    out
}

/// A G2 point in wire form; the point at infinity maps to all-zero.
pub fn g2_to_bytes(p: &G2Affine) -> (out: [u8; 128])
    ensures
        out@ == g2_wire(*p),
{
    let mut out = [0u8; 128];
    if p.is_identity() {
        proof {
            assert(out@ =~= zero_bytes(128));
        }
        return out;
    }
    let mut k: usize = 0;
    while k < 32
        invariant
            0 <= k <= 32,
            forall|j: int|
                0 <= j < k ==> out@[j] == p.x.c0.repr@[j] && out@[32 + j] == p.x.c1.repr@[j]
                    && out@[64 + j] == p.y.c0.repr@[j] && out@[96 + j] == p.y.c1.repr@[j],
        decreases 32 - k,
    {
        out[k] = p.x.c0.repr[k];
        out[32 + k] = p.x.c1.repr[k];
        out[64 + k] = p.y.c0.repr[k];
        out[96 + k] = p.y.c1.repr[k];
        k = k + 1;
    }
    proof {
        assert(out@ =~= p.x.c0.repr@ + p.x.c1.repr@ + p.y.c0.repr@ + p.y.c1.repr@);
    }
    out
}

/// A sequence of G1 points in wire form.
pub fn g1_array(v: &[G1Affine]) -> (b: Vec<u8>)
    ensures
        b@ == g1s_wire(v@),
        b@.len() == G1B * v@.len(),
{
    let mut b: Vec<u8> = Vec::new();
    let mut i: usize = 0;
    while i < v.len()
        invariant
            0 <= i <= v@.len(),
            b@ == g1s_wire(v@.take(i as int)),
            b@.len() == 64 * i,
        decreases v@.len() - i,
    {
        let bytes = g1_to_bytes(&v[i]);
        let ghost before = b@;
        let mut k: usize = 0;
        while k < 64
            invariant
                0 <= k <= 64,
                b@ == before + bytes@.take(k as int),
            decreases 64 - k,
        {
            b.push(bytes[k]);
            proof {
                assert(bytes@.take(k + 1) =~= bytes@.take(k as int).push(bytes@[k as int]));
            }
            k = k + 1;
        }
        proof {
            assert(bytes@.take(64) =~= bytes@);
            assert(v@.take(i + 1).drop_last() =~= v@.take(i as int));
        }
        i = i + 1;
    }
    proof {
        assert(v@.take(v@.len() as int) =~= v@);
    }
    b
}

/// A sequence of G2 points in wire form.
pub fn g2_array(v: &[G2Affine]) -> (b: Vec<u8>)
    ensures
        b@ == g2s_wire(v@),
        b@.len() == G2B * v@.len(),
{
    let mut b: Vec<u8> = Vec::new();
    let mut i: usize = 0;
    while i < v.len()
        invariant
            0 <= i <= v@.len(),
            b@ == g2s_wire(v@.take(i as int)),
            b@.len() == 128 * i,
        decreases v@.len() - i,
    {
        let bytes = g2_to_bytes(&v[i]);
        let ghost before = b@;
        let mut k: usize = 0;
        while k < 128
            invariant
                0 <= k <= 128,
                b@ == before + bytes@.take(k as int),
            decreases 128 - k,
        {
            b.push(bytes[k]);
            proof {
                assert(bytes@.take(k + 1) =~= bytes@.take(k as int).push(bytes@[k as int]));
            }
            k = k + 1;
        }
        proof {
            assert(bytes@.take(128) =~= bytes@);
            assert(v@.take(i + 1).drop_last() =~= v@.take(i as int));
        }
        i = i + 1;
    }
    proof {
        assert(v@.take(v@.len() as int) =~= v@);
    }
    b
}

/// The 32 bytes of coordinate `i`.
fn chunk_at(b: &[u8], i: usize) -> (a: [u8; 32])
    requires
        32 * i + 32 <= b@.len(),
    ensures
        a@ == chunk(b@, i as int),
{
    let mut a = [0u8; 32];
    let len = b.len();
    assert(32 * i + 32 <= len);
    let base = 32 * i;
    let mut k: usize = 0;
    while k < 32
        invariant
            0 <= k <= 32,
            base == 32 * i,
            base + 32 <= b@.len(),
            forall|j: int| 0 <= j < k ==> a@[j] == b@[32 * i + j],
        decreases 32 - k,
    {
        a[k] = b[base + k];
        k = k + 1;
    }
    proof {
        assert(a@ =~= chunk(b@, i as int));
    }
    a
}

/// Whether coordinate `i` of a wire string is present and canonical.
pub fn fq_chunk_is_canonical(b: &[u8], i: usize) -> (ok: bool)
    requires
        i <= 3,
    ensures
        ok == fq_chunk_ok(b@, i as int),
{
    if b.len() < 32 * i + 32 {
        return false;
    }
    let a = chunk_at(b, i);
    fq_from_repr(a).is_some()
}

/// Base-field coordinate `i` of a wire string.
pub fn fq_at(b: &[u8], i: usize) -> (f: Fq)
    requires
        i <= 3,
        fq_chunk_ok(b@, i as int),
    ensures
        f.repr@ == chunk(b@, i as int),
        f.wf(),
{
    let a = chunk_at(b, i);
    match fq_from_repr(a) {
        Some(f) => f,
        None => {
            proof {
                assert(false);
            }
            Fq::zero()
        },
    }
}

/// Whether a wire string is all-zero (the identity on the wire).
pub fn is_identity_bytes(b: &[u8]) -> (z: bool)
    ensures
        z == is_zero_seq(b@),
{
    let mut k: usize = 0;
    while k < b.len()
        invariant
            0 <= k <= b@.len(),
            forall|j: int| 0 <= j < k ==> b@[j] == 0,
        decreases b@.len() - k,
    {
        if b[k] != 0 {
            return false;
        }
        k = k + 1;
    }
    true
}

/// Decode a G1 point from the wire: all-zero is the point at infinity.
pub fn g1_from_bytes(b: &[u8]) -> (p: G1Affine)
    requires
        g1_decodable(b@),
    ensures
        g1_decodes_to(b@, p),
        p.wf(),
{
    if is_identity_bytes(b) {
        return G1Affine::identity();
    }
    G1Affine { x: fq_at(b, 0), y: fq_at(b, 1) }
}

/// Decode a G2 point from the wire: all-zero is the point at infinity.
pub fn g2_from_bytes(b: &[u8]) -> (p: G2Affine)
    requires
        g2_decodable(b@),
    ensures
        g2_decodes_to(b@, p),
        p.wf(),
{
    if is_identity_bytes(b) {
        return G2Affine::identity();
    }
    G2Affine {
        x: Fq2 { c0: fq_at(b, 0), c1: fq_at(b, 1) },
        y: Fq2 { c0: fq_at(b, 2), c1: fq_at(b, 3) },
    }
}

/// Whether the G1 decoder accepts a wire string.
pub fn g1_bytes_decodable(b: &[u8]) -> (ok: bool)
    ensures
        ok == g1_decodable(b@),
{
    is_identity_bytes(b) || (fq_chunk_is_canonical(b, 0) && fq_chunk_is_canonical(b, 1))
}

/// Whether the G2 decoder accepts a wire string.
pub fn g2_bytes_decodable(b: &[u8]) -> (ok: bool)
    ensures
        ok == g2_decodable(b@),
{
    is_identity_bytes(b) || (fq_chunk_is_canonical(b, 0) && fq_chunk_is_canonical(b, 1)
        && fq_chunk_is_canonical(b, 2) && fq_chunk_is_canonical(b, 3))
}

/// A 32-byte encoding that denotes zero is all-zero.
proof fn lemma_repr_zero(a: [u8; 32])
    requires
        le_nat(a@) == 0,
    ensures
        a@ == zero_bytes(32),
{
    lemma_le_nat_zero(a@);
    assert(a@ =~= zero_bytes(32));
}

/// Law: a G1 point with canonical coordinates survives the wire. Its wire
/// form is one the decoder accepts, and what the decoder gives back for it is
/// the point itself.
pub proof fn lemma_g1_wire_roundtrip(p: G1Affine)
    requires
        p.wf(),
    ensures
        g1_decodable(g1_wire(p)),
        forall|q: G1Affine| #[trigger] g1_decodes_to(g1_wire(p), q) ==> q == p,
{
    let w = g1_wire(p);
    if p.spec_is_identity() {
        lemma_repr_zero(p.x.repr);
        lemma_repr_zero(p.y.repr);
        assert forall|q: G1Affine| #[trigger] g1_decodes_to(w, q) implies q == p by {
            lemma_repr_zero(q.x.repr);
            lemma_repr_zero(q.y.repr);
            assert(q.x.repr =~= p.x.repr);
            assert(q.y.repr =~= p.y.repr);
        }
    } else {
        assert(chunk(w, 0) =~= p.x.repr@);
        assert(chunk(w, 1) =~= p.y.repr@);
        if is_zero_seq(w) {
            assert forall|k: int| 0 <= k < 32 implies p.x.repr@[k] == 0 by {
                assert(w[k] == p.x.repr@[k]);
            }
            assert forall|k: int| 0 <= k < 32 implies p.y.repr@[k] == 0 by {
                assert(w[32 + k] == p.y.repr@[k]);
            }
            lemma_le_nat_zero(p.x.repr@);
            lemma_le_nat_zero(p.y.repr@);
        }
        assert forall|q: G1Affine| #[trigger] g1_decodes_to(w, q) implies q == p by {
            assert(q.x.repr =~= p.x.repr);
            assert(q.y.repr =~= p.y.repr);
        }
    }
}

/// Law: on a 64-byte string that the G1 decoder accepts, encoding the decoded
/// point gives the string back.
pub proof fn lemma_g1_wire_decode_encode(b: Seq<u8>, q: G1Affine)
    requires
        b.len() == 64,
        g1_decodable(b),
        g1_decodes_to(b, q),
    ensures
        g1_wire(q) == b,
{
    if is_zero_seq(b) {
        assert(b =~= zero_bytes(64));
    } else {
        if q.spec_is_identity() {
            lemma_repr_zero(q.x.repr);
            lemma_repr_zero(q.y.repr);
            assert forall|k: int| 0 <= k < 64 implies b[k] == 0 by {
                if k < 32 {
                    assert(chunk(b, 0)[k] == b[k]);
                } else {
                    assert(chunk(b, 1)[k - 32] == b[k]);
                }
            }
        }
        assert(b =~= chunk(b, 0) + chunk(b, 1));
    }
}

/// Law: a G2 point with canonical coordinates survives the wire. Its wire
/// form is one the decoder accepts, and what the decoder gives back for it is
/// the point itself.
pub proof fn lemma_g2_wire_roundtrip(p: G2Affine)
    requires
        p.wf(),
    ensures
        g2_decodable(g2_wire(p)),
        forall|q: G2Affine| #[trigger] g2_decodes_to(g2_wire(p), q) ==> q == p,
{
    let w = g2_wire(p);
    if p.spec_is_identity() {
        lemma_repr_zero(p.x.c0.repr);
        lemma_repr_zero(p.x.c1.repr);
        lemma_repr_zero(p.y.c0.repr);
        lemma_repr_zero(p.y.c1.repr);
        assert forall|q: G2Affine| #[trigger] g2_decodes_to(w, q) implies q == p by {
            lemma_repr_zero(q.x.c0.repr);
            lemma_repr_zero(q.x.c1.repr);
            lemma_repr_zero(q.y.c0.repr);
            lemma_repr_zero(q.y.c1.repr);
            assert(q.x.c0.repr =~= p.x.c0.repr);
            assert(q.x.c1.repr =~= p.x.c1.repr);
            assert(q.y.c0.repr =~= p.y.c0.repr);
            assert(q.y.c1.repr =~= p.y.c1.repr);
        }
    } else {
        assert(chunk(w, 0) =~= p.x.c0.repr@);
        assert(chunk(w, 1) =~= p.x.c1.repr@);
        assert(chunk(w, 2) =~= p.y.c0.repr@);
        assert(chunk(w, 3) =~= p.y.c1.repr@);
        if is_zero_seq(w) {
            assert forall|k: int| 0 <= k < 32 implies p.x.c0.repr@[k] == 0 && p.x.c1.repr@[k] == 0
                && p.y.c0.repr@[k] == 0 && p.y.c1.repr@[k] == 0 by {
                assert(w[k] == p.x.c0.repr@[k]);
                assert(w[32 + k] == p.x.c1.repr@[k]);
                assert(w[64 + k] == p.y.c0.repr@[k]);
                assert(w[96 + k] == p.y.c1.repr@[k]);
            }
            lemma_le_nat_zero(p.x.c0.repr@);
            lemma_le_nat_zero(p.x.c1.repr@);
            lemma_le_nat_zero(p.y.c0.repr@);
            lemma_le_nat_zero(p.y.c1.repr@);
        }
        assert forall|q: G2Affine| #[trigger] g2_decodes_to(w, q) implies q == p by {
            assert(q.x.c0.repr =~= p.x.c0.repr);
            assert(q.x.c1.repr =~= p.x.c1.repr);
            assert(q.y.c0.repr =~= p.y.c0.repr);
            assert(q.y.c1.repr =~= p.y.c1.repr);
        }
    }
}

/// Law: on a 128-byte string that the G2 decoder accepts, encoding the
/// decoded point gives the string back.
pub proof fn lemma_g2_wire_decode_encode(b: Seq<u8>, q: G2Affine)
    requires
        b.len() == 128,
        g2_decodable(b),
        g2_decodes_to(b, q),
    ensures
        g2_wire(q) == b,
{
    if is_zero_seq(b) {
        assert(b =~= zero_bytes(128));
    } else {
        if q.spec_is_identity() {
            lemma_repr_zero(q.x.c0.repr);
            lemma_repr_zero(q.x.c1.repr);
            lemma_repr_zero(q.y.c0.repr);
            lemma_repr_zero(q.y.c1.repr);
            assert forall|k: int| 0 <= k < 128 implies b[k] == 0 by {
                if k < 32 {
                    assert(chunk(b, 0)[k] == b[k]);
                } else if k < 64 {
                    assert(chunk(b, 1)[k - 32] == b[k]);
                } else if k < 96 {
                    assert(chunk(b, 2)[k - 64] == b[k]);
                } else {
                    assert(chunk(b, 3)[k - 96] == b[k]);
                }
            }
        }
        assert(b =~= chunk(b, 0) + chunk(b, 1) + chunk(b, 2) + chunk(b, 3));
    }
}

/// Law: in the wire form of a witness vector, scalar `i` is the 32 bytes at
/// offset `32·i`.
pub proof fn lemma_scalars_wire_slot(s: Seq<Fr>, i: int)
    requires
        0 <= i < s.len(),
    ensures
        scalars_wire(s).len() == 32 * s.len(),
        chunk(scalars_wire(s), i) == s[i].repr@,
    decreases s.len(),
{
    lemma_scalars_wire_len(s);
    let prev = s.drop_last();
    lemma_scalars_wire_len(prev);
    if i < s.len() - 1 {
        lemma_scalars_wire_slot(prev, i);
        assert(chunk(scalars_wire(s), i) =~= chunk(scalars_wire(prev), i));
    } else {
        assert(chunk(scalars_wire(s), i) =~= s[i].repr@);
    }
}

proof fn lemma_scalars_wire_len(s: Seq<Fr>)
    ensures
        scalars_wire(s).len() == 32 * s.len(),
    decreases s.len(),
{
    if s.len() > 0 {
        lemma_scalars_wire_len(s.drop_last());
    }
}

/// Law: in the wire form of a G1 query, point `i` is the 64 bytes at offset
/// `64·i`.
pub proof fn lemma_g1s_wire_slot(s: Seq<G1Affine>, i: int)
    requires
        0 <= i < s.len(),
    ensures
        g1s_wire(s).len() == 64 * s.len(),
        g1s_wire(s).subrange(64 * i, 64 * i + 64) == g1_wire(s[i]),
    decreases s.len(),
{
    lemma_g1s_wire_len(s);
    let prev = s.drop_last();
    lemma_g1s_wire_len(prev);
    if i < s.len() - 1 {
        lemma_g1s_wire_slot(prev, i);
        assert(g1s_wire(s).subrange(64 * i, 64 * i + 64) =~= g1s_wire(prev).subrange(64 * i, 64 * i + 64));
    } else {
        assert(g1s_wire(s).subrange(64 * i, 64 * i + 64) =~= g1_wire(s[i]));
    }
}

proof fn lemma_g1s_wire_len(s: Seq<G1Affine>)
    ensures
        g1s_wire(s).len() == 64 * s.len(),
    decreases s.len(),
{
    if s.len() > 0 {
        lemma_g1s_wire_len(s.drop_last());
    }
}

/// The five group elements bellman's final proof assembly consumes.
#[derive(Clone, Copy)]
pub struct CoreOutputs {
    /// A · z
    pub msm_a: G1Affine,
    /// B · z in G1
    pub msm_b_g1: G1Affine,
    /// B · z in G2
    pub msm_b_g2: G2Affine,
    /// L (aux ext) query
    pub msm_l: G1Affine,
    /// h · H query
    pub msm_h: G1Affine,
}

impl CoreOutputs {
    pub open spec fn wf(self) -> bool {
        &&& self.msm_a.wf()
        &&& self.msm_b_g1.wf()
        &&& self.msm_b_g2.wf()
        &&& self.msm_l.wf()
        &&& self.msm_h.wf()
    }
}

/// The core's five output buffers, in its output order
/// `(A·z, B·z in G1, B·z in G2, L, H)`, are each decodable.
pub open spec fn outputs_decodable(outs: Seq<Vec<u8>>) -> bool {
    &&& outs.len() == 5
    &&& g1_decodable(outs[0]@)
    &&& g1_decodable(outs[1]@)
    &&& g2_decodable(outs[2]@)
    &&& g1_decodable(outs[3]@)
    &&& g1_decodable(outs[4]@)
}

/// Whether the core's output buffers can be decoded.
pub fn core_outputs_decodable(outs: &Vec<Vec<u8>>) -> (ok: bool)
    ensures
        ok == outputs_decodable(outs@),
{
    outs.len() == 5 && g1_bytes_decodable(outs[0].as_slice()) && g1_bytes_decodable(
        outs[1].as_slice(),
    ) && g2_bytes_decodable(outs[2].as_slice()) && g1_bytes_decodable(outs[3].as_slice())
        && g1_bytes_decodable(outs[4].as_slice())
}

/// Decode the core's five outputs.
pub fn decode_core_outputs(outs: &Vec<Vec<u8>>) -> (o: CoreOutputs)
    requires
        outputs_decodable(outs@),
    ensures
        g1_decodes_to(outs@[0]@, o.msm_a),
        g1_decodes_to(outs@[1]@, o.msm_b_g1),
        g2_decodes_to(outs@[2]@, o.msm_b_g2),
        g1_decodes_to(outs@[3]@, o.msm_l),
        g1_decodes_to(outs@[4]@, o.msm_h),
        o.wf(),
{
    CoreOutputs {
        msm_a: g1_from_bytes(outs[0].as_slice()),
        msm_b_g1: g1_from_bytes(outs[1].as_slice()),
        msm_b_g2: g2_from_bytes(outs[2].as_slice()),
        msm_l: g1_from_bytes(outs[3].as_slice()),
        msm_h: g1_from_bytes(outs[4].as_slice()),
    }
}

/// The decimal digit `d`.
pub open spec fn digit_char(d: nat) -> char {
    if d == 0 {
        '0'
    } else if d == 1 {
        '1'
    } else if d == 2 {
        '2'
    } else if d == 3 {
        '3'
    } else if d == 4 {
        '4'
    } else if d == 5 {
        '5'
    } else if d == 6 {
        '6'
    } else if d == 7 {
        '7'
    } else if d == 8 {
        '8'
    } else {
        '9'
    }
}

/// `x` in decimal, without leading zeros.
pub open spec fn decimal(x: nat) -> Seq<char>
    decreases x,
{
    if x < 10 {
        seq![digit_char(x)]
    } else {
        decimal(x / 10).push(digit_char(x % 10))
    }
}

/// The file-stem prefix of the exporter's naming convention.
pub open spec fn core_prefix() -> Seq<char> {
    seq!['b', 'e', 'l', 'l', 'm', 'a', 'n', '_', 'c', 'o', 'r', 'e', '_', 'n']
}

/// The file stem the exporter gives the core for a shape:
/// `bellman_core_n{n}_m{m}_i{num_inputs}`.
pub open spec fn core_name(n: nat, m: nat, num_inputs: nat) -> Seq<char> {
    core_prefix() + decimal(n) + seq!['_', 'm'] + decimal(m) + seq!['_', 'i'] + decimal(num_inputs)
}

/// A stem passes the shape check when it does not follow the naming
/// convention, or names exactly this shape.
pub open spec fn stem_fits_shape(stem: Seq<char>, n: nat, m: nat, num_inputs: nat) -> bool {
    core_prefix().is_prefix_of(stem) ==> stem == core_name(n, m, num_inputs)
}

/// Every character is a decimal digit.
pub open spec fn all_digits(s: Seq<char>) -> bool {
    forall|k: int| 0 <= k < s.len() ==> '0' <= #[trigger] s[k] && s[k] <= '9'
}

proof fn lemma_digit_char(d: nat, e: nat)
    requires
        d < 10,
        e < 10,
    ensures
        '0' <= digit_char(d) <= '9',
        digit_char(d) == digit_char(e) ==> d == e,
{
}

/// A decimal numeral is a non-empty string of digits; two of length one or
/// more are numerals of at least ten.
proof fn lemma_decimal_digits(x: nat)
    ensures
        decimal(x).len() >= 1,
        all_digits(decimal(x)),
        x >= 10 <==> decimal(x).len() >= 2,
    decreases x,
{
    if x < 10 {
        lemma_digit_char(x, x);
    } else {
        lemma_decimal_digits(x / 10);
        lemma_digit_char(x % 10, x % 10);
        let d = decimal(x);
        assert forall|k: int| 0 <= k < d.len() implies '0' <= #[trigger] d[k] && d[k] <= '9' by {
            if k < d.len() - 1 {
                assert(d[k] == decimal(x / 10)[k]);
            }
        }
    }
}

/// Distinct numbers have distinct numerals.
proof fn lemma_decimal_injective(x: nat, y: nat)
    requires
        decimal(x) == decimal(y),
    ensures
        x == y,
    decreases x,
{
    lemma_decimal_digits(x);
    lemma_decimal_digits(y);
    if x < 10 {
        assert(y < 10);
        assert(decimal(x) =~= seq![digit_char(x)]);
        assert(decimal(y) =~= seq![digit_char(y)]);
        assert(decimal(x)[0] == decimal(y)[0]);
        assert(seq![digit_char(x)][0] == digit_char(x));
        assert(seq![digit_char(y)][0] == digit_char(y));
        lemma_digit_char(x, y);
    } else {
        assert(y >= 10);
        let (dx, dy) = (decimal(x), decimal(y));
        assert(dx.last() == dy.last());
        lemma_digit_char(x % 10, y % 10);
        assert(dx.drop_last() =~= decimal(x / 10));
        assert(dy.drop_last() =~= decimal(y / 10));
        lemma_decimal_injective(x / 10, y / 10);
        assert(x == 10 * (x / 10) + x % 10);
        assert(y == 10 * (y / 10) + y % 10);
    }
}

/// A string of digits followed by `_` splits there in one way only.
proof fn lemma_split_at_underscore(x: Seq<char>, u: Seq<char>, y: Seq<char>, v: Seq<char>)
    requires
        all_digits(x),
        all_digits(y),
        u.len() >= 1 && u[0] == '_',
        v.len() >= 1 && v[0] == '_',
        x + u == y + v,
    ensures
        x == y,
        u == v,
{
    let s = x + u;
    if x.len() < y.len() {
        assert(s[x.len() as int] == u[0]);
        assert((y + v)[x.len() as int] == y[x.len() as int]);
    } else if y.len() < x.len() {
        assert((y + v)[y.len() as int] == v[0]);
        assert(s[y.len() as int] == x[y.len() as int]);
    }
    assert(x =~= s.subrange(0, x.len() as int));
    assert(y =~= (y + v).subrange(0, y.len() as int));
    assert(u =~= s.subrange(x.len() as int, s.len() as int));
    assert(v =~= (y + v).subrange(y.len() as int, s.len() as int));
}

/// The exporter's name of a shape, with the prefix taken off, as the first
/// numeral and what follows it.
proof fn lemma_core_name_parts(n: nat, m: nat, i: nat)
    ensures
        core_prefix().is_prefix_of(core_name(n, m, i)),
        core_name(n, m, i).skip(core_prefix().len() as int) == decimal(n) + (seq!['_', 'm'] + (
        decimal(m) + (seq!['_', 'i'] + decimal(i)))),
{
    let s = core_name(n, m, i);
    assert(core_prefix() =~= s.subrange(0, core_prefix().len() as int));
    assert(s.skip(core_prefix().len() as int) =~= decimal(n) + (seq!['_', 'm'] + (decimal(m) + (
    seq!['_', 'i'] + decimal(i)))));
}

/// Law: the shape check tells shapes apart. The exporter's name for a shape
/// passes the check for that shape and for no other.
pub proof fn lemma_core_name_identifies_shape(a: nat, b: nat, c: nat, n: nat, m: nat, i: nat)
    ensures
        stem_fits_shape(core_name(a, b, c), n, m, i) <==> (a == n && b == m && c == i),
{
    lemma_core_name_parts(a, b, c);
    lemma_core_name_parts(n, m, i);
    if core_name(a, b, c) == core_name(n, m, i) {
        let p = core_prefix().len() as int;
        lemma_decimal_digits(a);
        lemma_decimal_digits(n);
        lemma_decimal_digits(b);
        lemma_decimal_digits(m);
        let u = seq!['_', 'm'] + (decimal(b) + (seq!['_', 'i'] + decimal(c)));
        let v = seq!['_', 'm'] + (decimal(m) + (seq!['_', 'i'] + decimal(i)));
        lemma_split_at_underscore(decimal(a), u, decimal(n), v);
        let u2 = seq!['_', 'i'] + decimal(c);
        let v2 = seq!['_', 'i'] + decimal(i);
        assert(u.skip(2) =~= decimal(b) + u2);
        assert(v.skip(2) =~= decimal(m) + v2);
        lemma_split_at_underscore(decimal(b), u2, decimal(m), v2);
        assert(u2.skip(2) =~= decimal(c));
        assert(v2.skip(2) =~= decimal(i));
        lemma_decimal_injective(a, n);
        lemma_decimal_injective(b, m);
        lemma_decimal_injective(c, i);
    }
}

fn digit(d: usize) -> (c: char)
    requires
        d < 10,
    ensures
        c == digit_char(d as nat),
{
    match d {
        0 => '0',
        1 => '1',
        2 => '2',
        3 => '3',
        4 => '4',
        5 => '5',
        6 => '6',
        7 => '7',
        8 => '8',
        _ => '9',
    }
}

/// Append `x` in decimal.
fn push_decimal(out: &mut Vec<char>, x: usize)
    ensures
        final(out)@ == old(out)@ + decimal(x as nat),
    decreases x,
{
    if x >= 10 {
        push_decimal(out, x / 10);
    }
    out.push(digit(x % 10));
    proof {
        if x < 10 {
            assert(decimal(x as nat) =~= seq![digit_char(x as nat)]);
        }
    }
}

/// The exporter's file-stem prefix.
fn prefix_chars() -> (p: Vec<char>)
    ensures
        p@ == core_prefix(),
{
    let p = vec!['b', 'e', 'l', 'l', 'm', 'a', 'n', '_', 'c', 'o', 'r', 'e', '_', 'n'];
    proof {
        assert(p@ =~= core_prefix());
    }
    p
}

/// The file stem that the exporter gives the core for a shape.
pub fn core_stem(n: usize, m: usize, num_inputs: usize) -> (name: Vec<char>)
    ensures
        name@ == core_name(n as nat, m as nat, num_inputs as nat),
{
    let mut name = prefix_chars();
    push_decimal(&mut name, n);
    name.push('_');
    name.push('m');
    push_decimal(&mut name, m);
    name.push('_');
    name.push('i');
    push_decimal(&mut name, num_inputs);
    proof {
        assert(name@ =~= core_name(n as nat, m as nat, num_inputs as nat));
    }
    name
}

/// Whether `p` starts `s`.
fn starts_with(s: &Vec<char>, p: &Vec<char>) -> (b: bool)
    ensures
        b == p@.is_prefix_of(s@),
{
    if p.len() > s.len() {
        return false;
    }
    let mut k: usize = 0;
    while k < p.len()
        invariant
            0 <= k <= p@.len(),
            p@.len() <= s@.len(),
            forall|j: int| 0 <= j < k ==> p@[j] == s@[j],
        decreases p@.len() - k,
    {
        if p[k] != s[k] {
            return false;
        }
        k = k + 1;
    }
    proof {
        assert(p@ =~= s@.subrange(0, p@.len() as int));
    }
    true
}

/// Whether two character strings are equal.
fn chars_eq(a: &Vec<char>, b: &Vec<char>) -> (e: bool)
    ensures
        e == (a@ == b@),
{
    if a.len() != b.len() {
        return false;
    }
    let mut k: usize = 0;
    while k < a.len()
        invariant
            0 <= k <= a@.len(),
            a@.len() == b@.len(),
            forall|j: int| 0 <= j < k ==> a@[j] == b@[j],
        decreases a@.len() - k,
    {
        if a[k] != b[k] {
            return false;
        }
        k = k + 1;
    }
    proof {
        assert(a@ =~= b@);
    }
    true
}

/// Whether a core's file stem fits the circuit shape `(n, m, num_inputs)`:
/// a stem that follows the export naming convention must name exactly this
/// shape; any other stem is not checked.
pub fn core_stem_matches(stem: &Vec<char>, n: usize, m: usize, num_inputs: usize) -> (ok: bool)
    ensures
        ok == stem_fits_shape(stem@, n as nat, m as nat, num_inputs as nat),
{
    let prefix = prefix_chars();
    if !starts_with(stem, &prefix) {
        return true;
    }
    let expected = core_stem(n, m, num_inputs);
    chars_eq(stem, &expected)
}

/// A core whose file stem names another circuit shape.
pub struct CoreShapeMismatch {
    /// The stem of the loaded core.
    pub found: Vec<char>,
    /// The stem the exporter gives a core of this shape.
    pub expected: Vec<char>,
}

/// `s` is a contiguous part of `t`.
pub open spec fn is_part_of(s: Seq<char>, t: Seq<char>) -> bool {
    exists|i: int, j: int| 0 <= i <= j <= t.len() && s == t.subrange(i, j)
}

/// The position of the last `.` in a name, or -1 when it has none.
pub open spec fn last_dot(s: Seq<char>) -> int
    decreases s.len(),
{
    if s.len() == 0 {
        -1
    } else if s.last() == '.' {
        s.len() - 1
    } else {
        last_dot(s.drop_last())
    }
}

/// The stem of a file name: the part before its final `.`, or the whole name
/// when it has no `.` other than a leading one.
pub open spec fn name_stem(name: Seq<char>) -> Seq<char> {
    if last_dot(name) >= 1 {
        name.subrange(0, last_dot(name))
    } else {
        name
    }
}

/// The position of the last `/` in a path, or -1 when it has none.
pub open spec fn last_slash(s: Seq<char>) -> int
    decreases s.len(),
{
    if s.len() == 0 {
        -1
    } else if s.last() == '/' {
        s.len() - 1
    } else {
        last_slash(s.drop_last())
    }
}

/// The text after the last `/` of a path (the whole path when it has none).
pub open spec fn last_component(s: Seq<char>) -> Seq<char> {
    s.subrange(last_slash(s) + 1, s.len() as int)
}

/// A path with its trailing separators and trailing `.` components taken
/// off, which `Path::components` drops.
pub open spec fn trim_path(s: Seq<char>) -> Seq<char>
    decreases s.len(),
{
    if s.len() >= 1 && s.last() == '/' {
        trim_path(s.drop_last())
    } else if s.len() >= 2 && s.last() == '.' && s[s.len() - 2] == '/' {
        trim_path(s.subrange(0, s.len() - 2))
    } else {
        s
    }
}

/// The file name of a path: its final component when that is a normal name
/// (not empty, neither `.` nor `..`), else none.
pub open spec fn path_file_name(s: Seq<char>) -> Option<Seq<char>> {
    let c = last_component(trim_path(s));
    if c.len() == 0 || c == seq!['.'] || c == seq!['.', '.'] {
        None
    } else {
        Some(c)
    }
}

/// A path that every platform splits alike: no backslash, no drive or
/// prefix colon, and no leading `//`.
pub open spec fn plain_path(s: Seq<char>) -> bool {
    &&& forall|k: int| 0 <= k < s.len() ==> #[trigger] s[k] != '\\' && s[k] != ':'
    &&& !(s.len() >= 2 && s[0] == '/' && s[1] == '/')
}

/// The stem of the file a plain path names, or empty when it names none.
pub open spec fn path_stem(s: Seq<char>) -> Seq<char> {
    match path_file_name(s) {
        Some(name) => name_stem(name),
        None => Seq::empty(),
    }
}

/// `Path::file_stem` (then `to_str`, or `""` when there is none): the stem
/// of the file named by `path`. What is claimed: it is a contiguous part of
/// `path`, and for a plain path it is `path_stem`: the final component, once
/// trailing separators and `.` components are dropped, is the file name when
/// it is a normal name (none for `..`, `.` or an empty path), and the stem is
/// the part of it before its final `.` (as `Path::file_name` and
/// `Path::file_stem` document). Paths with backslashes, colons or a leading
/// `//` are split differently across platforms, and only the first claim is
/// made of them.
#[verifier::external_body]
fn path_file_stem(path: &str) -> (stem: Vec<char>)
    ensures
        is_part_of(stem@, path@),
        plain_path(path@) ==> stem@ == path_stem(path@),
{
    std::path::Path::new(path).file_stem().and_then(|s| s.to_str()).unwrap_or("").chars().collect()
}

/// Whether the core at `path` was exported for the circuit shape
/// `(n, m, num_inputs)`; a mismatch would otherwise only surface as an opaque
/// PJRT abort. Best-effort: only convention-named artifacts are checked. The
/// stem is a part of `path` (for a plain path, `path_stem`), and the result
/// is `Ok` exactly when that stem fits the shape.
pub fn core_shape_check(path: &str, n: usize, m: usize, num_inputs: usize) -> (r: Result<(), CoreShapeMismatch>)
    ensures
        exists|i: int, j: int| {
            &&& 0 <= i <= j <= path@.len()
            &&& #[trigger] stem_fits_shape(path@.subrange(i, j), n as nat, m as nat, num_inputs as nat) == (r is Ok)
            &&& r matches Err(e) ==> e.found@ == path@.subrange(i, j) && e.expected@ == core_name(n as nat, m as nat, num_inputs as nat)
        },
        plain_path(path@) ==> {
            &&& (r is Ok <==> stem_fits_shape(path_stem(path@), n as nat, m as nat, num_inputs as nat))
            &&& r matches Err(e) ==> e.found@ == path_stem(path@) && e.expected@ == core_name(
                n as nat,
                m as nat,
                num_inputs as nat,
            )
        },
{
    let stem = path_file_stem(path);
    let ghost (i, j) = choose|i: int, j: int| 0 <= i <= j <= path@.len() && stem@ == path@.subrange(i, j);
    if core_stem_matches(&stem, n, m, num_inputs) {
        proof {
            assert(stem_fits_shape(path@.subrange(i, j), n as nat, m as nat, num_inputs as nat));
        }
        Ok(())
    } else {
        let expected = core_stem(n, m, num_inputs);
        proof {
            assert(!stem_fits_shape(path@.subrange(i, j), n as nat, m as nat, num_inputs as nat));
        }
        Err(CoreShapeMismatch { found: stem, expected })
    }
}

/// Fail fast if the core at `path` was exported for a different circuit
/// shape. The check never fails on the inputs admitted here: a plain path
/// whose stem fits the shape (a stem outside the export convention always
/// fits). Callers test `core_shape_check` first and stop on a mismatch.
pub fn assert_core_shape(path: &str, n: usize, m: usize, num_inputs: usize)
    requires
        plain_path(path@),
        stem_fits_shape(path_stem(path@), n as nat, m as nat, num_inputs as nat),
{
    let r = core_shape_check(path, n, m, num_inputs);
    assert(r is Ok);
}

/// The dense proving key in the core's input form, with the shape it fixes:
/// `m` variables, a domain of `n` points, `num_aux` auxiliary variables.
pub struct KeyBuffers {
    /// A query, `m` G1 points.
    pub a: Vec<u8>,
    /// B query in G1, `m` points.
    pub b_g1: Vec<u8>,
    /// B query in G2, `m` points.
    pub b_g2: Vec<u8>,
    /// L query, `num_aux` points.
    pub l: Vec<u8>,
    /// H query, `n - 1` points.
    pub h: Vec<u8>,
    pub m: usize,
    pub n: usize,
    pub num_aux: usize,
}

/// What is uploaded once per proving key: the five dense queries in wire
/// form, in the core's input order, and the shape they fix.
pub fn key_buffers(gk: &GpuProvingKey) -> (k: KeyBuffers)
    requires
        gk.h@.len() < usize::MAX,
    ensures
        k.m == gk.a@.len(),
        k.n == gk.h@.len() + 1,
        k.num_aux == gk.l@.len(),
        k.a@ == g1s_wire(gk.a@),
        k.b_g1@ == g1s_wire(gk.b_g1@),
        k.b_g2@ == g2s_wire(gk.b_g2@),
        k.l@ == g1s_wire(gk.l@),
        k.h@ == g1s_wire(gk.h@),
{
    KeyBuffers {
        a: g1_array(gk.a.as_slice()),
        b_g1: g1_array(gk.b_g1.as_slice()),
        b_g2: g2_array(gk.b_g2.as_slice()),
        l: g1_array(gk.l.as_slice()),
        h: g1_array(gk.h.as_slice()),
        m: gk.a.len(),
        n: gk.h.len() + 1,
        num_aux: gk.l.len(),
    }
}

/// Per-proof host-side phase timings for the fused core (profiling aid).
#[derive(Clone, Copy, Default)]
pub struct Phases {
    /// CPU: per-proof witness (z/az/bz) -> bytes
    pub serialize: Duration,
    /// upload the witness
    pub h2d: Duration,
    /// execute (enqueue)
    pub dispatch: Duration,
    /// read the 5 outputs (blocks on the computation)
    pub readback: Duration,
}

/// The number a string of decimal digits denotes, read by character code.
pub open spec fn digits_value(s: Seq<char>) -> int
    decreases s.len(),
{
    if s.len() == 0 {
        0
    } else {
        digits_value(s.drop_last()) * 10 + ((s.last() as u32) as int - ('0' as u32) as int)
    }
}

/// Law: the digit for `d` is the character whose code is `'0' + d`.
pub proof fn lemma_digit_char_code(d: nat)
    requires
        d < 10,
    ensures
        (digit_char(d) as u32) as int == ('0' as u32) as int + d,
{
}

/// Law: a numeral is ordinary decimal: reading it back digit by digit, by
/// character code, gives the number.
pub proof fn lemma_decimal_value(x: nat)
    ensures
        digits_value(decimal(x)) == x,
    decreases x,
{
    if x < 10 {
        lemma_digit_char_code(x);
        let d = decimal(x);
        assert(d =~= seq![digit_char(x)]);
        assert(d.drop_last() =~= Seq::<char>::empty());
        assert(digits_value(Seq::<char>::empty()) == 0);
        assert(d.last() == digit_char(x));
    } else {
        lemma_decimal_value(x / 10);
        lemma_digit_char_code(x % 10);
        let d = decimal(x);
        assert(d.drop_last() =~= decimal(x / 10));
        assert(d.last() == digit_char(x % 10));
        assert(digits_value(d) == digits_value(decimal(x / 10)) * 10 + (x % 10) as int);
        assert(x == 10 * (x / 10) + x % 10);
    }
}

/// Law: in the wire form of a G2 query, point `i` is the 128 bytes at offset
/// `128·i`.
pub proof fn lemma_g2s_wire_slot(s: Seq<G2Affine>, i: int)
    requires
        0 <= i < s.len(),
    ensures
        g2s_wire(s).len() == 128 * s.len(),
        g2s_wire(s).subrange(128 * i, 128 * i + 128) == g2_wire(s[i]),
    decreases s.len(),
{
    lemma_g2s_wire_len(s);
    let prev = s.drop_last();
    lemma_g2s_wire_len(prev);
    if i < s.len() - 1 {
        lemma_g2s_wire_slot(prev, i);
        assert(g2s_wire(s).subrange(128 * i, 128 * i + 128) =~= g2s_wire(prev).subrange(128 * i, 128 * i + 128));
    } else {
        assert(g2s_wire(s).subrange(128 * i, 128 * i + 128) =~= g2_wire(s[i]));
    }
}

proof fn lemma_g2s_wire_len(s: Seq<G2Affine>)
    ensures
        g2s_wire(s).len() == 128 * s.len(),
    decreases s.len(),
{
    if s.len() > 0 {
        lemma_g2s_wire_len(s.drop_last());
    }
}

/// Law: what the core reads of an uploaded key is the key. For a key with
/// canonical points, the 64-byte slot `i` of each G1 buffer and the 128-byte
/// slot `i` of the G2 buffer that `key_buffers` produces decode to exactly
/// the key's point `i`.
pub proof fn lemma_key_buffers_decode(gk: GpuProvingKey, k: KeyBuffers)
    requires
        k.a@ == g1s_wire(gk.a@),
        k.b_g1@ == g1s_wire(gk.b_g1@),
        k.b_g2@ == g2s_wire(gk.b_g2@),
        k.l@ == g1s_wire(gk.l@),
        k.h@ == g1s_wire(gk.h@),
        crate::setup::key_wf(gk),
    ensures
        forall|i: int| 0 <= i < gk.a@.len() ==> {
            &&& g1_decodable(#[trigger] k.a@.subrange(64 * i, 64 * i + 64))
            &&& forall|q: G1Affine| #[trigger] g1_decodes_to(k.a@.subrange(64 * i, 64 * i + 64), q) ==> q == gk.a@[i]
        },
        forall|i: int| 0 <= i < gk.b_g1@.len() ==> {
            &&& g1_decodable(#[trigger] k.b_g1@.subrange(64 * i, 64 * i + 64))
            &&& forall|q: G1Affine| #[trigger] g1_decodes_to(k.b_g1@.subrange(64 * i, 64 * i + 64), q) ==> q == gk.b_g1@[i]
        },
        forall|i: int| 0 <= i < gk.b_g2@.len() ==> {
            &&& g2_decodable(#[trigger] k.b_g2@.subrange(128 * i, 128 * i + 128))
            &&& forall|q: G2Affine| #[trigger] g2_decodes_to(k.b_g2@.subrange(128 * i, 128 * i + 128), q) ==> q == gk.b_g2@[i]
        },
        forall|i: int| 0 <= i < gk.l@.len() ==> {
            &&& g1_decodable(#[trigger] k.l@.subrange(64 * i, 64 * i + 64))
            &&& forall|q: G1Affine| #[trigger] g1_decodes_to(k.l@.subrange(64 * i, 64 * i + 64), q) ==> q == gk.l@[i]
        },
        forall|i: int| 0 <= i < gk.h@.len() ==> {
            &&& g1_decodable(#[trigger] k.h@.subrange(64 * i, 64 * i + 64))
            &&& forall|q: G1Affine| #[trigger] g1_decodes_to(k.h@.subrange(64 * i, 64 * i + 64), q) ==> q == gk.h@[i]
        },
{
    assert forall|i: int| 0 <= i < gk.a@.len() implies {
        &&& g1_decodable(#[trigger] k.a@.subrange(64 * i, 64 * i + 64))
        &&& forall|q: G1Affine| #[trigger] g1_decodes_to(k.a@.subrange(64 * i, 64 * i + 64), q) ==> q == gk.a@[i]
    } by {
        lemma_g1s_wire_slot(gk.a@, i);
        lemma_g1_wire_roundtrip(gk.a@[i]);
    }
    assert forall|i: int| 0 <= i < gk.b_g1@.len() implies {
        &&& g1_decodable(#[trigger] k.b_g1@.subrange(64 * i, 64 * i + 64))
        &&& forall|q: G1Affine| #[trigger] g1_decodes_to(k.b_g1@.subrange(64 * i, 64 * i + 64), q) ==> q == gk.b_g1@[i]
    } by {
        lemma_g1s_wire_slot(gk.b_g1@, i);
        lemma_g1_wire_roundtrip(gk.b_g1@[i]);
    }
    assert forall|i: int| 0 <= i < gk.b_g2@.len() implies {
        &&& g2_decodable(#[trigger] k.b_g2@.subrange(128 * i, 128 * i + 128))
        &&& forall|q: G2Affine| #[trigger] g2_decodes_to(k.b_g2@.subrange(128 * i, 128 * i + 128), q) ==> q == gk.b_g2@[i]
    } by {
        lemma_g2s_wire_slot(gk.b_g2@, i);
        lemma_g2_wire_roundtrip(gk.b_g2@[i]);
    }
    assert forall|i: int| 0 <= i < gk.l@.len() implies {
        &&& g1_decodable(#[trigger] k.l@.subrange(64 * i, 64 * i + 64))
        &&& forall|q: G1Affine| #[trigger] g1_decodes_to(k.l@.subrange(64 * i, 64 * i + 64), q) ==> q == gk.l@[i]
    } by {
        lemma_g1s_wire_slot(gk.l@, i);
        lemma_g1_wire_roundtrip(gk.l@[i]);
    }
    assert forall|i: int| 0 <= i < gk.h@.len() implies {
        &&& g1_decodable(#[trigger] k.h@.subrange(64 * i, 64 * i + 64))
        &&& forall|q: G1Affine| #[trigger] g1_decodes_to(k.h@.subrange(64 * i, 64 * i + 64), q) ==> q == gk.h@[i]
    } by {
        lemma_g1s_wire_slot(gk.h@, i);
        lemma_g1_wire_roundtrip(gk.h@[i]);
    }
}

} // verus!
