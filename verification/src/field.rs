//! BN256 scalar (`Fr`) and base (`Fq`, `Fq2`) field elements, held in the
//! canonical 32-byte little-endian form that `to_repr` produces. Each element
//! is viewed as the integer that its bytes denote.
use ff::{Field, PrimeField};
use vstd::prelude::*;

verus! {

/// The integer a little-endian byte string denotes.
pub open spec fn le_nat(s: Seq<u8>) -> nat
    decreases s.len(),
{
    if s.len() == 0 {
        0
    } else {
        s[0] as nat + 256 * le_nat(s.drop_first())
    }
}

/// The order of the BN256 scalar field.
pub open spec fn fr_modulus() -> nat {
    21888242871839275222246405745257275088548364400416034343698204186575808495617nat
}

/// The characteristic of the BN256 base field.
pub open spec fn fq_modulus() -> nat {
    21888242871839275222246405745257275088696311157297823662689037894645226208583nat
}

/// `x` to the power `e` in the scalar field, reduced after every step.
pub open spec fn fr_pow(x: nat, e: nat) -> nat
    decreases e,
{
    if e == 0 {
        1
    } else {
        (fr_pow(x, (e - 1) as nat) * x) % fr_modulus()
    }
}

/// The multiplicative inverse of `x` in the scalar field (Fermat).
pub open spec fn fr_inverse(x: nat) -> nat {
    fr_pow(x, (fr_modulus() - 2) as nat)
}

/// The canonical encoding of one.
pub open spec fn fr_one() -> Fr {
    Fr { repr: [1u8, 0u8, 0u8, 0u8, 0u8, 0u8, 0u8, 0u8, 0u8, 0u8, 0u8, 0u8, 0u8, 0u8, 0u8, 0u8, 0u8, 0u8, 0u8, 0u8, 0u8, 0u8, 0u8, 0u8, 0u8, 0u8, 0u8, 0u8, 0u8, 0u8, 0u8, 0u8] }
}

/// A scalar-field element, held as its canonical little-endian encoding.
#[derive(Clone, Copy)]
pub struct Fr {
    pub repr: [u8; 32],
}

/// A base-field element, held as its canonical little-endian encoding.
#[derive(Clone, Copy)]
pub struct Fq {
    pub repr: [u8; 32],
}

/// An element `c0 + c1·u` of the quadratic extension of the base field.
#[derive(Clone, Copy)]
pub struct Fq2 {
    pub c0: Fq,
    pub c1: Fq,
}

impl View for Fr {
    type V = nat;

    open spec fn view(&self) -> nat {
        le_nat(self.repr@)
    }
}

impl View for Fq {
    type V = nat;

    open spec fn view(&self) -> nat {
        le_nat(self.repr@)
    }
}

impl View for Fq2 {
    type V = (nat, nat);

    open spec fn view(&self) -> (nat, nat) {
        (self.c0@, self.c1@)
    }
}

impl Fr {
    /// The encoding is canonical: it denotes a residue below the modulus.
    pub open spec fn wf(self) -> bool {
        self@ < fr_modulus()
    }

    /// The additive identity.
    pub fn zero() -> (z: Fr)
        ensures
            z@ == 0,
            z.wf(),
    {
        let z = Fr { repr: [0u8; 32] };
        proof {
            lemma_le_nat_zero(z.repr@);
        }
        z
    }

    /// The multiplicative identity.
    pub fn one() -> (o: Fr)
        ensures
            o == fr_one(),
            o@ == 1,
            o.wf(),
    {
        let o = Fr { repr: [1u8, 0u8, 0u8, 0u8, 0u8, 0u8, 0u8, 0u8, 0u8, 0u8, 0u8, 0u8, 0u8, 0u8, 0u8, 0u8, 0u8, 0u8, 0u8, 0u8, 0u8, 0u8, 0u8, 0u8, 0u8, 0u8, 0u8, 0u8, 0u8, 0u8, 0u8, 0u8] };
        proof {
            lemma_le_nat_zero(o.repr@.drop_first());
        }
        o
    }

    /// Whether this is the additive identity (`is_zero_vartime`).
    pub fn is_zero(&self) -> (b: bool)
        ensures
            b == (self@ == 0),
    {
        let b = all_zero(&self.repr);
        proof {
            lemma_le_nat_zero(self.repr@);
        }
        b
    }

    /// Whether this is the multiplicative identity.
    pub fn is_one(&self) -> (b: bool)
        ensures
            b == (self@ == 1),
    {
        let rest = all_zero_from(&self.repr, 1);
        proof {
            let s = self.repr@;
            assert(s.drop_first() =~= s.subrange(1, 32));
            lemma_le_nat_zero(s.drop_first());
            assert(le_nat(s) == s[0] as nat + 256 * le_nat(s.drop_first()));
            let t = s.drop_first();
            if rest {
                assert forall|k: int| 0 <= k < t.len() implies t[k] == 0 by {
                    assert(t[k] == s[k + 1]);
                }
            }
            if le_nat(t) == 0 {
                assert forall|k: int| 1 <= k < 32 implies s[k] == 0 by {
                    assert(t[k - 1] == s[k]);
                }
            }
            assert(rest == (le_nat(t) == 0));
        }
        self.repr[0] == 1 && rest
    }
}

impl Fq {
    pub open spec fn wf(self) -> bool {
        self@ < fq_modulus()
    }

    /// The additive identity.
    pub fn zero() -> (z: Fq)
        ensures
            z@ == 0,
            z.wf(),
    {
        let z = Fq { repr: [0u8; 32] };
        proof {
            lemma_le_nat_zero(z.repr@);
        }
        z
    }

    /// Whether this is the additive identity.
    pub fn is_zero(&self) -> (b: bool)
        ensures
            b == (self@ == 0),
    {
        let b = all_zero(&self.repr);
        proof {
            lemma_le_nat_zero(self.repr@);
        }
        b
    }

    /// Whether the encoding is canonical (below the modulus).
    pub fn is_canonical(&self) -> (b: bool)
        ensures
            b == self.wf(),
    {
        fq_from_repr(self.repr).is_some()
    }
}

impl Fq2 {
    pub open spec fn wf(self) -> bool {
        self.c0.wf() && self.c1.wf()
    }

    /// The additive identity.
    pub fn zero() -> (z: Fq2)
        ensures
            z@ == (0nat, 0nat),
            z.wf(),
    {
        Fq2 { c0: Fq::zero(), c1: Fq::zero() }
    }

    /// Whether this is the additive identity.
    pub fn is_zero(&self) -> (b: bool)
        ensures
            b == (self@ == (0nat, 0nat)),
    {
        self.c0.is_zero() && self.c1.is_zero()
    }

    /// Whether both coordinates are canonical encodings.
    pub fn is_canonical(&self) -> (b: bool)
        ensures
            b == self.wf(),
    {
        self.c0.is_canonical() && self.c1.is_canonical()
    }
}

/// Whether every byte of `a` from position `start` on is zero.
pub fn all_zero_from(a: &[u8; 32], start: usize) -> (b: bool)
    requires
        start <= 32,
    ensures
        b == (forall|k: int| start <= k < 32 ==> a@[k] == 0),
{
    let mut i = start;
    while i < 32
        invariant
            start <= i <= 32,
            forall|k: int| start <= k < i ==> a@[k] == 0,
        decreases 32 - i,
    {
        if a[i] != 0 {
            return false;
        }
        i = i + 1;
    }
    true
}

/// Whether every byte of `a` is zero.
pub fn all_zero(a: &[u8; 32]) -> (b: bool)
    ensures
        b == (forall|k: int| 0 <= k < 32 ==> a@[k] == 0),
{
    all_zero_from(a, 0)
}

/// A string denotes zero exactly when every byte of it is zero.
pub proof fn lemma_le_nat_zero(s: Seq<u8>)
    ensures
        (le_nat(s) == 0) == (forall|k: int| 0 <= k < s.len() ==> s[k] == 0),
    decreases s.len(),
{
    if s.len() > 0 {
        lemma_le_nat_zero(s.drop_first());
        if le_nat(s) == 0 {
            assert forall|k: int| 0 <= k < s.len() implies s[k] == 0 by {
                if k > 0 {
                    assert(s[k] == s.drop_first()[k - 1]);
                }
            }
        }
        if forall|k: int| 0 <= k < s.len() ==> s[k] == 0 {
            assert forall|k: int| 0 <= k < s.drop_first().len() implies s.drop_first()[k] == 0 by {
                assert(s.drop_first()[k] == s[k + 1]);
            }
        }
    }
}

/// `PrimeField::from_repr` for halo2curves' BN256 `Fq`: the element whose
/// canonical encoding is `bytes`, or `None` when the bytes denote an integer
/// at or above the modulus.
#[verifier::external_body]
pub(crate) fn fq_from_repr(bytes: [u8; 32]) -> (r: Option<Fq>)
    ensures
        r.is_some() == (le_nat(bytes@) < fq_modulus()),
        r matches Some(f) ==> f.repr == bytes,
{
    let f: Option<halo2curves::bn256::Fq> =
        halo2curves::bn256::Fq::from_repr(bytes.into()).into_option();
    f.map(|v| Fq { repr: v.to_repr().into() })
}

/// `Add` on halo2curves' BN256 `Fr`: the sum modulo the field order.
#[verifier::external_body]
pub(crate) fn fr_add(a: Fr, b: Fr) -> (c: Fr)
    requires
        a.wf(),
        b.wf(),
    ensures
        c.wf(),
        c@ == (a@ + b@) % fr_modulus(),
{
    let x = halo2curves::bn256::Fr::from_repr(a.repr.into()).unwrap();
    let y = halo2curves::bn256::Fr::from_repr(b.repr.into()).unwrap();
    Fr { repr: (x + y).to_repr().into() }
}

/// `Mul` on halo2curves' BN256 `Fr`: the product modulo the field order.
#[verifier::external_body]
pub(crate) fn fr_mul(a: Fr, b: Fr) -> (c: Fr)
    requires
        a.wf(),
        b.wf(),
    ensures
        c.wf(),
        c@ == (a@ * b@) % fr_modulus(),
{
    let x = halo2curves::bn256::Fr::from_repr(a.repr.into()).unwrap();
    let y = halo2curves::bn256::Fr::from_repr(b.repr.into()).unwrap();
    Fr { repr: (x * y).to_repr().into() }
}

/// `Field::invert` on halo2curves' BN256 `Fr`: `None` for zero, otherwise the
/// multiplicative inverse.
#[verifier::external_body]
pub(crate) fn fr_invert(a: Fr) -> (c: Option<Fr>)
    requires
        a.wf(),
    ensures
        c.is_some() == (a@ != 0),
        c matches Some(i) ==> i.wf() && (a@ * i@) % fr_modulus() == 1 && i@ == fr_inverse(a@),
{
    let x = halo2curves::bn256::Fr::from_repr(a.repr.into()).unwrap();
    let inv: Option<halo2curves::bn256::Fr> = x.invert().into_option();
    inv.map(|v| Fr { repr: v.to_repr().into() })
}

} // verus!
