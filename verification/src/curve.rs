//! BN256 group elements in affine coordinates (`G1` over `Fq`, `G2` over
//! `Fq2`). The point at infinity is the all-zero pair, as in halo2curves.
//! The group law is halo2curves' own: it is reached through the wrappers at
//! the end of this file, whose results are named by the functions below.
use group::{prime::PrimeCurveAffine, Curve};
use halo2curves::bn256 as hc;
use ff::PrimeField;
use vstd::prelude::*;

use crate::field::{Fq, Fq2, Fr};

verus! {

/// Affine coordinates `(x, y)` of a G1 point, as residues.
pub type G1View = (nat, nat);

/// Affine coordinates `(x, y)` of a G2 point, each a pair `(c0, c1)`.
pub type G2View = ((nat, nat), (nat, nat));

/// A G1 point in affine coordinates.
#[derive(Clone, Copy)]
pub struct G1Affine {
    pub x: Fq,
    pub y: Fq,
}

/// A G2 point in affine coordinates.
#[derive(Clone, Copy)]
pub struct G2Affine {
    pub x: Fq2,
    pub y: Fq2,
}

impl View for G1Affine {
    type V = G1View;

    open spec fn view(&self) -> G1View {
        (self.x@, self.y@)
    }
}

impl View for G2Affine {
    type V = G2View;

    open spec fn view(&self) -> G2View {
        (self.x@, self.y@)
    }
}

/// The affine point at infinity in G1.
pub open spec fn g1_identity() -> G1View {
    (0nat, 0nat)
}

/// The affine point at infinity in G2.
pub open spec fn g2_identity() -> G2View {
    ((0nat, 0nat), (0nat, 0nat))
}

/// `P + Q` in G1, as halo2curves computes it, in affine coordinates.
pub uninterp spec fn g1_add(p: G1View, q: G1View) -> G1View;

/// `[s]P` in G1, as halo2curves computes it, in affine coordinates.
pub uninterp spec fn g1_scalar_mul(p: G1View, s: nat) -> G1View;

/// `P + Q` in G2, as halo2curves computes it, in affine coordinates.
pub uninterp spec fn g2_add(p: G2View, q: G2View) -> G2View;

/// `[s]P` in G2, as halo2curves computes it, in affine coordinates.
pub uninterp spec fn g2_scalar_mul(p: G2View, s: nat) -> G2View;

/// A point type whose affine identity can be recognised.
pub trait AffinePoint: Copy {
    spec fn spec_is_identity(&self) -> bool;

    fn is_identity(&self) -> (b: bool)
        ensures
            b == self.spec_is_identity(),
    ;
}

impl G1Affine {
    /// Both coordinates are canonical encodings.
    pub open spec fn wf(self) -> bool {
        self.x.wf() && self.y.wf()
    }

    /// The point at infinity.
    pub fn identity() -> (p: G1Affine)
        ensures
            p@ == g1_identity(),
            p.wf(),
    {
        G1Affine { x: Fq::zero(), y: Fq::zero() }
    }

    /// Whether both coordinates are canonical encodings.
    pub fn is_canonical(&self) -> (b: bool)
        ensures
            b == self.wf(),
    {
        self.x.is_canonical() && self.y.is_canonical()
    }
}

impl G2Affine {
    /// All four coordinates are canonical encodings.
    pub open spec fn wf(self) -> bool {
        self.x.wf() && self.y.wf()
    }

    /// The point at infinity.
    pub fn identity() -> (p: G2Affine)
        ensures
            p@ == g2_identity(),
            p.wf(),
    {
        G2Affine { x: Fq2::zero(), y: Fq2::zero() }
    }

    /// Whether all four coordinates are canonical encodings.
    pub fn is_canonical(&self) -> (b: bool)
        ensures
            b == self.wf(),
    {
        self.x.is_canonical() && self.y.is_canonical()
    }
}

impl AffinePoint for G1Affine {
    open spec fn spec_is_identity(&self) -> bool {
        self@ == g1_identity()
    }

    fn is_identity(&self) -> (b: bool) {
        self.x.is_zero() && self.y.is_zero()
    }
}

impl AffinePoint for G2Affine {
    open spec fn spec_is_identity(&self) -> bool {
        self@ == g2_identity()
    }

    fn is_identity(&self) -> (b: bool) {
        self.x.is_zero() && self.y.is_zero()
    }
}

/// `G1 + G1Affine` of halo2curves (after `to_curve`), brought back with
/// `to_affine`. The claim: the result has canonical coordinates and is what
/// `g1_add` names for these coordinates.
#[verifier::external_body]
pub(crate) fn g1_add_points(p: G1Affine, q: G1Affine) -> (r: G1Affine)
    requires
        p.wf(),
        q.wf(),
    ensures
        r.wf(),
        r@ == g1_add(p@, q@),
{
    let f = |e: Fq| hc::Fq::from_repr(e.repr.into()).unwrap();
    let a = hc::G1Affine { x: f(p.x), y: f(p.y) };
    let b = hc::G1Affine { x: f(q.x), y: f(q.y) };
    let c = (a.to_curve() + b).to_affine();
    G1Affine { x: Fq { repr: c.x.to_repr().into() }, y: Fq { repr: c.y.to_repr().into() } }
}

/// `G1Affine * Fr` of halo2curves, brought back with `to_affine`. The claim:
/// the result has canonical coordinates and is what `g1_scalar_mul` names;
/// for the scalar zero it is the point at infinity (the double-and-add never
/// leaves the identity it starts from).
#[verifier::external_body]
pub(crate) fn g1_mul(p: G1Affine, s: Fr) -> (r: G1Affine)
    requires
        p.wf(),
        s.wf(),
    ensures
        r.wf(),
        r@ == g1_scalar_mul(p@, s@),
        s@ == 0 ==> r@ == g1_identity(),
{
    let f = |e: Fq| hc::Fq::from_repr(e.repr.into()).unwrap();
    let a = hc::G1Affine { x: f(p.x), y: f(p.y) };
    let c = (a * hc::Fr::from_repr(s.repr.into()).unwrap()).to_affine();
    G1Affine { x: Fq { repr: c.x.to_repr().into() }, y: Fq { repr: c.y.to_repr().into() } }
}

/// `G2 + G2Affine` of halo2curves (after `to_curve`), brought back with
/// `to_affine`. The claim: canonical coordinates, and what `g2_add` names.
#[verifier::external_body]
pub(crate) fn g2_add_points(p: G2Affine, q: G2Affine) -> (r: G2Affine)
    requires
        p.wf(),
        q.wf(),
    ensures
        r.wf(),
        r@ == g2_add(p@, q@),
{
    let f = |e: Fq2| hc::Fq2::new(hc::Fq::from_repr(e.c0.repr.into()).unwrap(), hc::Fq::from_repr(e.c1.repr.into()).unwrap());
    let g = |e: &hc::Fq2| Fq2 { c0: Fq { repr: e.c0().to_repr().into() }, c1: Fq { repr: e.c1().to_repr().into() } };
    let c = (hc::G2Affine { x: f(p.x), y: f(p.y) }.to_curve() + hc::G2Affine { x: f(q.x), y: f(q.y) }).to_affine();
    G2Affine { x: g(&c.x), y: g(&c.y) }
}

/// `G2Affine * Fr` of halo2curves, brought back with `to_affine`. The claim:
/// canonical coordinates, what `g2_scalar_mul` names, and the point at
/// infinity for the scalar zero.
#[verifier::external_body]
pub(crate) fn g2_mul(p: G2Affine, s: Fr) -> (r: G2Affine)
    requires
        p.wf(),
        s.wf(),
    ensures
        r.wf(),
        r@ == g2_scalar_mul(p@, s@),
        s@ == 0 ==> r@ == g2_identity(),
{
    let f = |e: Fq2| hc::Fq2::new(hc::Fq::from_repr(e.c0.repr.into()).unwrap(), hc::Fq::from_repr(e.c1.repr.into()).unwrap());
    let g = |e: &hc::Fq2| Fq2 { c0: Fq { repr: e.c0().to_repr().into() }, c1: Fq { repr: e.c1().to_repr().into() } };
    let c = (hc::G2Affine { x: f(p.x), y: f(p.y) } * hc::Fr::from_repr(s.repr.into()).unwrap()).to_affine();
    G2Affine { x: g(&c.x), y: g(&c.y) }
}

} // verus!
