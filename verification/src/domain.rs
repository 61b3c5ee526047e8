//! The radix-2 evaluation domain over the BN256 scalar field, as bellman's
//! `EvaluationDomain` provides it: its size, its vanishing polynomial `Z`, and
//! the inverse FFT that turns powers of `tau` into Lagrange coefficients.
use bellman::domain::{EvaluationDomain, Scalar};
use bellman::multicore::Worker;
use ff::PrimeField;
use halo2curves::bn256 as hc;
use vstd::arithmetic::power2::pow2;
use vstd::prelude::*;

use crate::constraint::all_wf;
use crate::field::{fr_inverse, fr_modulus, fr_pow, Fr};
use crate::setup::values;

verus! {

/// bellman's error type, carried through from `from_coeffs`.
#[verifier::external_type_specification]
#[verifier::external_body]
pub struct ExSynthesisError(bellman::SynthesisError);

/// The two-adicity of the BN256 scalar field (`PrimeField::S`).
pub open spec fn fr_two_adicity() -> nat {
    28
}

/// The least `e` with `2^e >= n`.
pub open spec fn log2_ceil(n: nat) -> nat
    decreases n,
{
    if n <= 1 {
        0
    } else {
        1 + log2_ceil(((n + 1) / 2) as nat)
    }
}

/// The size of the evaluation domain for `n` coefficients: the least power of
/// two that holds them.
pub open spec fn domain_size(n: nat) -> nat {
    pow2(log2_ceil(n))
}

/// Whether a domain for `n` coefficients exists in this field.
pub open spec fn domain_fits(n: nat) -> bool {
    log2_ceil(n) < fr_two_adicity()
}

/// A domain holds at least the coefficients it was sized for.
pub proof fn lemma_domain_size_bound(n: nat)
    ensures
        n <= domain_size(n),
        1 <= domain_size(n),
    decreases n,
{
    vstd::arithmetic::power2::lemma_pow2_pos(log2_ceil(n));
    if n > 1 {
        let k = ((n + 1) / 2) as nat;
        lemma_domain_size_bound(k);
        vstd::arithmetic::power2::lemma_pow2_unfold(log2_ceil(n));
    }
}

/// The domain for a power of two is that power of two.
pub proof fn lemma_log2_ceil_pow2(e: nat)
    ensures
        log2_ceil(pow2(e)) == e,
    decreases e,
{
    vstd::arithmetic::power2::lemma_pow2_pos(e);
    if e > 0 {
        vstd::arithmetic::power2::lemma_pow2_unfold(e);
        vstd::arithmetic::power2::lemma_pow2_pos((e - 1) as nat);
        lemma_log2_ceil_pow2((e - 1) as nat);
        assert(((pow2(e) + 1) / 2) as nat == pow2((e - 1) as nat));
    } else {
        vstd::arithmetic::power2::lemma2_to64();
    }
}

/// A coefficient vector that is already a whole domain.
pub open spec fn is_domain(coeffs: Seq<Fr>) -> bool {
    &&& coeffs.len() >= 1
    &&& coeffs.len() == domain_size(coeffs.len())
    &&& domain_fits(coeffs.len())
    &&& all_wf(coeffs)
}

/// The multiplicative generator of the scalar field (`MULTIPLICATIVE_GENERATOR`).
pub open spec fn fr_generator() -> nat {
    7
}

/// `ROOT_OF_UNITY` of the scalar field: the generator to the power
/// `(r - 1) / 2^S`, a root of unity of order `2^S`.
pub open spec fn fr_root_of_unity() -> nat {
    fr_pow(fr_generator(), ((fr_modulus() - 1) as nat / pow2(fr_two_adicity())) as nat)
}

/// The root of unity of the domain of `2^e` points, as bellman derives it:
/// `ROOT_OF_UNITY` squared `S - e` times.
pub open spec fn domain_omega(e: nat) -> nat {
    fr_pow(fr_root_of_unity(), pow2((fr_two_adicity() - e) as nat))
}

/// `Σ_{k<n} v[k] · w^(j·k)` in the scalar field.
pub open spec fn dft_sum(v: Seq<nat>, w: nat, j: nat, n: nat) -> nat
    decreases n,
{
    if n == 0 {
        0
    } else {
        (dft_sum(v, w, j, (n - 1) as nat) + (v[n - 1] * fr_pow(w, j * (n - 1) as nat)) % fr_modulus())
            % fr_modulus()
    }
}

/// The inverse FFT of bellman's `EvaluationDomain` over BN256 `Fr` on a
/// domain of `m = v.len()` points, as residues: entry `j` is
/// `m⁻¹ · Σ_k v[k] · ω^(-j·k)`, for the domain's root of unity `ω`. On the
/// powers `tau^k` this is the Lagrange basis of the `m`-th roots of unity at
/// `tau`, `L_j(tau) = m⁻¹ · Σ_k (tau · ω^(-j))^k`.
#[verifier::opaque]
pub open spec fn evaluation_domain_ifft(v: Seq<nat>) -> Seq<nat> {
    let m = v.len();
    let winv = fr_inverse(domain_omega(log2_ceil(m)));
    Seq::new(m, |j: int| (fr_inverse(m % fr_modulus()) * dft_sum(v, winv, j as nat, m)) % fr_modulus())
}

/// `EvaluationDomain::from_coeffs` followed by `into_coeffs`: the vector padded
/// with zeros to the domain size, or bellman's error when the domain would
/// need more than `2^(S-1)` points.
#[verifier::external_body]
pub(crate) fn domain_from_coeffs(coeffs: Vec<Fr>) -> (r: Result<Vec<Fr>, bellman::SynthesisError>)
    requires
        all_wf(coeffs@),
    ensures
        r is Ok == domain_fits(coeffs@.len()),
        r matches Ok(v) ==> {
            &&& v@.len() == domain_size(coeffs@.len())
            &&& v@.subrange(0, coeffs@.len() as int) == coeffs@
            &&& forall|i: int| coeffs@.len() <= i < v@.len() ==> (#[trigger] v@[i])@ == 0 && v@[i].wf()
        },
{
    let v = coeffs.iter().map(|c| Scalar(hc::Fr::from_repr(c.repr.into()).unwrap())).collect();
    let d = EvaluationDomain::<hc::Fr, Scalar<hc::Fr>>::from_coeffs(v)?;
    Ok(d.into_coeffs().iter().map(|s| Fr { repr: s.0.to_repr().into() }).collect())
}

/// `EvaluationDomain::z` for the domain that `coeffs` fills: `tau^m - 1`,
/// where `m` is the domain size.
#[verifier::external_body]
pub(crate) fn domain_z(coeffs: &Vec<Fr>, tau: Fr) -> (z: Fr)
    requires
        is_domain(coeffs@),
        tau.wf(),
    ensures
        z.wf(),
        z@ == ((fr_pow(tau@, coeffs@.len()) + fr_modulus() - 1) as nat) % fr_modulus(),
{
    let v = coeffs.iter().map(|c| Scalar(hc::Fr::from_repr(c.repr.into()).unwrap())).collect();
    let d = EvaluationDomain::<hc::Fr, Scalar<hc::Fr>>::from_coeffs(v).unwrap();
    Fr { repr: d.z(&hc::Fr::from_repr(tau.repr.into()).unwrap()).to_repr().into() }
}

/// `EvaluationDomain::ifft` on the domain that `coeffs` fills. The claim: the
/// length is kept, the results are canonical, and they are the inverse DFT
/// `evaluation_domain_ifft` (bellman runs a radix-2 FFT with `omegainv`, the
/// inverse of `ROOT_OF_UNITY` squared `S - exp` times, then scales by
/// `minv = m⁻¹`).
#[verifier::external_body]
pub(crate) fn domain_ifft(coeffs: Vec<Fr>) -> (r: Vec<Fr>)
    requires
        is_domain(coeffs@),
    ensures
        r@.len() == coeffs@.len(),
        all_wf(r@),
        values(r@) == evaluation_domain_ifft(values(coeffs@)),
{
    let v = coeffs.iter().map(|c| Scalar(hc::Fr::from_repr(c.repr.into()).unwrap())).collect();
    let mut d = EvaluationDomain::<hc::Fr, Scalar<hc::Fr>>::from_coeffs(v).unwrap();
    d.ifft(&Worker::new());
    d.into_coeffs().iter().map(|s| Fr { repr: s.0.to_repr().into() }).collect()
}

} // verus!
