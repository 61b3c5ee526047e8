//! Groth16 proving over BN256 with the fused GPU core. The witness is
//! synthesized exactly as bellman's prover does it (so the A/B evaluation
//! vectors and the assignment match), minus the density trackers; the core
//! computes the h-FFT and the five MSMs; then bellman's exact final assembly
//! runs on the result.
use vstd::prelude::*;

use crate::constraint::{all_wf, lc_reads_allocated, lc_value, lc_wf, var_value, Groth16Error, Index, LinearCombination};
use crate::curve::{
    g1_add, g1_add_points, g1_mul, g1_scalar_mul, g2_add, g2_add_points, g2_mul, g2_scalar_mul,
    AffinePoint, G1Affine, G1View, G2Affine, G2View,
};
use crate::field::{fr_add, fr_modulus, fr_mul, fr_one, Fr};
use crate::gpu::CoreOutputs;
use crate::qap::{prover_allocated_aux, prover_allocated_input, prover_enforced};
use crate::setup::{values, VerifyingKey};

verus! {

/// Evaluate a linear combination against the assignment, skipping zero
/// coefficients and multiplications by one.
pub fn eval(lc: &LinearCombination, input_assignment: &Vec<Fr>, aux_assignment: &Vec<Fr>) -> (acc: Fr)
    requires
        lc_reads_allocated(lc.terms@, input_assignment@.len(), aux_assignment@.len()),
        all_wf(input_assignment@),
        all_wf(aux_assignment@),
    ensures
        acc.wf(),
        acc@ == lc_value(lc.terms@, input_assignment@, aux_assignment@),
{
    let ghost ins = input_assignment@;
    let ghost aux = aux_assignment@;
    let mut acc = Fr::zero();
    let mut k: usize = 0;
    while k < lc.terms.len()
        invariant
            0 <= k <= lc.terms@.len(),
            lc_reads_allocated(lc.terms@, ins.len(), aux.len()),
            ins == input_assignment@,
            aux == aux_assignment@,
            all_wf(ins),
            all_wf(aux),
            acc.wf(),
            acc@ == lc_value(lc.terms@.take(k as int), ins, aux),
        decreases lc.terms@.len() - k,
    {
        let (index, coeff) = lc.terms[k];
        proof {
            assert(lc.terms@.take(k + 1).drop_last() =~= lc.terms@.take(k as int));
            assert(lc.terms@.take(k + 1).last() == lc.terms@[k as int]);
            assert(lc.terms@[k as int].1.wf());
        }
        if !coeff.is_zero() {
            let mut tmp = match index {
                Index::Input(i) => input_assignment[i],
                Index::Aux(i) => aux_assignment[i],
            };
            let ghost v = tmp@;
            assert(v == var_value(index, ins, aux));
            if !coeff.is_one() {
                tmp = fr_mul(tmp, coeff);
            } else {
                proof {
                    let c1 = coeff@;
                    assert(c1 == 1);
                    assert(c1 * v == v) by (nonlinear_arith)
                        requires
                            c1 == 1,
                    ;
                    vstd::arithmetic::div_mod::lemma_small_mod(v, fr_modulus());
                }
            }
            assert(tmp@ == (coeff@ * v) % fr_modulus());
            acc = fr_add(acc, tmp);
        } else {
            proof {
                let vv = var_value(index, ins, aux);
                assert(coeff@ * vv == 0) by (nonlinear_arith)
                    requires
                        coeff@ == 0,
                ;
                vstd::arithmetic::div_mod::lemma_small_mod(acc@, fr_modulus());
            }
        }
        k = k + 1;
    }
    proof {
        assert(lc.terms@.take(lc.terms@.len() as int) =~= lc.terms@);
    }
    acc
}

/// Witness synthesis state: the A and B evaluations per constraint (C is
/// recomputed on the GPU as A⊙B, so it isn't tracked), and the assignment.
pub struct ProvingAssignment {
    pub a: Vec<Fr>,
    pub b: Vec<Fr>,
    pub input_assignment: Vec<Fr>,
    pub aux_assignment: Vec<Fr>,
}

impl ProvingAssignment {
    /// All values canonical, and as many A as B evaluations.
    pub open spec fn wf(&self) -> bool {
        &&& all_wf(self.a@)
        &&& all_wf(self.b@)
        &&& all_wf(self.input_assignment@)
        &&& all_wf(self.aux_assignment@)
        &&& self.a@.len() == self.b@.len()
    }

    /// No constraints yet, and one input: the constant one that every
    /// circuit gets before it is synthesized.
    pub fn new() -> (p: ProvingAssignment)
        ensures
            p.wf(),
            p.a@.len() == 0,
            p.b@.len() == 0,
            p.input_assignment@ == seq![fr_one()],
            p.aux_assignment@.len() == 0,
    {
        let mut p = ProvingAssignment {
            a: Vec::new(),
            b: Vec::new(),
            input_assignment: Vec::new(),
            aux_assignment: Vec::new(),
        };
        p.alloc_input(Fr::one());
        proof {
            assert(p.input_assignment@ =~= seq![fr_one()]);
        }
        p
    }

    /// Allocate an auxiliary variable with the given value.
    pub fn alloc_aux(&mut self, value: Fr) -> (v: Index)
        requires
            old(self).wf(),
            value.wf(),
        ensures
            final(self).wf(),
            v == Index::Aux(old(self).aux_assignment@.len() as usize),
            final(self).aux_assignment@ == old(self).aux_assignment@.push(value),
            final(self).input_assignment@ == old(self).input_assignment@,
            final(self).a@ == old(self).a@,
            final(self).b@ == old(self).b@,
            prover_allocated_aux(*old(self), *final(self), value),
    {
        self.aux_assignment.push(value);
        Index::Aux(self.aux_assignment.len() - 1)
    }

    /// Allocate a public input variable with the given value.
    pub fn alloc_input(&mut self, value: Fr) -> (v: Index)
        requires
            old(self).wf(),
            value.wf(),
        ensures
            final(self).wf(),
            v == Index::Input(old(self).input_assignment@.len() as usize),
            final(self).input_assignment@ == old(self).input_assignment@.push(value),
            final(self).aux_assignment@ == old(self).aux_assignment@,
            final(self).a@ == old(self).a@,
            final(self).b@ == old(self).b@,
            prover_allocated_input(*old(self), *final(self), value),
    {
        self.input_assignment.push(value);
        Index::Input(self.input_assignment.len() - 1)
    }

    /// Enforce `a · b = c`: record the values of `a` and `b` under the current
    /// assignment.
    pub fn enforce(&mut self, a: &LinearCombination, b: &LinearCombination)
        requires
            old(self).wf(),
            lc_reads_allocated(a.terms@, old(self).input_assignment@.len(), old(self).aux_assignment@.len()),
            lc_reads_allocated(b.terms@, old(self).input_assignment@.len(), old(self).aux_assignment@.len()),
        ensures
            final(self).wf(),
            final(self).input_assignment@ == old(self).input_assignment@,
            final(self).aux_assignment@ == old(self).aux_assignment@,
            values(final(self).a@) == values(old(self).a@).push(
                lc_value(a.terms@, old(self).input_assignment@, old(self).aux_assignment@),
            ),
            values(final(self).b@) == values(old(self).b@).push(
                lc_value(b.terms@, old(self).input_assignment@, old(self).aux_assignment@),
            ),
            prover_enforced(*old(self), *final(self), a.terms@, b.terms@),
    {
        let va = eval(a, &self.input_assignment, &self.aux_assignment);
        let vb = eval(b, &self.input_assignment, &self.aux_assignment);
        self.a.push(va);
        self.b.push(vb);
        proof {
            assert(values(self.a@) =~= values(old(self).a@).push(va@));
            assert(values(self.b@) =~= values(old(self).b@).push(vb@));
        }
    }
}

/// The per-proof inputs of the fused core: the full assignment
/// `z = [inputs ‖ aux]`, and the A/B evaluation vectors padded to the domain.
pub struct Witness {
    pub z: Vec<Fr>,
    pub az: Vec<Fr>,
    pub bz: Vec<Fr>,
}

/// `s` cut or padded with zeros to length `n`.
pub open spec fn padded(s: Seq<nat>, n: nat) -> Seq<nat> {
    Seq::new(n, |j: int| if j < s.len() { s[j] } else { 0 })
}

/// `n` zeros.
pub open spec fn zeros(n: nat) -> Seq<nat> {
    Seq::new(n, |j: int| 0nat)
}

/// Copy `src` into a zero vector of length `n` (extra entries are dropped).
fn padded_copy(src: &Vec<Fr>, n: usize) -> (dst: Vec<Fr>)
    requires
        all_wf(src@),
    ensures
        dst@.len() == n,
        all_wf(dst@),
        values(dst@) == padded(values(src@), n as nat),
{
    let mut dst: Vec<Fr> = Vec::new();
    let mut j: usize = 0;
    while j < n
        invariant
            0 <= j <= n,
            all_wf(src@),
            dst@.len() == j,
            all_wf(dst@),
            forall|k: int| 0 <= k < j ==> (#[trigger] dst@[k])@ == padded(values(src@), n as nat)[k],
        decreases n - j,
    {
        if j < src.len() {
            dst.push(src[j]);
        } else {
            dst.push(Fr::zero());
        }
        j = j + 1;
    }
    proof {
        assert(values(dst@) =~= padded(values(src@), n as nat));
    }
    dst
}

impl ProvingAssignment {
    /// Finish synthesis and lay out the core's inputs: the input consistency
    /// constraints `x_i · 0 = 0` are enforced (as bellman's prover does), the
    /// A/B evaluations are padded (or cut) to the domain size `n`, and the
    /// full assignment is `[inputs ‖ aux]`.
    pub fn witness(self, n: usize) -> (w: Witness)
        requires
            self.wf(),
            self.input_assignment@.len() + self.aux_assignment@.len() <= usize::MAX,
        ensures
            w.z@ == self.input_assignment@ + self.aux_assignment@,
            all_wf(w.z@),
            all_wf(w.az@),
            all_wf(w.bz@),
            w.az@.len() == n,
            w.bz@.len() == n,
            values(w.az@) == padded(values(self.a@) + values(self.input_assignment@), n as nat),
            values(w.bz@) == padded(values(self.b@) + zeros(self.input_assignment@.len()), n as nat),
    {
        let ghost p0 = self;
        let mut p = self;
        let ni = p.input_assignment.len();
        let mut i: usize = 0;
        while i < ni
            invariant
                0 <= i <= ni,
                ni == p.input_assignment@.len(),
                p.wf(),
                p.input_assignment@ == p0.input_assignment@,
                p.aux_assignment@ == p0.aux_assignment@,
                values(p.a@) == values(p0.a@) + values(p0.input_assignment@).take(i as int),
                values(p.b@) == values(p0.b@) + zeros(i as nat),
            decreases ni - i,
        {
            let a = LinearCombination::term(Index::Input(i), Fr::one());
            let z = LinearCombination::zero();
            p.enforce(&a, &z);
            proof {
                let t = a.terms@;
                let ins = p.input_assignment@;
                let aux = p.aux_assignment@;
                assert(t.drop_last() =~= z.terms@);
                assert(lc_value(z.terms@, ins, aux) == 0);
                assert(ins[i as int].wf());
                assert(t.last().1@ == 1);
                assert(var_value(t.last().0, ins, aux) == ins[i as int]@);
                assert(lc_value(t, ins, aux) == (0 + 1 * ins[i as int]@) % fr_modulus());
                assert(0 + 1 * ins[i as int]@ == ins[i as int]@);
                vstd::arithmetic::div_mod::lemma_small_mod(ins[i as int]@, fr_modulus());
                assert(lc_value(t, ins, aux) == ins[i as int]@);
                assert(values(p0.input_assignment@).take(i + 1) =~= values(p0.input_assignment@).take(i as int).push(ins[i as int]@));
                assert(zeros((i + 1) as nat) =~= zeros(i as nat).push(0));
            }
            i = i + 1;
        }
        proof {
            assert(values(p0.input_assignment@).take(ni as int) =~= values(p0.input_assignment@));
        }
        let az = padded_copy(&p.a, n);
        let bz = padded_copy(&p.b, n);
        let ProvingAssignment { a: _, b: _, input_assignment: mut z, aux_assignment: mut aux } = p;
        z.append(&mut aux);
        Witness { z, az, bz }
    }
}

/// A Groth16 proof over BN256.
#[derive(Clone, Copy)]
pub struct Proof {
    pub a: G1Affine,
    pub b: G2Affine,
    pub c: G1Affine,
}

/// `A = [r]δ + α + A·z`, added in bellman's order.
pub open spec fn proof_a(vk: VerifyingKey, out: CoreOutputs, r: nat) -> G1View {
    g1_add(g1_add(g1_scalar_mul(vk.delta_g1@, r), vk.alpha_g1@), out.msm_a@)
}

/// `B = [s]δ + β + B·z`, added in bellman's order.
pub open spec fn proof_b(vk: VerifyingKey, out: CoreOutputs, s: nat) -> G2View {
    g2_add(g2_add(g2_scalar_mul(vk.delta_g2@, s), vk.beta_g2@), out.msm_b_g2@)
}

/// `C = [rs]δ + [s]α + [r]β + [s](A·z) + [r](B·z) + h·H + L`, added in
/// bellman's order.
pub open spec fn proof_c(vk: VerifyingKey, out: CoreOutputs, r: nat, s: nat) -> G1View {
    let rs = (r * s) % fr_modulus();
    let c0 = g1_scalar_mul(vk.delta_g1@, rs);
    let c1 = g1_add(c0, g1_scalar_mul(vk.alpha_g1@, s));
    let c2 = g1_add(c1, g1_scalar_mul(vk.beta_g1@, r));
    let c3 = g1_add(c2, g1_scalar_mul(out.msm_a@, s));
    let c4 = g1_add(c3, g1_scalar_mul(out.msm_b_g1@, r));
    let c5 = g1_add(c4, out.msm_h@);
    g1_add(c5, out.msm_l@)
}

/// The verifying-key points that the assembly uses have canonical
/// coordinates.
pub open spec fn vk_wf(vk: VerifyingKey) -> bool {
    &&& vk.alpha_g1.wf()
    &&& vk.beta_g1.wf()
    &&& vk.beta_g2.wf()
    &&& vk.delta_g1.wf()
    &&& vk.delta_g2.wf()
}

/// Whether the verifying-key points that the assembly uses have canonical
/// coordinates.
pub fn vk_is_canonical(vk: &VerifyingKey) -> (b: bool)
    ensures
        b == vk_wf(*vk),
{
    vk.alpha_g1.is_canonical() && vk.beta_g1.is_canonical() && vk.beta_g2.is_canonical()
        && vk.delta_g1.is_canonical() && vk.delta_g2.is_canonical()
}

/// bellman's final proof assembly, fed the fused core's MSM results and the
/// blinding `(r, s)`. Refused when `δ` is at infinity in G1 or G2.
pub fn assemble_proof(vk: &VerifyingKey, out: &CoreOutputs, r: Fr, s: Fr) -> (p: Result<Proof, Groth16Error>)
    requires
        vk_wf(*vk),
        out.wf(),
        r.wf(),
        s.wf(),
    ensures
        p is Err <==> (vk.delta_g1.spec_is_identity() || vk.delta_g2.spec_is_identity()),
        p matches Err(e) ==> e == Groth16Error::UnexpectedIdentity,
        p matches Ok(proof) ==> {
            &&& proof.a@ == proof_a(*vk, *out, r@)
            &&& proof.b@ == proof_b(*vk, *out, s@)
            &&& proof.c@ == proof_c(*vk, *out, r@, s@)
            &&& proof.a.wf() && proof.b.wf() && proof.c.wf()
        },
{
    if vk.delta_g1.is_identity() || vk.delta_g2.is_identity() {
        return Err(Groth16Error::UnexpectedIdentity);
    }

    let mut g_a = g1_mul(vk.delta_g1, r);
    g_a = g1_add_points(g_a, vk.alpha_g1);
    let mut g_b = g2_mul(vk.delta_g2, s);
    g_b = g2_add_points(g_b, vk.beta_g2);
    let rs = fr_mul(r, s);
    let mut g_c = g1_mul(vk.delta_g1, rs);
    g_c = g1_add_points(g_c, g1_mul(vk.alpha_g1, s));
    g_c = g1_add_points(g_c, g1_mul(vk.beta_g1, r));

    let mut a_answer = out.msm_a;
    g_a = g1_add_points(g_a, a_answer);
    a_answer = g1_mul(a_answer, s);
    g_c = g1_add_points(g_c, a_answer);

    let mut b1_answer = out.msm_b_g1;
    g_b = g2_add_points(g_b, out.msm_b_g2);
    b1_answer = g1_mul(b1_answer, r);
    g_c = g1_add_points(g_c, b1_answer);
    g_c = g1_add_points(g_c, out.msm_h);
    g_c = g1_add_points(g_c, out.msm_l);

    Ok(Proof { a: g_a, b: g_b, c: g_c })
}

} // verus!
