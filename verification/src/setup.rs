//! Trusted setup (CRS generation) for the BN256 Groth16 instance, without
//! Wnaf: the QAP is read off the circuit's constraints, evaluated at `tau`,
//! and lifted onto the curve by plain scalar multiplication. The A/B queries
//! are kept dense (identity entries retained) for the fused GPU core;
//! [`GpuProvingKey::to_parameters`] filters them for bellman's own prover.
use vstd::prelude::*;

use crate::constraint::{all_wf, lc_wf, Index, LinearCombination, Groth16Error};
use crate::qap::{setup_allocated_aux, setup_allocated_input, setup_enforced};
use crate::curve::{g1_identity, g1_scalar_mul, g2_identity, g2_scalar_mul, g1_mul, g2_mul, AffinePoint, G1Affine, G1View, G2Affine, G2View};
use crate::field::{fr_add, fr_inverse, fr_invert, fr_modulus, fr_mul, fr_one, fr_pow, Fr};
use crate::domain::{
    domain_fits, domain_from_coeffs, domain_ifft, domain_size, domain_z, evaluation_domain_ifft,
    lemma_domain_size_bound, lemma_log2_ceil_pow2, log2_ceil,
};

verus! {

/// The per-variable QAP entries: for each variable, the `(coefficient,
/// constraint)` pairs in which it occurs, in order of occurrence.
pub open spec fn lists(v: Seq<Vec<(Fr, usize)>>) -> Seq<Seq<(Fr, usize)>> {
    v.map_values(|l: Vec<(Fr, usize)>| l@)
}

/// Whether a term writes into the input lists (`inputs_side`) or the aux ones,
/// and at which position.
pub open spec fn term_target(v: Index, inputs_side: bool) -> Option<nat> {
    match v {
        Index::Input(i) => if inputs_side { Some(i as nat) } else { None },
        Index::Aux(i) => if inputs_side { None } else { Some(i as nat) },
    }
}

/// `ls` after recording every term of `terms` that belongs to this side as
/// `(coeff, constraint)`.
pub open spec fn recorded(
    ls: Seq<Seq<(Fr, usize)>>,
    terms: Seq<(Index, Fr)>,
    inputs_side: bool,
    constraint: usize,
) -> Seq<Seq<(Fr, usize)>>
    decreases terms.len(),
{
    if terms.len() == 0 {
        ls
    } else {
        let prev = recorded(ls, terms.drop_last(), inputs_side, constraint);
        let (v, c) = terms.last();
        match term_target(v, inputs_side) {
            Some(i) => prev.update(i as int, prev[i as int].push((c, constraint))),
            None => prev,
        }
    }
}

/// Every recorded entry has a canonical coefficient and names a constraint
/// below `num_constraints`.
pub open spec fn entries_wf(ls: Seq<Seq<(Fr, usize)>>, num_constraints: nat) -> bool {
    forall|i: int, k: int|
        0 <= i < ls.len() && 0 <= k < ls[i].len() ==> {
            &&& (#[trigger] ls[i][k]).0.wf()
            &&& ls[i][k].1 < num_constraints
        }
}

/// Circuit → QAP synthesis state: the counts and, per variable, where it
/// occurs in the A, B and C polynomials.
pub struct KeypairAssembly {
    pub num_inputs: usize,
    pub num_aux: usize,
    pub num_constraints: usize,
    pub at_inputs: Vec<Vec<(Fr, usize)>>,
    pub bt_inputs: Vec<Vec<(Fr, usize)>>,
    pub ct_inputs: Vec<Vec<(Fr, usize)>>,
    pub at_aux: Vec<Vec<(Fr, usize)>>,
    pub bt_aux: Vec<Vec<(Fr, usize)>>,
    pub ct_aux: Vec<Vec<(Fr, usize)>>,
}

impl KeypairAssembly {
    /// One list per variable, every entry canonical and naming an enforced
    /// constraint.
    pub open spec fn wf(&self) -> bool {
        &&& self.at_inputs@.len() == self.num_inputs
        &&& self.bt_inputs@.len() == self.num_inputs
        &&& self.ct_inputs@.len() == self.num_inputs
        &&& self.at_aux@.len() == self.num_aux
        &&& self.bt_aux@.len() == self.num_aux
        &&& self.ct_aux@.len() == self.num_aux
        &&& entries_wf(lists(self.at_inputs@), self.num_constraints as nat)
        &&& entries_wf(lists(self.bt_inputs@), self.num_constraints as nat)
        &&& entries_wf(lists(self.ct_inputs@), self.num_constraints as nat)
        &&& entries_wf(lists(self.at_aux@), self.num_constraints as nat)
        &&& entries_wf(lists(self.bt_aux@), self.num_constraints as nat)
        &&& entries_wf(lists(self.ct_aux@), self.num_constraints as nat)
    }

    /// No constraints yet, and one input: the constant "one" that every
    /// circuit gets before it is synthesized.
    pub fn new() -> (s: KeypairAssembly)
        ensures
            s.wf(),
            s.num_inputs == 1,
            s.num_aux == 0,
            s.num_constraints == 0,
            lists(s.at_inputs@) == seq![Seq::<(Fr, usize)>::empty()],
            lists(s.bt_inputs@) == seq![Seq::<(Fr, usize)>::empty()],
            lists(s.ct_inputs@) == seq![Seq::<(Fr, usize)>::empty()],
    {
        let mut s = KeypairAssembly {
            num_inputs: 0,
            num_aux: 0,
            num_constraints: 0,
            at_inputs: Vec::new(),
            bt_inputs: Vec::new(),
            ct_inputs: Vec::new(),
            at_aux: Vec::new(),
            bt_aux: Vec::new(),
            ct_aux: Vec::new(),
        };
        proof {
            assert(lists(s.at_inputs@) =~= Seq::<Seq<(Fr, usize)>>::empty());
            assert(lists(s.bt_inputs@) =~= Seq::<Seq<(Fr, usize)>>::empty());
            assert(lists(s.ct_inputs@) =~= Seq::<Seq<(Fr, usize)>>::empty());
            assert(lists(s.at_aux@) =~= Seq::<Seq<(Fr, usize)>>::empty());
            assert(lists(s.bt_aux@) =~= Seq::<Seq<(Fr, usize)>>::empty());
            assert(lists(s.ct_aux@) =~= Seq::<Seq<(Fr, usize)>>::empty());
        }
        s.alloc_input();
        proof {
            assert(seq![Seq::<(Fr, usize)>::empty()] =~= Seq::<Seq<(Fr, usize)>>::empty().push(Seq::empty()));
        }
        s
    }

    /// Allocate an auxiliary variable (its value is not needed for setup).
    pub fn alloc_aux(&mut self) -> (v: Index)
        requires
            old(self).wf(),
            old(self).num_aux < usize::MAX,
        ensures
            final(self).wf(),
            v == Index::Aux(old(self).num_aux),
            final(self).num_aux == old(self).num_aux + 1,
            final(self).num_inputs == old(self).num_inputs,
            final(self).num_constraints == old(self).num_constraints,
            final(self).at_inputs@ == old(self).at_inputs@,
            final(self).bt_inputs@ == old(self).bt_inputs@,
            final(self).ct_inputs@ == old(self).ct_inputs@,
            lists(final(self).at_aux@) == lists(old(self).at_aux@).push(Seq::empty()),
            lists(final(self).bt_aux@) == lists(old(self).bt_aux@).push(Seq::empty()),
            lists(final(self).ct_aux@) == lists(old(self).ct_aux@).push(Seq::empty()),
            setup_allocated_aux(*old(self), *final(self)),
    {
        let index = self.num_aux;
        self.num_aux = self.num_aux + 1;
        self.at_aux.push(Vec::new());
        self.bt_aux.push(Vec::new());
        self.ct_aux.push(Vec::new());
        proof {
            assert(lists(self.at_aux@) =~= lists(old(self).at_aux@).push(Seq::empty()));
            assert(lists(self.bt_aux@) =~= lists(old(self).bt_aux@).push(Seq::empty()));
            assert(lists(self.ct_aux@) =~= lists(old(self).ct_aux@).push(Seq::empty()));
        }
        Index::Aux(index)
    }

    /// Allocate a public input variable (its value is not needed for setup).
    pub fn alloc_input(&mut self) -> (v: Index)
        requires
            old(self).wf(),
            old(self).num_inputs < usize::MAX,
        ensures
            final(self).wf(),
            v == Index::Input(old(self).num_inputs),
            final(self).num_inputs == old(self).num_inputs + 1,
            final(self).num_aux == old(self).num_aux,
            final(self).num_constraints == old(self).num_constraints,
            final(self).at_aux@ == old(self).at_aux@,
            final(self).bt_aux@ == old(self).bt_aux@,
            final(self).ct_aux@ == old(self).ct_aux@,
            lists(final(self).at_inputs@) == lists(old(self).at_inputs@).push(Seq::empty()),
            lists(final(self).bt_inputs@) == lists(old(self).bt_inputs@).push(Seq::empty()),
            lists(final(self).ct_inputs@) == lists(old(self).ct_inputs@).push(Seq::empty()),
            setup_allocated_input(*old(self), *final(self)),
    {
        let index = self.num_inputs;
        self.num_inputs = self.num_inputs + 1;
        self.at_inputs.push(Vec::new());
        self.bt_inputs.push(Vec::new());
        self.ct_inputs.push(Vec::new());
        proof {
            assert(lists(self.at_inputs@) =~= lists(old(self).at_inputs@).push(Seq::empty()));
            assert(lists(self.bt_inputs@) =~= lists(old(self).bt_inputs@).push(Seq::empty()));
            assert(lists(self.ct_inputs@) =~= lists(old(self).ct_inputs@).push(Seq::empty()));
        }
        Index::Input(index)
    }

    /// Enforce `a · b = c`: every term of each combination is recorded, with
    /// this constraint's number, in the list of the variable it names.
    pub fn enforce(
        &mut self,
        a: &LinearCombination,
        b: &LinearCombination,
        c: &LinearCombination,
    )
        requires
            old(self).wf(),
            old(self).num_constraints < usize::MAX,
            lc_wf(a.terms@, old(self).num_inputs as nat, old(self).num_aux as nat),
            lc_wf(b.terms@, old(self).num_inputs as nat, old(self).num_aux as nat),
            lc_wf(c.terms@, old(self).num_inputs as nat, old(self).num_aux as nat),
        ensures
            final(self).wf(),
            final(self).num_inputs == old(self).num_inputs,
            final(self).num_aux == old(self).num_aux,
            final(self).num_constraints == old(self).num_constraints + 1,
            lists(final(self).at_inputs@) == recorded(
                lists(old(self).at_inputs@),
                a.terms@,
                true,
                old(self).num_constraints,
            ),
            lists(final(self).at_aux@) == recorded(
                lists(old(self).at_aux@),
                a.terms@,
                false,
                old(self).num_constraints,
            ),
            lists(final(self).bt_inputs@) == recorded(
                lists(old(self).bt_inputs@),
                b.terms@,
                true,
                old(self).num_constraints,
            ),
            lists(final(self).bt_aux@) == recorded(
                lists(old(self).bt_aux@),
                b.terms@,
                false,
                old(self).num_constraints,
            ),
            lists(final(self).ct_inputs@) == recorded(
                lists(old(self).ct_inputs@),
                c.terms@,
                true,
                old(self).num_constraints,
            ),
            lists(final(self).ct_aux@) == recorded(
                lists(old(self).ct_aux@),
                c.terms@,
                false,
                old(self).num_constraints,
            ),
            setup_enforced(*old(self), *final(self), a.terms@, b.terms@),
    {
        let this_constraint = self.num_constraints;
        record_terms(a, &mut self.at_inputs, &mut self.at_aux, this_constraint);
        record_terms(b, &mut self.bt_inputs, &mut self.bt_aux, this_constraint);
        record_terms(c, &mut self.ct_inputs, &mut self.ct_aux, this_constraint);
        self.num_constraints = this_constraint + 1;
    }
}

/// Record every term of `lc` as `(coeff, this_constraint)` in the list of the
/// variable it names.
fn record_terms(
    lc: &LinearCombination,
    inputs: &mut Vec<Vec<(Fr, usize)>>,
    aux: &mut Vec<Vec<(Fr, usize)>>,
    this_constraint: usize,
)
    requires
        lc_wf(lc.terms@, old(inputs)@.len(), old(aux)@.len()),
        entries_wf(lists(old(inputs)@), this_constraint as nat),
        entries_wf(lists(old(aux)@), this_constraint as nat),
    ensures
        final(inputs)@.len() == old(inputs)@.len(),
        final(aux)@.len() == old(aux)@.len(),
        lists(final(inputs)@) == recorded(lists(old(inputs)@), lc.terms@, true, this_constraint),
        lists(final(aux)@) == recorded(lists(old(aux)@), lc.terms@, false, this_constraint),
        entries_wf(lists(final(inputs)@), this_constraint as nat + 1),
        entries_wf(lists(final(aux)@), this_constraint as nat + 1),
{
    let ghost ins0 = lists(inputs@);
    let ghost aux0 = lists(aux@);
    let n = lc.terms.len();
    let mut k: usize = 0;
    while k < n
        invariant
            n == lc.terms@.len(),
            0 <= k <= n,
            lc_wf(lc.terms@, ins0.len(), aux0.len()),
            inputs@.len() == ins0.len(),
            aux@.len() == aux0.len(),
            lists(inputs@) == recorded(ins0, lc.terms@.take(k as int), true, this_constraint),
            lists(aux@) == recorded(aux0, lc.terms@.take(k as int), false, this_constraint),
            entries_wf(lists(inputs@), this_constraint as nat + 1),
            entries_wf(lists(aux@), this_constraint as nat + 1),
        decreases n - k,
    {
        let (index, coeff) = lc.terms[k];
        proof {
            assert(lc.terms@.take(k + 1).drop_last() =~= lc.terms@.take(k as int));
            assert(lc.terms@.take(k + 1).last() == lc.terms@[k as int]);
            assert(lc.terms@[k as int].1.wf());
        }
        let ghost before_in = inputs@;
        let ghost before_aux = aux@;
        match index {
            Index::Input(id) => {
                inputs[id].push((coeff, this_constraint));
                proof {
                    assert(lists(inputs@) =~= lists(before_in).update(
                        id as int,
                        lists(before_in)[id as int].push((coeff, this_constraint)),
                    ));
                }
            },
            Index::Aux(id) => {
                aux[id].push((coeff, this_constraint));
                proof {
                    assert(lists(aux@) =~= lists(before_aux).update(
                        id as int,
                        lists(before_aux)[id as int].push((coeff, this_constraint)),
                    ));
                }
            },
        }
        k = k + 1;
    }
    proof {
        assert(lc.terms@.take(n as int) =~= lc.terms@);
    }
}

/// The residues of a sequence of scalars.
pub open spec fn values(s: Seq<Fr>) -> Seq<nat> {
    s.map_values(|f: Fr| f@)
}

/// A QAP polynomial, given by its `(coefficient, constraint)` entries,
/// evaluated against the Lagrange basis values `lag`: `Σ lag[j] · coeff`,
/// reduced modulo the scalar field.
pub open spec fn qap_eval(lag: Seq<nat>, p: Seq<(Fr, usize)>) -> nat
    decreases p.len(),
{
    if p.len() == 0 {
        0
    } else {
        let (c, j) = p.last();
        (qap_eval(lag, p.drop_last()) + (lag[j as int] * c@) % fr_modulus()) % fr_modulus()
    }
}

/// A G1 query entry: `[v]G` for a non-zero evaluation, the point at infinity
/// for zero.
pub open spec fn query_g1(g: G1View, v: nat) -> G1View {
    if v == 0 {
        g1_identity()
    } else {
        g1_scalar_mul(g, v)
    }
}

/// A G2 query entry: `[v]G` for a non-zero evaluation, the point at infinity
/// for zero.
pub open spec fn query_g2(g: G2View, v: nat) -> G2View {
    if v == 0 {
        g2_identity()
    } else {
        g2_scalar_mul(g, v)
    }
}

/// `(β·A + α·B + C) · inv`, step by step as the field computes it.
pub open spec fn ext_value(at: nat, bt: nat, ct: nat, alpha: nat, beta: nat, inv: nat) -> nat {
    let r = fr_modulus();
    let e = (((at * beta) % r + (bt * alpha) % r) % r + ct) % r;
    (e * inv) % r
}

/// Every entry names a position below `n` and has a canonical coefficient.
pub open spec fn poly_wf(p: Seq<(Fr, usize)>, n: nat) -> bool {
    forall|k: int| 0 <= k < p.len() ==> (#[trigger] p[k]).0.wf() && p[k].1 < n
}

/// Evaluate one QAP polynomial at `tau`, given the Lagrange basis at `tau`.
fn eval_at_tau(powers_of_tau: &Vec<Fr>, p: &Vec<(Fr, usize)>) -> (acc: Fr)
    requires
        all_wf(powers_of_tau@),
        poly_wf(p@, powers_of_tau@.len()),
    ensures
        acc.wf(),
        acc@ == qap_eval(values(powers_of_tau@), p@),
{
    let mut acc = Fr::zero();
    let mut k: usize = 0;
    while k < p.len()
        invariant
            0 <= k <= p@.len(),
            all_wf(powers_of_tau@),
            poly_wf(p@, powers_of_tau@.len()),
            acc.wf(),
            acc@ == qap_eval(values(powers_of_tau@), p@.take(k as int)),
        decreases p@.len() - k,
    {
        let (coeff, index) = p[k];
        let n = fr_mul(powers_of_tau[index], coeff);
        acc = fr_add(acc, n);
        proof {
            assert(p@.take(k + 1).drop_last() =~= p@.take(k as int));
            assert(p@.take(k + 1).last() == p@[k as int]);
        }
        k = k + 1;
    }
    proof {
        assert(p@.take(p@.len() as int) =~= p@);
    }
    acc
}

/// The QAP queries of one group of variables (inputs or aux): the A and B
/// entries, and the `ext` entry (IC for inputs, L for aux) scaled by `inv`.
pub struct Queries {
    pub a: Vec<G1Affine>,
    pub b_g1: Vec<G1Affine>,
    pub b_g2: Vec<G2Affine>,
    pub ext: Vec<G1Affine>,
}

/// `n` variables' queries, given each variable's `(A, B, C)` evaluations at
/// tau: the A and B entries, and `ext = [(β·A + α·B + C) · inv] G1`.
pub open spec fn queries_match(
    q: Queries,
    n: nat,
    g1: G1View,
    g2: G2View,
    evals: spec_fn(int) -> (nat, nat, nat),
    alpha: nat,
    beta: nat,
    inv: nat,
) -> bool {
    &&& q.a@.len() == n
    &&& q.b_g1@.len() == n
    &&& q.b_g2@.len() == n
    &&& q.ext@.len() == n
    &&& forall|i: int| 0 <= i < n ==> (#[trigger] q.a@[i])@ == query_g1(g1, evals(i).0) && q.a@[i].wf()
    &&& forall|i: int| 0 <= i < n ==> (#[trigger] q.b_g1@[i])@ == query_g1(g1, evals(i).1) && q.b_g1@[i].wf()
    &&& forall|i: int| 0 <= i < n ==> (#[trigger] q.b_g2@[i])@ == query_g2(g2, evals(i).1) && q.b_g2@[i].wf()
    &&& forall|i: int|
        0 <= i < n ==> (#[trigger] q.ext@[i])@ == g1_scalar_mul(
            g1,
            ext_value(evals(i).0, evals(i).1, evals(i).2, alpha, beta, inv),
        ) && q.ext@[i].wf()
    &&& forall|i: int|
        0 <= i < n && ext_value(evals(i).0, evals(i).1, evals(i).2, alpha, beta, inv) == 0
            ==> (#[trigger] q.ext@[i])@ == g1_identity()
}

/// The `(A, B, C)` evaluations of a group of QAP polynomials.
pub open spec fn group_evals(
    lag: Seq<nat>,
    at: Seq<Vec<(Fr, usize)>>,
    bt: Seq<Vec<(Fr, usize)>>,
    ct: Seq<Vec<(Fr, usize)>>,
) -> spec_fn(int) -> (nat, nat, nat) {
    |i: int| (qap_eval(lag, at[i]@), qap_eval(lag, bt[i]@), qap_eval(lag, ct[i]@))
}

/// Evaluate the QAP polynomials of a group of variables at `tau` and lift
/// them onto the curve. A/B entries whose evaluation is zero stay at infinity.
fn eval(
    g1: G1Affine,
    g2: G2Affine,
    powers_of_tau: &Vec<Fr>,
    at: &Vec<Vec<(Fr, usize)>>,
    bt: &Vec<Vec<(Fr, usize)>>,
    ct: &Vec<Vec<(Fr, usize)>>,
    inv: Fr,
    alpha: Fr,
    beta: Fr,
) -> (q: Queries)
    requires
        g1.wf(),
        g2.wf(),
        inv.wf(),
        alpha.wf(),
        beta.wf(),
        all_wf(powers_of_tau@),
        at@.len() == bt@.len(),
        at@.len() == ct@.len(),
        entries_wf(lists(at@), powers_of_tau@.len()),
        entries_wf(lists(bt@), powers_of_tau@.len()),
        entries_wf(lists(ct@), powers_of_tau@.len()),
    ensures
        queries_match(
            q,
            at@.len(),
            g1@,
            g2@,
            group_evals(values(powers_of_tau@), at@, bt@, ct@),
            alpha@,
            beta@,
            inv@,
        ),
{
    let ghost lag = values(powers_of_tau@);
    let ghost ev = group_evals(lag, at@, bt@, ct@);
    let mut q = Queries { a: Vec::new(), b_g1: Vec::new(), b_g2: Vec::new(), ext: Vec::new() };
    let n = at.len();
    let mut i: usize = 0;
    while i < n
        invariant
            n == at@.len(),
            0 <= i <= n,
            at@.len() == bt@.len(),
            at@.len() == ct@.len(),
            g1.wf(),
            g2.wf(),
            inv.wf(),
            alpha.wf(),
            beta.wf(),
            all_wf(powers_of_tau@),
            lag == values(powers_of_tau@),
            ev == group_evals(lag, at@, bt@, ct@),
            entries_wf(lists(at@), powers_of_tau@.len()),
            entries_wf(lists(bt@), powers_of_tau@.len()),
            entries_wf(lists(ct@), powers_of_tau@.len()),
            queries_match(q, i as nat, g1@, g2@, ev, alpha@, beta@, inv@),
        decreases n - i,
    {
        proof {
            assert(lists(at@)[i as int] == at@[i as int]@);
            assert(lists(bt@)[i as int] == bt@[i as int]@);
            assert(lists(ct@)[i as int] == ct@[i as int]@);
        }
        let mut at_i = eval_at_tau(powers_of_tau, &at[i]);
        let mut bt_i = eval_at_tau(powers_of_tau, &bt[i]);
        let ct_i = eval_at_tau(powers_of_tau, &ct[i]);

        // A query (in G1).
        let a_i = if !at_i.is_zero() { g1_mul(g1, at_i) } else { G1Affine::identity() };
        // B query (in G1 and G2).
        let (b1_i, b2_i) = if !bt_i.is_zero() {
            (g1_mul(g1, bt_i), g2_mul(g2, bt_i))
        } else {
            (G1Affine::identity(), G2Affine::identity())
        };

        // ext = (beta * A + alpha * B + C) / {gamma|delta}.
        let ghost (a_v, b_v, c_v) = (at_i@, bt_i@, ct_i@);
        at_i = fr_mul(at_i, beta);
        bt_i = fr_mul(bt_i, alpha);
        let mut e = at_i;
        e = fr_add(e, bt_i);
        e = fr_add(e, ct_i);
        e = fr_mul(e, inv);
        let ext_i = g1_mul(g1, e);

        q.a.push(a_i);
        q.b_g1.push(b1_i);
        q.b_g2.push(b2_i);
        q.ext.push(ext_i);
        proof {
            assert(ev(i as int) == (a_v, b_v, c_v));
            assert(e@ == ext_value(a_v, b_v, c_v, alpha@, beta@, inv@));
        }
        i = i + 1;
    }
    q
}

/// The raw `(A, B, C)` evaluations of input `i`, its consistency constraint
/// included.
pub open spec fn input_evals(cs: KeypairAssembly, lag: Seq<nat>, i: int) -> (nat, nat, nat) {
    let at_in = finished_inputs(lists(cs.at_inputs@), cs.num_constraints as nat);
    (
        qap_eval(lag, at_in[i]),
        qap_eval(lag, cs.bt_inputs@[i]@),
        qap_eval(lag, cs.ct_inputs@[i]@),
    )
}

/// The raw `(A, B, C)` evaluations of aux variable `i`.
pub open spec fn aux_evals(cs: KeypairAssembly, lag: Seq<nat>, i: int) -> (nat, nat, nat) {
    (qap_eval(lag, cs.at_aux@[i]@), qap_eval(lag, cs.bt_aux@[i]@), qap_eval(lag, cs.ct_aux@[i]@))
}

/// The evaluations of variable `j` of the full assignment `[inputs ‖ aux]`.
pub open spec fn var_evals(cs: KeypairAssembly, lag: Seq<nat>, j: int) -> (nat, nat, nat) {
    if j < cs.num_inputs {
        input_evals(cs, lag, j)
    } else {
        aux_evals(cs, lag, j - cs.num_inputs)
    }
}

/// A Groth16 verifying key over BN256.
pub struct VerifyingKey {
    pub alpha_g1: G1Affine,
    pub beta_g1: G1Affine,
    pub beta_g2: G2Affine,
    pub gamma_g2: G2Affine,
    pub delta_g1: G1Affine,
    pub delta_g2: G2Affine,
    pub ic: Vec<G1Affine>,
}

/// Dense (unfiltered) proving key for the GPU fused core. Unlike bellman's
/// `Parameters`, the A/B queries keep their identity entries, so the core can
/// run a single dense MSM over the full assignment.
pub struct GpuProvingKey {
    pub vk: VerifyingKey,
    /// length n-1
    pub h: Vec<G1Affine>,
    /// length num_aux
    pub l: Vec<G1Affine>,
    /// length num_inputs + num_aux (unfiltered)
    pub a: Vec<G1Affine>,
    /// length num_inputs + num_aux (unfiltered)
    pub b_g1: Vec<G1Affine>,
    /// length num_inputs + num_aux (unfiltered)
    pub b_g2: Vec<G2Affine>,
    pub num_inputs: usize,
}

/// bellman's `Parameters`: the proving key with the A/B queries filtered of
/// points at infinity.
pub struct Parameters {
    pub vk: VerifyingKey,
    pub h: Vec<G1Affine>,
    pub l: Vec<G1Affine>,
    pub a: Vec<G1Affine>,
    pub b_g1: Vec<G1Affine>,
    pub b_g2: Vec<G2Affine>,
}

/// The points of `s` that are not at infinity, in order.
pub open spec fn without_identity<C: AffinePoint>(s: Seq<C>) -> Seq<C> {
    s.filter(|p: C| !p.spec_is_identity())
}

/// Drop identity (point-at-infinity) entries — bellman's CRS omits them.
pub fn filter_identity<C: AffinePoint>(v: &Vec<C>) -> (r: Vec<C>)
    ensures
        r@ == without_identity(v@),
{
    let ghost pred = |p: C| !p.spec_is_identity();
    let mut r: Vec<C> = Vec::new();
    let mut i: usize = 0;
    while i < v.len()
        invariant
            0 <= i <= v@.len(),
            pred == (|p: C| !p.spec_is_identity()),
            r@ == v@.take(i as int).filter(pred),
        decreases v@.len() - i,
    {
        proof {
            reveal(Seq::filter);
            assert(v@.take(i + 1).drop_last() =~= v@.take(i as int));
            assert(v@.take(i + 1).last() == v@[i as int]);
        }
        if !v[i].is_identity() {
            r.push(v[i]);
        }
        i = i + 1;
    }
    proof {
        assert(v@.take(v@.len() as int) =~= v@);
    }
    r
}

/// An element-for-element copy.
pub fn copy_points<C: Copy>(v: &Vec<C>) -> (r: Vec<C>)
    ensures
        r@ == v@,
{
    let mut r: Vec<C> = Vec::new();
    let mut i: usize = 0;
    while i < v.len()
        invariant
            0 <= i <= v@.len(),
            r@ == v@.take(i as int),
        decreases v@.len() - i,
    {
        r.push(v[i]);
        proof {
            assert(v@.take(i + 1) =~= v@.take(i as int).push(v@[i as int]));
        }
        i = i + 1;
    }
    proof {
        assert(v@.take(v@.len() as int) =~= v@);
    }
    r
}

impl VerifyingKey {
    /// An element-for-element copy of the key.
    pub fn duplicate(&self) -> (r: VerifyingKey)
        ensures
            r == (VerifyingKey { ic: r.ic, ..*self }),
            r.ic@ == self.ic@,
    {
        VerifyingKey {
            alpha_g1: self.alpha_g1,
            beta_g1: self.beta_g1,
            beta_g2: self.beta_g2,
            gamma_g2: self.gamma_g2,
            delta_g1: self.delta_g1,
            delta_g2: self.delta_g2,
            ic: copy_points(&self.ic),
        }
    }
}

/// `p` is `key` with the A/B queries filtered of points at infinity.
pub open spec fn parameters_of(key: GpuProvingKey, p: Parameters) -> bool {
    &&& p.vk == (VerifyingKey { ic: p.vk.ic, ..key.vk })
    &&& p.vk.ic@ == key.vk.ic@
    &&& p.h@ == key.h@
    &&& p.l@ == key.l@
    &&& p.a@ == without_identity(key.a@)
    &&& p.b_g1@ == without_identity(key.b_g1@)
    &&& p.b_g2@ == without_identity(key.b_g2@)
}

impl GpuProvingKey {
    /// bellman `Parameters` (A/B queries filtered of identity points), for
    /// driving bellman's own prover as the CPU oracle.
    pub fn to_parameters(&self) -> (p: Parameters)
        ensures
            parameters_of(*self, p),
    {
        Parameters {
            vk: self.vk.duplicate(),
            h: copy_points(&self.h),
            l: copy_points(&self.l),
            a: filter_identity(&self.a),
            b_g1: filter_identity(&self.b_g1),
            b_g2: filter_identity(&self.b_g2),
        }
    }
}

/// Filtering keeps exactly the points that are not at infinity.
proof fn lemma_without_identity<C: AffinePoint>(s: Seq<C>)
    ensures
        without_identity(s).len() <= s.len(),
        forall|i: int|
            0 <= i < without_identity(s).len() ==> !(#[trigger] without_identity(s)[i]).spec_is_identity(),
        forall|j: int|
            0 <= j < s.len() && !s[j].spec_is_identity() ==> #[trigger] without_identity(s).contains(s[j]),
{
    broadcast use vstd::seq_lib::group_filter_ensures;
    let pred = |p: C| !p.spec_is_identity();
    assert forall|i: int| 0 <= i < without_identity(s).len() implies !(#[trigger] without_identity(s)[i]).spec_is_identity() by {
        assert(pred(s.filter(pred)[i]));
    }
    assert forall|j: int| 0 <= j < s.len() && !s[j].spec_is_identity() implies #[trigger] without_identity(s).contains(s[j]) by {
        assert(pred(s[j]));
        assert(s.filter(pred).contains(s[j]));
    }
}

/// Law: bellman's parameters omit the points at infinity of the dense key.
/// Their A and B queries hold no point at infinity, every point of the dense
/// queries that is not at infinity is kept, and the rest of the key is
/// unchanged.
pub proof fn lemma_parameters_omit_identities(key: GpuProvingKey, p: Parameters)
    requires
        parameters_of(key, p),
    ensures
        forall|i: int| 0 <= i < p.a@.len() ==> !(#[trigger] p.a@[i]).spec_is_identity(),
        forall|i: int| 0 <= i < p.b_g1@.len() ==> !(#[trigger] p.b_g1@[i]).spec_is_identity(),
        forall|i: int| 0 <= i < p.b_g2@.len() ==> !(#[trigger] p.b_g2@[i]).spec_is_identity(),
        forall|j: int| 0 <= j < key.a@.len() && !key.a@[j].spec_is_identity() ==> #[trigger] p.a@.contains(key.a@[j]),
        forall|j: int| 0 <= j < key.b_g1@.len() && !key.b_g1@[j].spec_is_identity() ==> #[trigger] p.b_g1@.contains(key.b_g1@[j]),
        forall|j: int| 0 <= j < key.b_g2@.len() && !key.b_g2@[j].spec_is_identity() ==> #[trigger] p.b_g2@.contains(key.b_g2@[j]),
        p.a@.len() <= key.a@.len(),
        p.b_g1@.len() <= key.b_g1@.len(),
        p.b_g2@.len() <= key.b_g2@.len(),
        p.h@ == key.h@,
        p.l@ == key.l@,
        p.vk.ic@ == key.vk.ic@,
{
    lemma_without_identity(key.a@);
    lemma_without_identity(key.b_g1@);
    lemma_without_identity(key.b_g2@);
}

/// `tau^0, …, tau^(m-1)` in the scalar field.
pub open spec fn tau_powers(tau: nat, m: nat) -> Seq<nat> {
    Seq::new(m, |i: int| fr_pow(tau, i as nat))
}

/// The A lists of the inputs once each input `i` carries its consistency
/// constraint `x_i · 0 = 0`, numbered `nc + i`.
pub open spec fn finished_inputs(ls: Seq<Seq<(Fr, usize)>>, nc: nat) -> Seq<Seq<(Fr, usize)>> {
    Seq::new(ls.len(), |i: int| ls[i].push((fr_one(), (nc + i) as usize)))
}

/// The number of constraints once the input consistency constraints are in.
pub open spec fn total_constraints(cs: KeypairAssembly) -> nat {
    (cs.num_constraints + cs.num_inputs) as nat
}

/// The Lagrange basis of the setup domain, evaluated at `tau`.
pub open spec fn lagrange_at(cs: KeypairAssembly, tau: nat) -> Seq<nat> {
    evaluation_domain_ifft(tau_powers(tau, domain_size(total_constraints(cs))))
}

/// The IC query entry of input `i`.
pub open spec fn ic_entry(cs: KeypairAssembly, g1: G1View, alpha: nat, beta: nat, gamma: nat, tau: nat, i: int) -> G1View {
    let e = input_evals(cs, lagrange_at(cs, tau), i);
    g1_scalar_mul(g1, ext_value(e.0, e.1, e.2, alpha, beta, fr_inverse(gamma)))
}

/// The L query entry of aux variable `i`.
pub open spec fn l_entry(cs: KeypairAssembly, g1: G1View, alpha: nat, beta: nat, delta: nat, tau: nat, i: int) -> G1View {
    let e = aux_evals(cs, lagrange_at(cs, tau), i);
    g1_scalar_mul(g1, ext_value(e.0, e.1, e.2, alpha, beta, fr_inverse(delta)))
}

/// The H query entry `i`: `[tau^i · Z(tau) / delta] G1`.
pub open spec fn h_entry(cs: KeypairAssembly, g1: G1View, delta: nat, tau: nat, i: nat) -> G1View {
    let m = domain_size(total_constraints(cs));
    let z = ((fr_pow(tau, m) + fr_modulus() - 1) as nat) % fr_modulus();
    let coeff = (z * fr_inverse(delta)) % fr_modulus();
    g1_scalar_mul(g1, (fr_pow(tau, i) * coeff) % fr_modulus())
}

/// The key that setup derives from a synthesized circuit and its toxic waste.
pub open spec fn key_matches(
    cs: KeypairAssembly,
    g1: G1Affine,
    g2: G2Affine,
    alpha: Fr,
    beta: Fr,
    gamma: Fr,
    delta: Fr,
    tau: Fr,
    key: GpuProvingKey,
) -> bool {
    let ni = cs.num_inputs as nat;
    let na = cs.num_aux as nat;
    let m = domain_size(total_constraints(cs));
    let lag = lagrange_at(cs, tau@);
    &&& key.num_inputs == cs.num_inputs
    &&& key.h@.len() == m - 1
    &&& key.a@.len() == ni + na
    &&& key.b_g1@.len() == ni + na
    &&& key.b_g2@.len() == ni + na
    &&& key.l@.len() == na
    &&& key.vk.ic@.len() == ni
    &&& forall|i: int| 0 <= i < m - 1 ==> (#[trigger] key.h@[i])@ == h_entry(cs, g1@, delta@, tau@, i as nat)
    &&& forall|j: int| 0 <= j < ni + na ==> (#[trigger] key.a@[j])@ == query_g1(g1@, var_evals(cs, lag, j).0)
    &&& forall|j: int| 0 <= j < ni + na ==> (#[trigger] key.b_g1@[j])@ == query_g1(g1@, var_evals(cs, lag, j).1)
    &&& forall|j: int| 0 <= j < ni + na ==> (#[trigger] key.b_g2@[j])@ == query_g2(g2@, var_evals(cs, lag, j).1)
    &&& forall|i: int| 0 <= i < ni ==> (#[trigger] key.vk.ic@[i])@ == ic_entry(cs, g1@, alpha@, beta@, gamma@, tau@, i)
    &&& forall|i: int| 0 <= i < na ==> (#[trigger] key.l@[i])@ == l_entry(cs, g1@, alpha@, beta@, delta@, tau@, i)
    &&& key.vk.alpha_g1@ == g1_scalar_mul(g1@, alpha@)
    &&& key.vk.beta_g1@ == g1_scalar_mul(g1@, beta@)
    &&& key.vk.beta_g2@ == g2_scalar_mul(g2@, beta@)
    &&& key.vk.gamma_g2@ == g2_scalar_mul(g2@, gamma@)
    &&& key.vk.delta_g1@ == g1_scalar_mul(g1@, delta@)
    &&& key.vk.delta_g2@ == g2_scalar_mul(g2@, delta@)
}

/// Every point of the key has canonical coordinates.
pub open spec fn key_wf(key: GpuProvingKey) -> bool {
    &&& forall|i: int| 0 <= i < key.h@.len() ==> (#[trigger] key.h@[i]).wf()
    &&& forall|i: int| 0 <= i < key.l@.len() ==> (#[trigger] key.l@[i]).wf()
    &&& forall|i: int| 0 <= i < key.a@.len() ==> (#[trigger] key.a@[i]).wf()
    &&& forall|i: int| 0 <= i < key.b_g1@.len() ==> (#[trigger] key.b_g1@[i]).wf()
    &&& forall|i: int| 0 <= i < key.b_g2@.len() ==> (#[trigger] key.b_g2@[i]).wf()
    &&& forall|i: int| 0 <= i < key.vk.ic@.len() ==> (#[trigger] key.vk.ic@[i]).wf()
    &&& key.vk.alpha_g1.wf() && key.vk.beta_g1.wf() && key.vk.beta_g2.wf()
    &&& key.vk.gamma_g2.wf() && key.vk.delta_g1.wf() && key.vk.delta_g2.wf()
}

/// Whether some auxiliary variable takes part in no constraint: it occurs
/// in none of the A, B and C combinations.
pub open spec fn has_unused_aux(cs: KeypairAssembly) -> bool {
    exists|i: int|
        0 <= i < cs.num_aux && #[trigger] cs.at_aux@[i]@.len() == 0 && cs.bt_aux@[i]@.len() == 0
            && cs.ct_aux@[i]@.len() == 0
}

/// Whether the L query of the key for this toxic waste has a point at
/// infinity (an aux variable that takes part in no constraint).
pub open spec fn has_unconstrained(cs: KeypairAssembly, g1: G1View, alpha: nat, beta: nat, delta: nat, tau: nat) -> bool {
    exists|i: int| 0 <= i < cs.num_aux && #[trigger] l_entry(cs, g1, alpha, beta, delta, tau, i) == g1_identity()
}

/// What setup returns for a synthesized circuit and its toxic waste: the first
/// failure in the order the checks are made, else the key.
pub open spec fn setup_outcome(
    cs: KeypairAssembly,
    g1: G1Affine,
    g2: G2Affine,
    alpha: Fr,
    beta: Fr,
    gamma: Fr,
    delta: Fr,
    tau: Fr,
    r: Result<GpuProvingKey, Groth16Error>,
) -> bool {
    if !domain_fits(total_constraints(cs)) {
        r == Err::<GpuProvingKey, Groth16Error>(Groth16Error::PolynomialDegreeTooLarge)
    } else if gamma@ == 0 || delta@ == 0 {
        r == Err::<GpuProvingKey, Groth16Error>(Groth16Error::UnexpectedIdentity)
    } else if has_unconstrained(cs, g1@, alpha@, beta@, delta@, tau@) {
        r == Err::<GpuProvingKey, Groth16Error>(Groth16Error::UnconstrainedVariable)
    } else {
        &&& r is Ok
        &&& key_matches(cs, g1, g2, alpha, beta, gamma, delta, tau, r->Ok_0)
        &&& key_wf(r->Ok_0)
    }
}

/// Add the input consistency constraints `x_i · 0 = 0`, one per input, as
/// bellman's generator and prover both do.
fn enforce_input_constraints(cs: &mut KeypairAssembly)
    requires
        old(cs).wf(),
        old(cs).num_constraints + old(cs).num_inputs < usize::MAX,
    ensures
        final(cs).wf(),
        final(cs).num_inputs == old(cs).num_inputs,
        final(cs).num_aux == old(cs).num_aux,
        final(cs).num_constraints == old(cs).num_constraints + old(cs).num_inputs,
        lists(final(cs).at_inputs@) == finished_inputs(lists(old(cs).at_inputs@), old(cs).num_constraints as nat),
        lists(final(cs).bt_inputs@) == lists(old(cs).bt_inputs@),
        lists(final(cs).ct_inputs@) == lists(old(cs).ct_inputs@),
        lists(final(cs).at_aux@) == lists(old(cs).at_aux@),
        lists(final(cs).bt_aux@) == lists(old(cs).bt_aux@),
        lists(final(cs).ct_aux@) == lists(old(cs).ct_aux@),
{
    let ghost a0 = lists(cs.at_inputs@);
    let ghost nc0 = cs.num_constraints as nat;
    let ni = cs.num_inputs;
    let mut i: usize = 0;
    while i < ni
        invariant
            0 <= i <= ni,
            ni == cs.num_inputs,
            cs.wf(),
            cs.num_aux == old(cs).num_aux,
            cs.num_constraints == nc0 + i,
            nc0 == old(cs).num_constraints,
            a0 == lists(old(cs).at_inputs@),
            nc0 + ni < usize::MAX,
            lists(cs.at_inputs@) == Seq::new(ni as nat, |j: int| if j < i { a0[j].push((fr_one(), (nc0 + j) as usize)) } else { a0[j] }),
            lists(cs.bt_inputs@) == lists(old(cs).bt_inputs@),
            lists(cs.ct_inputs@) == lists(old(cs).ct_inputs@),
            lists(cs.at_aux@) == lists(old(cs).at_aux@),
            lists(cs.bt_aux@) == lists(old(cs).bt_aux@),
            lists(cs.ct_aux@) == lists(old(cs).ct_aux@),
        decreases ni - i,
    {
        let a = LinearCombination::term(Index::Input(i), Fr::one());
        let z = LinearCombination::zero();
        let ghost before = lists(cs.at_inputs@);
        cs.enforce(&a, &z, &z);
        proof {
            let t = seq![(Index::Input(i), fr_one())];
            let e = Seq::<(Index, Fr)>::empty();
            assert(t.drop_last() =~= e);
            assert(z.terms@ =~= e);
            let nc = (nc0 + i) as usize;
            assert(recorded(lists(old(cs).at_aux@), t.drop_last(), false, nc) == lists(old(cs).at_aux@));
            assert(recorded(lists(old(cs).at_aux@), t, false, nc) == lists(old(cs).at_aux@));
            assert(recorded(lists(old(cs).bt_aux@), e, false, nc) == lists(old(cs).bt_aux@));
            assert(recorded(lists(old(cs).ct_aux@), e, false, nc) == lists(old(cs).ct_aux@));
            assert(recorded(lists(old(cs).bt_inputs@), e, true, nc) == lists(old(cs).bt_inputs@));
            assert(recorded(lists(old(cs).ct_inputs@), e, true, nc) == lists(old(cs).ct_inputs@));
            assert(recorded(before, t.drop_last(), true, nc) == before);
            assert(lists(cs.at_inputs@) =~= Seq::new(ni as nat, |j: int| if j < i + 1 { a0[j].push((fr_one(), (nc0 + j) as usize)) } else { a0[j] }));
        }
        i = i + 1;
    }
    proof {
        assert(lists(cs.at_inputs@) =~= finished_inputs(a0, nc0));
    }
}

/// Overwrite a domain vector with the raw powers of tau: `v[i] = tau^i`.
fn fill_tau_powers(powers_of_tau: &mut Vec<Fr>, tau: Fr)
    requires
        tau.wf(),
        all_wf(old(powers_of_tau)@),
    ensures
        final(powers_of_tau)@.len() == old(powers_of_tau)@.len(),
        all_wf(final(powers_of_tau)@),
        values(final(powers_of_tau)@) == tau_powers(tau@, old(powers_of_tau)@.len()),
{
    let mut current_tau_power = Fr::one();
    let mut i: usize = 0;
    while i < powers_of_tau.len()
        invariant
            0 <= i <= powers_of_tau@.len(),
            powers_of_tau@.len() == old(powers_of_tau)@.len(),
            tau.wf(),
            current_tau_power.wf(),
            current_tau_power@ == fr_pow(tau@, i as nat),
            all_wf(powers_of_tau@),
            forall|j: int| 0 <= j < i ==> (#[trigger] powers_of_tau@[j])@ == fr_pow(tau@, j as nat),
        decreases powers_of_tau@.len() - i,
    {
        powers_of_tau.set(i, current_tau_power);
        current_tau_power = fr_mul(current_tau_power, tau);
        i = i + 1;
    }
    proof {
        assert(values(powers_of_tau@) =~= tau_powers(tau@, old(powers_of_tau)@.len()));
    }
}

/// The H query from the raw powers of tau: `h[i] = [tau^i · coeff] G1` for
/// every power but the last.
fn h_query(g1: G1Affine, powers_of_tau: &Vec<Fr>, coeff: Fr) -> (h: Vec<G1Affine>)
    requires
        g1.wf(),
        coeff.wf(),
        all_wf(powers_of_tau@),
        powers_of_tau@.len() >= 1,
    ensures
        h@.len() == powers_of_tau@.len() - 1,
        forall|j: int|
            0 <= j < h@.len() ==> (#[trigger] h@[j])@ == g1_scalar_mul(
                g1@,
                (powers_of_tau@[j]@ * coeff@) % fr_modulus(),
            ) && h@[j].wf(),
{
    let mut h: Vec<G1Affine> = Vec::new();
    let mut i: usize = 0;
    while i < powers_of_tau.len() - 1
        invariant
            0 <= i <= powers_of_tau@.len() - 1,
            powers_of_tau@.len() >= 1,
            g1.wf(),
            coeff.wf(),
            all_wf(powers_of_tau@),
            h@.len() == i,
            forall|j: int|
                0 <= j < i ==> (#[trigger] h@[j])@ == g1_scalar_mul(
                    g1@,
                    (powers_of_tau@[j]@ * coeff@) % fr_modulus(),
                ) && h@[j].wf(),
        decreases powers_of_tau@.len() - 1 - i,
    {
        let exp = fr_mul(powers_of_tau[i], coeff);
        h.push(g1_mul(g1, exp));
        i = i + 1;
    }
    h
}

/// Whether some point of `v` is the point at infinity.
fn has_identity(v: &Vec<G1Affine>) -> (b: bool)
    ensures
        b == exists|j: int| 0 <= j < v@.len() && (#[trigger] v@[j]).spec_is_identity(),
{
    let mut i: usize = 0;
    while i < v.len()
        invariant
            0 <= i <= v@.len(),
            forall|j: int| 0 <= j < i ==> !(#[trigger] v@[j]).spec_is_identity(),
        decreases v@.len() - i,
    {
        if v[i].is_identity() {
            return true;
        }
        i = i + 1;
    }
    false
}

/// The evaluations of the aux group, as `eval` saw them, are those of the
/// assembly as it was handed to setup.
proof fn lemma_aux_evals(asm_init: KeypairAssembly, cs: KeypairAssembly, lag: Seq<nat>)
    requires
        asm_init.wf(),
        cs.wf(),
        cs.num_aux == asm_init.num_aux,
        lists(cs.at_aux@) == lists(asm_init.at_aux@),
        lists(cs.bt_aux@) == lists(asm_init.bt_aux@),
        lists(cs.ct_aux@) == lists(asm_init.ct_aux@),
    ensures
        forall|i: int| 0 <= i < asm_init.num_aux ==>
            #[trigger] group_evals(lag, cs.at_aux@, cs.bt_aux@, cs.ct_aux@)(i) == aux_evals(asm_init, lag, i),
{
    assert forall|i: int| 0 <= i < asm_init.num_aux implies
        #[trigger] group_evals(lag, cs.at_aux@, cs.bt_aux@, cs.ct_aux@)(i) == aux_evals(asm_init, lag, i) by {
        assert(lists(cs.at_aux@)[i] == cs.at_aux@[i]@);
        assert(lists(asm_init.at_aux@)[i] == asm_init.at_aux@[i]@);
        assert(lists(cs.bt_aux@)[i] == cs.bt_aux@[i]@);
        assert(lists(asm_init.bt_aux@)[i] == asm_init.bt_aux@[i]@);
        assert(lists(cs.ct_aux@)[i] == cs.ct_aux@[i]@);
        assert(lists(asm_init.ct_aux@)[i] == asm_init.ct_aux@[i]@);
    }
}

/// The evaluations of the input group, as `eval` saw them, are those of the
/// assembly as it was handed to setup, with the consistency constraints in.
proof fn lemma_input_evals(asm_init: KeypairAssembly, cs: KeypairAssembly, lag: Seq<nat>)
    requires
        asm_init.wf(),
        cs.wf(),
        cs.num_inputs == asm_init.num_inputs,
        lists(cs.at_inputs@) == finished_inputs(lists(asm_init.at_inputs@), asm_init.num_constraints as nat),
        lists(cs.bt_inputs@) == lists(asm_init.bt_inputs@),
        lists(cs.ct_inputs@) == lists(asm_init.ct_inputs@),
    ensures
        forall|i: int| 0 <= i < asm_init.num_inputs ==>
            #[trigger] group_evals(lag, cs.at_inputs@, cs.bt_inputs@, cs.ct_inputs@)(i) == input_evals(asm_init, lag, i),
{
    assert forall|i: int| 0 <= i < asm_init.num_inputs implies
        #[trigger] group_evals(lag, cs.at_inputs@, cs.bt_inputs@, cs.ct_inputs@)(i) == input_evals(asm_init, lag, i) by {
        assert(lists(cs.at_inputs@)[i] == cs.at_inputs@[i]@);
        assert(lists(cs.bt_inputs@)[i] == cs.bt_inputs@[i]@);
        assert(lists(asm_init.bt_inputs@)[i] == asm_init.bt_inputs@[i]@);
        assert(lists(cs.ct_inputs@)[i] == cs.ct_inputs@[i]@);
        assert(lists(asm_init.ct_inputs@)[i] == asm_init.ct_inputs@[i]@);
    }
}

/// Put the key together: the input queries first, then the aux ones; the IC
/// query is the inputs' `ext`, the L query the aux `ext`.
fn build_key(
    mut vk: VerifyingKey,
    h: Vec<G1Affine>,
    q_in: Queries,
    q_aux: Queries,
    num_inputs: usize,
) -> (key: GpuProvingKey)
    ensures
        key.num_inputs == num_inputs,
        key.h@ == h@,
        key.l@ == q_aux.ext@,
        key.vk.ic@ == q_in.ext@,
        key.a@ == q_in.a@ + q_aux.a@,
        key.b_g1@ == q_in.b_g1@ + q_aux.b_g1@,
        key.b_g2@ == q_in.b_g2@ + q_aux.b_g2@,
        key.vk.alpha_g1 == vk.alpha_g1,
        key.vk.beta_g1 == vk.beta_g1,
        key.vk.beta_g2 == vk.beta_g2,
        key.vk.gamma_g2 == vk.gamma_g2,
        key.vk.delta_g1 == vk.delta_g1,
        key.vk.delta_g2 == vk.delta_g2,
{
    let Queries { a: mut a, b_g1: mut b_g1, b_g2: mut b_g2, ext: ic } = q_in;
    let Queries { a: mut a_aux, b_g1: mut b_g1_aux, b_g2: mut b_g2_aux, ext: l } = q_aux;
    a.append(&mut a_aux);
    b_g1.append(&mut b_g1_aux);
    b_g2.append(&mut b_g2_aux);
    vk.ic = ic;
    GpuProvingKey { vk, h, l, a, b_g1, b_g2, num_inputs }
}

/// The key that `build_key` put together from the evaluated queries is the
/// one that setup promises.
proof fn lemma_key_matches(
    cs: KeypairAssembly,
    g1: G1Affine,
    g2: G2Affine,
    alpha: Fr,
    beta: Fr,
    gamma: Fr,
    delta: Fr,
    tau: Fr,
    q_in: Queries,
    q_aux: Queries,
    key: GpuProvingKey,
)
    requires
        cs.wf(),
        queries_match(
            q_in,
            cs.num_inputs as nat,
            g1@,
            g2@,
            |i: int| input_evals(cs, lagrange_at(cs, tau@), i),
            alpha@,
            beta@,
            fr_inverse(gamma@),
        ),
        queries_match(
            q_aux,
            cs.num_aux as nat,
            g1@,
            g2@,
            |i: int| aux_evals(cs, lagrange_at(cs, tau@), i),
            alpha@,
            beta@,
            fr_inverse(delta@),
        ),
        key.num_inputs == cs.num_inputs,
        key.h@.len() == domain_size(total_constraints(cs)) - 1,
        forall|j: int| 0 <= j < key.h@.len() ==> (#[trigger] key.h@[j])@ == h_entry(cs, g1@, delta@, tau@, j as nat) && key.h@[j].wf(),
        key.l@ == q_aux.ext@,
        key.vk.ic@ == q_in.ext@,
        key.a@ == q_in.a@ + q_aux.a@,
        key.b_g1@ == q_in.b_g1@ + q_aux.b_g1@,
        key.b_g2@ == q_in.b_g2@ + q_aux.b_g2@,
        key.vk.alpha_g1@ == g1_scalar_mul(g1@, alpha@) && key.vk.alpha_g1.wf(),
        key.vk.beta_g1@ == g1_scalar_mul(g1@, beta@) && key.vk.beta_g1.wf(),
        key.vk.beta_g2@ == g2_scalar_mul(g2@, beta@) && key.vk.beta_g2.wf(),
        key.vk.gamma_g2@ == g2_scalar_mul(g2@, gamma@) && key.vk.gamma_g2.wf(),
        key.vk.delta_g1@ == g1_scalar_mul(g1@, delta@) && key.vk.delta_g1.wf(),
        key.vk.delta_g2@ == g2_scalar_mul(g2@, delta@) && key.vk.delta_g2.wf(),
    ensures
        key_matches(cs, g1, g2, alpha, beta, gamma, delta, tau, key),
        key_wf(key),
{
    let ni = cs.num_inputs as int;
    let lag = lagrange_at(cs, tau@);
    assert forall|j: int| 0 <= j < key.a@.len() implies
        (#[trigger] key.a@[j])@ == query_g1(g1@, var_evals(cs, lag, j).0) && key.a@[j].wf() by {
        if j >= ni {
            assert(key.a@[j] == q_aux.a@[j - ni]);
        } else {
            assert(key.a@[j] == q_in.a@[j]);
        }
    }
    assert forall|j: int| 0 <= j < key.b_g1@.len() implies
        (#[trigger] key.b_g1@[j])@ == query_g1(g1@, var_evals(cs, lag, j).1) && key.b_g1@[j].wf() by {
        if j >= ni {
            assert(key.b_g1@[j] == q_aux.b_g1@[j - ni]);
        } else {
            assert(key.b_g1@[j] == q_in.b_g1@[j]);
        }
    }
    assert forall|j: int| 0 <= j < key.b_g2@.len() implies
        (#[trigger] key.b_g2@[j])@ == query_g2(g2@, var_evals(cs, lag, j).1) && key.b_g2@[j].wf() by {
        if j >= ni {
            assert(key.b_g2@[j] == q_aux.b_g2@[j - ni]);
        } else {
            assert(key.b_g2@[j] == q_in.b_g2@[j]);
        }
    }
}

/// An auxiliary variable in no constraint gets the point at infinity in the
/// L query.
proof fn lemma_unused_aux_at_infinity(
    cs: KeypairAssembly,
    q: Queries,
    g1: G1View,
    g2: G2View,
    alpha: nat,
    beta: nat,
    inv: nat,
    tau: nat,
)
    requires
        has_unused_aux(cs),
        queries_match(q, cs.num_aux as nat, g1, g2, |i: int| aux_evals(cs, lagrange_at(cs, tau), i), alpha, beta, inv),
    ensures
        exists|j: int| 0 <= j < q.ext@.len() && (#[trigger] q.ext@[j]).spec_is_identity(),
{
    let i = choose|i: int|
        0 <= i < cs.num_aux && #[trigger] cs.at_aux@[i]@.len() == 0 && cs.bt_aux@[i]@.len() == 0
            && cs.ct_aux@[i]@.len() == 0;
    assert(aux_evals(cs, lagrange_at(cs, tau), i) == (0nat, 0nat, 0nat));
    let r = fr_modulus() as int;
    assert(0 * (beta as int) == 0 && 0 * (alpha as int) == 0 && 0 * (inv as int) == 0) by (nonlinear_arith);
    assert(0int % r == 0) by {
        vstd::arithmetic::div_mod::lemma_small_mod(0, fr_modulus());
    }
    assert(ext_value(0, 0, 0, alpha, beta, inv) == 0);
    assert(q.ext@[i].spec_is_identity());
}

/// Create a dense CRS for a synthesized circuit from explicit toxic waste
/// (Wnaf-free; the A/B queries are kept unfiltered — see [`GpuProvingKey`]).
/// The input consistency constraints are added here.
pub fn generate_parameters(
    mut assembly: KeypairAssembly,
    g1: G1Affine,
    g2: G2Affine,
    alpha: Fr,
    beta: Fr,
    gamma: Fr,
    delta: Fr,
    tau: Fr,
) -> (r: Result<GpuProvingKey, Groth16Error>)
    requires
        assembly.wf(),
        assembly.num_constraints + assembly.num_inputs < usize::MAX,
        assembly.num_inputs + assembly.num_aux <= usize::MAX,
        g1.wf(),
        g2.wf(),
        alpha.wf(),
        beta.wf(),
        gamma.wf(),
        delta.wf(),
        tau.wf(),
    ensures
        setup_outcome(assembly, g1, g2, alpha, beta, gamma, delta, tau, r),
        domain_fits(total_constraints(assembly)) && gamma@ != 0 && delta@ != 0 && has_unused_aux(assembly)
            ==> r == Err::<GpuProvingKey, Groth16Error>(Groth16Error::UnconstrainedVariable),
{
    let ghost asm_init = assembly;
    enforce_input_constraints(&mut assembly);
    let ghost n = total_constraints(asm_init);
    let ghost lag = lagrange_at(asm_init, tau@);

    // Bases for blind evaluation of polynomials at tau.
    let mut zeros: Vec<Fr> = Vec::new();
    let mut k: usize = 0;
    while k < assembly.num_constraints
        invariant
            0 <= k <= assembly.num_constraints,
            zeros@.len() == k,
            all_wf(zeros@),
        decreases assembly.num_constraints - k,
    {
        zeros.push(Fr::zero());
        k = k + 1;
    }
    let mut powers_of_tau = match domain_from_coeffs(zeros) {
        Ok(v) => v,
        Err(_) => {
            return Err(Groth16Error::PolynomialDegreeTooLarge);
        },
    };
    let ghost m = domain_size(n);
    proof {
        lemma_domain_size_bound(n);
        lemma_log2_ceil_pow2(log2_ceil(n));
        assert forall|j: int| 0 <= j < powers_of_tau@.len() implies (#[trigger] powers_of_tau@[j]).wf() by {
            if j < n {
                assert(powers_of_tau@.subrange(0, n as int)[j] == powers_of_tau@[j]);
            }
        }
    }

    let gamma_inverse = match fr_invert(gamma) {
        Some(x) => x,
        None => {
            return Err(Groth16Error::UnexpectedIdentity);
        },
    };
    let delta_inverse = match fr_invert(delta) {
        Some(x) => x,
        None => {
            return Err(Groth16Error::UnexpectedIdentity);
        },
    };

    // Fill the raw powers of tau: powers_of_tau[i] = tau^i.
    fill_tau_powers(&mut powers_of_tau, tau);

    // H query: h[i] = g1^{(tau^i * t(tau)) / delta}, from the raw tau powers.
    let z = domain_z(&powers_of_tau, tau);
    let coeff = fr_mul(z, delta_inverse);
    let h = h_query(g1, &powers_of_tau, coeff);
    proof {
        assert forall|j: int| 0 <= j < h@.len() implies (#[trigger] h@[j])@ == h_entry(asm_init, g1@, delta@, tau@, j as nat) by {
            assert(values(powers_of_tau@)[j] == powers_of_tau@[j]@);
        }
    }

    // Inverse FFT to convert powers of tau to Lagrange coefficients.
    let powers_of_tau = domain_ifft(powers_of_tau);

    // Evaluate for inputs (ext = IC query, scaled by 1/gamma).
    let q_in = eval(
        g1,
        g2,
        &powers_of_tau,
        &assembly.at_inputs,
        &assembly.bt_inputs,
        &assembly.ct_inputs,
        gamma_inverse,
        alpha,
        beta,
    );
    // Evaluate for auxiliary variables (ext = L query, scaled by 1/delta).
    let q_aux = eval(
        g1,
        g2,
        &powers_of_tau,
        &assembly.at_aux,
        &assembly.bt_aux,
        &assembly.ct_aux,
        delta_inverse,
        alpha,
        beta,
    );
    proof {
        lemma_aux_evals(asm_init, assembly, lag);
        lemma_input_evals(asm_init, assembly, lag);
        let f_in = group_evals(lag, assembly.at_inputs@, assembly.bt_inputs@, assembly.ct_inputs@);
        let g_in = |i: int| input_evals(asm_init, lagrange_at(asm_init, tau@), i);
        let f_aux = group_evals(lag, assembly.at_aux@, assembly.bt_aux@, assembly.ct_aux@);
        let g_aux = |i: int| aux_evals(asm_init, lagrange_at(asm_init, tau@), i);
        lemma_queries_match_ext(q_in, asm_init.num_inputs as nat, g1@, g2@, f_in, g_in, alpha@, beta@, gamma_inverse@);
        lemma_queries_match_ext(q_aux, asm_init.num_aux as nat, g1@, g2@, f_aux, g_aux, alpha@, beta@, delta_inverse@);
    }

    // The L query must be fully dense (no unconstrained variables).
    if has_identity(&q_aux.ext) {
        proof {
            let j = choose|j: int| 0 <= j < q_aux.ext@.len() && (#[trigger] q_aux.ext@[j]).spec_is_identity();
            assert(l_entry(asm_init, g1@, alpha@, beta@, delta@, tau@, j) == g1_identity());
        }
        return Err(Groth16Error::UnconstrainedVariable);
    }
    proof {
        assert forall|i: int| 0 <= i < asm_init.num_aux implies
            !(#[trigger] l_entry(asm_init, g1@, alpha@, beta@, delta@, tau@, i) == g1_identity()) by {
            assert(!q_aux.ext@[i].spec_is_identity());
        }
        if has_unused_aux(asm_init) {
            lemma_unused_aux_at_infinity(asm_init, q_aux, g1@, g2@, alpha@, beta@, delta_inverse@, tau@);
        }
    }

    let vk = VerifyingKey {
        alpha_g1: g1_mul(g1, alpha),
        beta_g1: g1_mul(g1, beta),
        beta_g2: g2_mul(g2, beta),
        gamma_g2: g2_mul(g2, gamma),
        delta_g1: g1_mul(g1, delta),
        delta_g2: g2_mul(g2, delta),
        ic: Vec::new(),
    };
    let ghost (qi, qa) = (q_in, q_aux);
    let key = build_key(vk, h, q_in, q_aux, assembly.num_inputs);
    proof {
        lemma_key_matches(asm_init, g1, g2, alpha, beta, gamma, delta, tau, qi, qa, key);
    }
    Ok(key)
}

/// The parameters of a setup outcome, as bellman wants them: the key's
/// through [`GpuProvingKey::to_parameters`], or the same error.
pub fn parameters_of_setup(r: Result<GpuProvingKey, Groth16Error>) -> (p: Result<Parameters, Groth16Error>)
    ensures
        match r {
            Ok(key) => p matches Ok(q) && parameters_of(key, q),
            Err(e) => p == Err::<Parameters, Groth16Error>(e),
        },
{
    match r {
        Ok(key) => Ok(key.to_parameters()),
        Err(e) => Err(e),
    }
}

/// `queries_match` depends on the evaluations only through their values on
/// the group's variables.
proof fn lemma_queries_match_ext(
    q: Queries,
    n: nat,
    g1: G1View,
    g2: G2View,
    f: spec_fn(int) -> (nat, nat, nat),
    g: spec_fn(int) -> (nat, nat, nat),
    alpha: nat,
    beta: nat,
    inv: nat,
)
    requires
        queries_match(q, n, g1, g2, f, alpha, beta, inv),
        forall|i: int| 0 <= i < n ==> #[trigger] f(i) == g(i),
    ensures
        queries_match(q, n, g1, g2, g, alpha, beta, inv),
{
    assert forall|i: int| 0 <= i < n implies (#[trigger] q.a@[i])@ == query_g1(g1, g(i).0) by {
        assert(f(i) == g(i));
    }
    assert forall|i: int| 0 <= i < n implies (#[trigger] q.b_g1@[i])@ == query_g1(g1, g(i).1) by {
        assert(f(i) == g(i));
    }
    assert forall|i: int| 0 <= i < n implies (#[trigger] q.b_g2@[i])@ == query_g2(g2, g(i).1) by {
        assert(f(i) == g(i));
    }
    assert forall|i: int| 0 <= i < n implies (#[trigger] q.ext@[i])@ == g1_scalar_mul(
        g1,
        ext_value(g(i).0, g(i).1, g(i).2, alpha, beta, inv),
    ) by {
        assert(f(i) == g(i));
    }
    assert forall|i: int|
        0 <= i < n && ext_value(g(i).0, g(i).1, g(i).2, alpha, beta, inv) == 0 implies (#[trigger] q.ext@[i])@
            == g1_identity() by {
        assert(f(i) == g(i));
    }
}

/// Law: each query entry of the key follows its own evaluation at tau and
/// nothing else. For every variable `j` of the assignment `[inputs ‖ aux]`,
/// its B entries are `[B_j(tau)]g1` and `[B_j(tau)]g2` when `B_j(tau)` is
/// non-zero and the point at infinity when it is zero, whatever its A
/// evaluation; its A entry is `[A_j(tau)]g1`, or the point at infinity for
/// zero, whatever its B evaluation. So two variables with the same B
/// evaluation get the same B entries.
pub proof fn lemma_key_queries_follow_their_evaluations(
    cs: KeypairAssembly,
    g1: G1Affine,
    g2: G2Affine,
    alpha: Fr,
    beta: Fr,
    gamma: Fr,
    delta: Fr,
    tau: Fr,
    key: GpuProvingKey,
)
    requires
        setup_outcome(cs, g1, g2, alpha, beta, gamma, delta, tau, Ok(key)),
    ensures
        forall|j: int|
            0 <= j < cs.num_inputs + cs.num_aux ==> {
                let b = #[trigger] var_evals(cs, lagrange_at(cs, tau@), j).1;
                &&& b != 0 ==> key.b_g1@[j]@ == g1_scalar_mul(g1@, b) && key.b_g2@[j]@ == g2_scalar_mul(g2@, b)
                &&& b == 0 ==> key.b_g1@[j]@ == g1_identity() && key.b_g2@[j]@ == g2_identity()
            },
        forall|j: int|
            0 <= j < cs.num_inputs + cs.num_aux ==> {
                let a = #[trigger] var_evals(cs, lagrange_at(cs, tau@), j).0;
                &&& a != 0 ==> key.a@[j]@ == g1_scalar_mul(g1@, a)
                &&& a == 0 ==> key.a@[j]@ == g1_identity()
            },
        forall|j: int, k: int|
            0 <= j < cs.num_inputs + cs.num_aux && 0 <= k < cs.num_inputs + cs.num_aux
                && #[trigger] var_evals(cs, lagrange_at(cs, tau@), j).1 == #[trigger] var_evals(
                cs,
                lagrange_at(cs, tau@),
                k,
            ).1 ==> key.b_g1@[j]@ == key.b_g1@[k]@ && key.b_g2@[j]@ == key.b_g2@[k]@,
{
    let lag = lagrange_at(cs, tau@);
    assert forall|j: int| 0 <= j < cs.num_inputs + cs.num_aux implies {
        let b = #[trigger] var_evals(cs, lag, j).1;
        &&& b != 0 ==> key.b_g1@[j]@ == g1_scalar_mul(g1@, b) && key.b_g2@[j]@ == g2_scalar_mul(g2@, b)
        &&& b == 0 ==> key.b_g1@[j]@ == g1_identity() && key.b_g2@[j]@ == g2_identity()
    } by {
        assert(key.b_g1@[j]@ == query_g1(g1@, var_evals(cs, lag, j).1));
        assert(key.b_g2@[j]@ == query_g2(g2@, var_evals(cs, lag, j).1));
    }
    assert forall|j: int| 0 <= j < cs.num_inputs + cs.num_aux implies {
        let a = #[trigger] var_evals(cs, lag, j).0;
        &&& a != 0 ==> key.a@[j]@ == g1_scalar_mul(g1@, a)
        &&& a == 0 ==> key.a@[j]@ == g1_identity()
    } by {
        assert(key.a@[j]@ == query_g1(g1@, var_evals(cs, lag, j).0));
    }
    assert forall|j: int, k: int|
        0 <= j < cs.num_inputs + cs.num_aux && 0 <= k < cs.num_inputs + cs.num_aux
            && #[trigger] var_evals(cs, lag, j).1 == #[trigger] var_evals(cs, lag, k).1 implies key.b_g1@[j]@
        == key.b_g1@[k]@ && key.b_g2@[j]@ == key.b_g2@[k]@ by {
        assert(key.b_g1@[j]@ == query_g1(g1@, var_evals(cs, lag, j).1));
        assert(key.b_g1@[k]@ == query_g1(g1@, var_evals(cs, lag, k).1));
        assert(key.b_g2@[j]@ == query_g2(g2@, var_evals(cs, lag, j).1));
        assert(key.b_g2@[k]@ == query_g2(g2@, var_evals(cs, lag, k).1));
    }
}

} // verus!
