//! Setup and proving on small hand-built constraint systems, against values
//! computed directly with halo2curves.

use ff::{Field, PrimeField};
use group::{prime::PrimeCurveAffine, Curve, Group};
use halo2curves::bn256::{Fq as HFq, Fq2 as HFq2, Fr as HFr, G1Affine as HG1, G2Affine as HG2, G1 as HG1P, G2 as HG2P};
use rand::thread_rng;

use bellman_zorch::constraint::{Groth16Error, Index, LinearCombination};
use bellman_zorch::curve::{G1Affine, G2Affine};
use bellman_zorch::field::{all_zero, all_zero_from, Fq, Fq2, Fr};
use bellman_zorch::gpu::CoreOutputs;
use bellman_zorch::prove::{assemble_proof, eval, ProvingAssignment};
use bellman_zorch::setup::{
    copy_points, filter_identity, generate_parameters, parameters_of_setup, GpuProvingKey,
    KeypairAssembly, VerifyingKey,
};

fn fr(x: HFr) -> Fr {
    Fr { repr: x.to_repr().into() }
}
fn hfr(x: &Fr) -> HFr {
    HFr::from_repr(x.repr.into()).unwrap()
}
fn fq(x: &HFq) -> Fq {
    Fq { repr: x.to_repr().into() }
}
fn hfq(x: &Fq) -> HFq {
    HFq::from_repr(x.repr.into()).unwrap()
}
fn g1(p: &HG1) -> G1Affine {
    G1Affine { x: fq(&p.x), y: fq(&p.y) }
}
fn hg1(p: &G1Affine) -> HG1 {
    HG1 { x: hfq(&p.x), y: hfq(&p.y) }
}
fn g2(p: &HG2) -> G2Affine {
    G2Affine {
        x: Fq2 { c0: fq(&p.x.c0()), c1: fq(&p.x.c1()) },
        y: Fq2 { c0: fq(&p.y.c0()), c1: fq(&p.y.c1()) },
    }
}
fn hg2(p: &G2Affine) -> HG2 {
    HG2 {
        x: HFq2::new(hfq(&p.x.c0), hfq(&p.x.c1)),
        y: HFq2::new(hfq(&p.y.c0), hfq(&p.y.c1)),
    }
}
fn n(v: u64) -> Fr {
    fr(HFr::from(v))
}
/// Setup with toxic waste drawn as bellman's generator draws it.
fn random_key(cs: KeypairAssembly) -> Result<GpuProvingKey, Groth16Error> {
    let mut rng = thread_rng();
    let base1 = HG1P::random(&mut rng).to_affine();
    let base2 = HG2P::random(&mut rng).to_affine();
    let s: Vec<Fr> = (0..5).map(|_| fr(HFr::random(&mut rng))).collect();
    generate_parameters(cs, g1(&base1), g2(&base2), s[0], s[1], s[2], s[3], s[4])
}

fn random_g1() -> HG1 {
    HG1P::random(thread_rng()).to_affine()
}
fn random_g2() -> HG2 {
    HG2P::random(thread_rng()).to_affine()
}

#[test]
fn field_constants_and_predicates() {
    assert_eq!(hfr(&Fr::zero()), HFr::ZERO);
    assert_eq!(hfr(&Fr::one()), HFr::ONE);
    assert!(Fr::zero().is_zero());
    assert!(!Fr::one().is_zero());
    assert!(Fr::one().is_one());
    assert!(!n(257).is_one());
    assert!(!n(2).is_one());
    assert!(!Fr::zero().is_one());
    assert!(Fq::zero().is_zero());
    assert!(!fq(&HFq::ONE).is_zero());
    assert!(Fq2::zero().is_zero());
    assert!(!Fq2 { c0: Fq::zero(), c1: fq(&HFq::ONE) }.is_zero());
    let mut a = [0u8; 32];
    assert!(all_zero(&a));
    a[31] = 1;
    assert!(!all_zero(&a));
    assert!(all_zero_from(&a, 32));
    assert!(!all_zero_from(&a, 31));
    a[31] = 0;
    a[0] = 9;
    assert!(all_zero_from(&a, 1));
}

#[test]
fn eval_sums_coefficient_times_value() {
    let ins = vec![Fr::one(), n(5)];
    let aux = vec![n(7), n(11)];
    let lc = LinearCombination {
        terms: vec![
            (Index::Input(1), n(2)),
            (Index::Aux(0), n(3)),
            (Index::Aux(1), Fr::zero()),
            (Index::Input(0), Fr::one()),
            (Index::Input(1), Fr::one()),
        ],
    };
    // 2·5 + 3·7 + 0·11 + 1·1 + 1·5
    assert_eq!(hfr(&eval(&lc, &ins, &aux)), HFr::from(37u64));
    assert_eq!(hfr(&eval(&LinearCombination::zero(), &ins, &aux)), HFr::ZERO);
    // Coefficients are reduced modulo the field order: (-1)·7 + 7 = 0.
    let neg = LinearCombination { terms: vec![(Index::Aux(0), fr(-HFr::ONE)), (Index::Aux(0), Fr::one())] };
    assert_eq!(hfr(&eval(&neg, &ins, &aux)), HFr::ZERO);
    let big = LinearCombination { terms: vec![(Index::Aux(1), fr(-HFr::from(2u64)))] };
    assert_eq!(hfr(&eval(&big, &ins, &aux)), -HFr::from(22u64));
}

#[test]
fn proving_assignment_records_a_and_b() {
    let mut p = ProvingAssignment::new();
    assert_eq!(p.input_assignment.len(), 1);
    assert_eq!(hfr(&p.input_assignment[0]), HFr::ONE);
    let x = p.alloc_aux(n(3));
    let y = p.alloc_aux(n(9));
    let i = p.alloc_input(n(4));
    assert_eq!(x, Index::Aux(0));
    assert_eq!(y, Index::Aux(1));
    assert_eq!(i, Index::Input(1));
    // x · x = y
    p.enforce(&LinearCombination::term(x, Fr::one()), &LinearCombination::term(x, Fr::one()));
    // (x + 2·one) · i = anything
    let a = LinearCombination { terms: vec![(x, Fr::one()), (Index::Input(0), n(2))] };
    p.enforce(&a, &LinearCombination::term(i, Fr::one()));
    assert_eq!(p.a.len(), 2);
    assert_eq!(hfr(&p.a[0]), HFr::from(3u64));
    assert_eq!(hfr(&p.b[0]), HFr::from(3u64));
    assert_eq!(hfr(&p.a[1]), HFr::from(5u64));
    assert_eq!(hfr(&p.b[1]), HFr::from(4u64));

    let w = p.witness(8);
    assert_eq!(w.z.len(), 4);
    assert_eq!(hfr(&w.z[0]), HFr::ONE);
    assert_eq!(hfr(&w.z[1]), HFr::from(4u64));
    assert_eq!(hfr(&w.z[2]), HFr::from(3u64));
    assert_eq!(hfr(&w.z[3]), HFr::from(9u64));
    let az: Vec<HFr> = w.az.iter().map(hfr).collect();
    let bz: Vec<HFr> = w.bz.iter().map(hfr).collect();
    let f = |v: u64| HFr::from(v);
    assert_eq!(az, vec![f(3), f(5), f(1), f(4), f(0), f(0), f(0), f(0)]);
    assert_eq!(bz, vec![f(3), f(4), f(0), f(0), f(0), f(0), f(0), f(0)]);
}

#[test]
fn witness_cuts_to_a_short_domain() {
    let mut p = ProvingAssignment::new();
    let x = p.alloc_aux(n(6));
    p.enforce(&LinearCombination::term(x, Fr::one()), &LinearCombination::term(x, n(2)));
    let w = p.witness(1);
    assert_eq!(w.az.len(), 1);
    assert_eq!(w.bz.len(), 1);
    assert_eq!(hfr(&w.az[0]), HFr::from(6u64));
    assert_eq!(hfr(&w.bz[0]), HFr::from(12u64));
}

#[test]
fn keypair_assembly_records_terms_per_variable() {
    let mut cs = KeypairAssembly::new();
    assert_eq!((cs.num_inputs, cs.num_aux, cs.num_constraints), (1, 0, 0));
    let x = cs.alloc_aux();
    let y = cs.alloc_aux();
    let i = cs.alloc_input();
    assert_eq!((x, y, i), (Index::Aux(0), Index::Aux(1), Index::Input(1)));
    let a = LinearCombination { terms: vec![(x, n(2)), (Index::Input(0), n(3))] };
    cs.enforce(&a, &LinearCombination::term(x, n(5)), &LinearCombination::term(y, n(7)));
    cs.enforce(&LinearCombination::term(y, n(11)), &LinearCombination::zero(), &LinearCombination::term(i, n(13)));
    assert_eq!(cs.num_constraints, 2);
    let entry = |v: &Vec<(Fr, usize)>| v.iter().map(|(c, j)| (hfr(c), *j)).collect::<Vec<_>>();
    let f = |v: u64| HFr::from(v);
    assert_eq!(entry(&cs.at_aux[0]), vec![(f(2), 0)]);
    assert_eq!(entry(&cs.at_inputs[0]), vec![(f(3), 0)]);
    assert_eq!(entry(&cs.bt_aux[0]), vec![(f(5), 0)]);
    assert_eq!(entry(&cs.ct_aux[1]), vec![(f(7), 0)]);
    assert_eq!(entry(&cs.at_aux[1]), vec![(f(11), 1)]);
    assert_eq!(entry(&cs.ct_inputs[1]), vec![(f(13), 1)]);
    assert!(cs.bt_aux[1].is_empty());
    assert!(cs.bt_inputs[1].is_empty());
}

/// `x · x = y` with the input "one" only: two constraints once the input
/// consistency constraint is in, so the domain is `{1, -1}`.
fn square_circuit() -> (KeypairAssembly, Index, Index) {
    let mut cs = KeypairAssembly::new();
    let x = cs.alloc_aux();
    let y = cs.alloc_aux();
    cs.enforce(
        &LinearCombination::term(x, Fr::one()),
        &LinearCombination::term(x, Fr::one()),
        &LinearCombination::term(y, Fr::one()),
    );
    (cs, x, y)
}

#[test]
fn setup_of_a_square_matches_the_qap_at_tau() {
    let (cs, _, _) = square_circuit();
    let (g, h) = (random_g1(), random_g2());
    let (alpha, beta, gamma, delta, tau) =
        (HFr::from(3u64), HFr::from(5u64), HFr::from(7u64), HFr::from(11u64), HFr::from(13u64));
    let gk = generate_parameters(cs, g1(&g), g2(&h), fr(alpha), fr(beta), fr(gamma), fr(delta), fr(tau)).unwrap();

    let mul1 = |e: HFr| g1(&(g * e).to_affine());
    let mul2 = |e: HFr| g2(&(h * e).to_affine());
    let same1 = |p: &G1Affine, q: &G1Affine| p.x.repr == q.x.repr && p.y.repr == q.y.repr;
    let same2 = |p: &G2Affine, q: &G2Affine| hg2(p) == hg2(q);

    // Lagrange basis of {1, -1} at tau.
    let half = HFr::from(2u64).invert().unwrap();
    let l0 = (HFr::ONE + tau) * half;
    let l1 = (HFr::ONE - tau) * half;
    let gi = gamma.invert().unwrap();
    let di = delta.invert().unwrap();

    assert!(same1(&gk.vk.alpha_g1, &mul1(alpha)));
    assert!(same1(&gk.vk.beta_g1, &mul1(beta)));
    assert!(same2(&gk.vk.beta_g2, &mul2(beta)));
    assert!(same2(&gk.vk.gamma_g2, &mul2(gamma)));
    assert!(same1(&gk.vk.delta_g1, &mul1(delta)));
    assert!(same2(&gk.vk.delta_g2, &mul2(delta)));

    // H: one entry, [Z(tau) / delta] with Z(tau) = tau^2 - 1.
    assert_eq!(gk.h.len(), 1);
    assert!(same1(&gk.h[0], &mul1((tau * tau - HFr::ONE) * di)));

    // The input "one" occurs only in A of its consistency constraint (number 1).
    assert_eq!(gk.num_inputs, 1);
    assert!(same1(&gk.a[0], &mul1(l1)));
    assert!(bool::from(hg1(&gk.b_g1[0]).is_identity()));
    assert!(bool::from(hg2(&gk.b_g2[0]).is_identity()));
    assert_eq!(gk.vk.ic.len(), 1);
    assert!(same1(&gk.vk.ic[0], &mul1(beta * l1 * gi)));

    // x: A and B of constraint 0; y: C of constraint 0.
    assert!(same1(&gk.a[1], &mul1(l0)));
    assert!(same1(&gk.b_g1[1], &mul1(l0)));
    assert!(same2(&gk.b_g2[1], &mul2(l0)));
    assert!(bool::from(hg1(&gk.a[2]).is_identity()));
    assert_eq!(gk.l.len(), 2);
    assert!(same1(&gk.l[0], &mul1((beta * l0 + alpha * l0) * di)));
    assert!(same1(&gk.l[1], &mul1(l0 * di)));
}

#[test]
fn setup_refuses_zero_gamma_or_delta() {
    let (g, h) = (g1(&random_g1()), g2(&random_g2()));
    let (cs, _, _) = square_circuit();
    let r = generate_parameters(cs, g, h, n(3), n(5), Fr::zero(), n(11), n(13));
    assert_eq!(r.err(), Some(Groth16Error::UnexpectedIdentity));
    let (cs, _, _) = square_circuit();
    let r = generate_parameters(cs, g, h, n(3), n(5), n(7), Fr::zero(), n(13));
    assert_eq!(r.err(), Some(Groth16Error::UnexpectedIdentity));
}

#[test]
fn setup_refuses_an_unconstrained_variable() {
    let (mut cs, _, _) = square_circuit();
    let _free = cs.alloc_aux();
    let r = random_key(cs);
    assert_eq!(r.err(), Some(Groth16Error::UnconstrainedVariable));
}

#[test]
fn filtering_drops_only_points_at_infinity() {
    let p = g1(&random_g1());
    let q = g1(&random_g1());
    let id = G1Affine::identity();
    let v = vec![id, p, id, id, q, id];
    let f = filter_identity(&v);
    assert_eq!(f.len(), 2);
    assert_eq!(hg1(&f[0]), hg1(&p));
    assert_eq!(hg1(&f[1]), hg1(&q));
    assert!(filter_identity(&vec![id, id]).is_empty());
    let w = vec![g2(&random_g2()), G2Affine::identity()];
    let fw = filter_identity(&w);
    assert_eq!(fw.len(), 1);
    assert_eq!(hg2(&fw[0]), hg2(&w[0]));
    let c = copy_points(&v);
    assert_eq!(c.len(), v.len());
    assert_eq!(hg1(&c[4]), hg1(&q));
}

fn some_vk() -> VerifyingKey {
    VerifyingKey {
        alpha_g1: g1(&random_g1()),
        beta_g1: g1(&random_g1()),
        beta_g2: g2(&random_g2()),
        gamma_g2: g2(&random_g2()),
        delta_g1: g1(&random_g1()),
        delta_g2: g2(&random_g2()),
        ic: vec![g1(&random_g1())],
    }
}

fn some_outputs() -> CoreOutputs {
    CoreOutputs {
        msm_a: g1(&random_g1()),
        msm_b_g1: g1(&random_g1()),
        msm_b_g2: g2(&random_g2()),
        msm_l: g1(&random_g1()),
        msm_h: g1(&random_g1()),
    }
}

#[test]
fn assembly_follows_the_groth16_formulas() {
    let vk = some_vk();
    let out = some_outputs();
    let r = HFr::random(thread_rng());
    let s = HFr::random(thread_rng());
    let p = assemble_proof(&vk, &out, fr(r), fr(s)).unwrap();

    let a = hg1(&vk.delta_g1) * r + hg1(&vk.alpha_g1) + hg1(&out.msm_a);
    let b = hg2(&vk.delta_g2) * s + hg2(&vk.beta_g2) + hg2(&out.msm_b_g2);
    let c = hg1(&vk.delta_g1) * (r * s)
        + hg1(&vk.alpha_g1) * s
        + hg1(&vk.beta_g1) * r
        + hg1(&out.msm_a) * s
        + hg1(&out.msm_b_g1) * r
        + hg1(&out.msm_h)
        + hg1(&out.msm_l);
    assert_eq!(hg1(&p.a), a.to_affine());
    assert_eq!(hg2(&p.b), b.to_affine());
    assert_eq!(hg1(&p.c), c.to_affine());
}

#[test]
fn assembly_refuses_delta_at_infinity() {
    let out = some_outputs();
    let mut vk = some_vk();
    vk.delta_g1 = G1Affine::identity();
    assert_eq!(assemble_proof(&vk, &out, n(1), n(2)).err(), Some(Groth16Error::UnexpectedIdentity));
    let mut vk = some_vk();
    vk.delta_g2 = G2Affine::identity();
    assert_eq!(assemble_proof(&vk, &out, n(1), n(2)).err(), Some(Groth16Error::UnexpectedIdentity));
}

#[test]
fn key_conversion_keeps_the_verifying_key() {
    let (cs, _, _) = square_circuit();
    let gk = random_key(cs).unwrap();
    let p = gk.to_parameters();
    assert_eq!(hg1(&p.vk.alpha_g1), hg1(&gk.vk.alpha_g1));
    assert_eq!(hg2(&p.vk.delta_g2), hg2(&gk.vk.delta_g2));
    assert_eq!(p.vk.ic.len(), gk.vk.ic.len());
    assert_eq!(hg1(&p.vk.ic[0]), hg1(&gk.vk.ic[0]));
    // A: the input "one" and x are non-zero, y is at infinity.
    assert_eq!(p.a.len(), 2);
    assert_eq!(p.b_g1.len(), 1);
    assert_eq!(p.b_g2.len(), 1);
    let d = gk.vk.duplicate();
    assert_eq!(hg1(&d.beta_g1), hg1(&gk.vk.beta_g1));
    assert_eq!(hg2(&d.gamma_g2), hg2(&gk.vk.gamma_g2));
}

/// Row `j` of a matrix given per variable, applied to an assignment.
fn row(lists_in: &[Vec<(Fr, usize)>], lists_aux: &[Vec<(Fr, usize)>], ins: &[Fr], aux: &[Fr], j: usize) -> HFr {
    let mut acc = HFr::ZERO;
    for (l, v) in lists_in.iter().zip(ins).chain(lists_aux.iter().zip(aux)) {
        for (c, k) in l {
            if *k == j {
                acc += hfr(c) * hfr(v);
            }
        }
    }
    acc
}

#[test]
fn both_syntheses_of_a_circuit_agree_row_by_row() {
    // (x + 3·one) · (2·y + i) = z, then y · y = x, over both syntheses.
    let mut cs = KeypairAssembly::new();
    let mut p = ProvingAssignment::new();
    let (x, y, z, i) = (n(4), n(6), n(4 + 3) , n(9));
    let vx = cs.alloc_aux();
    assert_eq!(p.alloc_aux(x), vx);
    let vy = cs.alloc_aux();
    assert_eq!(p.alloc_aux(y), vy);
    let vi = cs.alloc_input();
    assert_eq!(p.alloc_input(i), vi);
    let vz = cs.alloc_aux();
    assert_eq!(p.alloc_aux(z), vz);
    let a0 = LinearCombination { terms: vec![(vx, Fr::one()), (Index::Input(0), n(3))] };
    let b0 = LinearCombination { terms: vec![(vy, n(2)), (vi, Fr::one())] };
    let c0 = LinearCombination::term(vz, Fr::one());
    cs.enforce(&a0, &b0, &c0);
    p.enforce(&a0, &b0);
    let a1 = LinearCombination::term(vy, Fr::one());
    cs.enforce(&a1, &a1, &LinearCombination::term(vx, Fr::one()));
    p.enforce(&a1, &a1);

    for j in 0..2 {
        let ra = row(&cs.at_inputs, &cs.at_aux, &p.input_assignment, &p.aux_assignment, j);
        let rb = row(&cs.bt_inputs, &cs.bt_aux, &p.input_assignment, &p.aux_assignment, j);
        assert_eq!(hfr(&p.a[j]), ra);
        assert_eq!(hfr(&p.b[j]), rb);
    }
    assert_eq!(hfr(&p.a[0]), HFr::from(7u64));
    assert_eq!(hfr(&p.b[0]), HFr::from(21u64));

    // Once the input constraints are in, the core's A·z rows are setup's rows
    // with each input carrying its own constraint.
    let ins = p.input_assignment.clone();
    let aux = p.aux_assignment.clone();
    let nc = cs.num_constraints;
    let mut at_in = cs.at_inputs.clone();
    for (k, l) in at_in.iter_mut().enumerate() {
        l.push((Fr::one(), nc + k));
    }
    let w = p.witness(8);
    for j in 0..4 {
        assert_eq!(hfr(&w.az[j]), row(&at_in, &cs.at_aux, &ins, &aux, j));
        assert_eq!(hfr(&w.bz[j]), row(&cs.bt_inputs, &cs.bt_aux, &ins, &aux, j));
    }
    assert!(w.az[4..].iter().all(|v| hfr(v) == HFr::ZERO));
}

#[test]
fn eval_skips_zero_terms_even_on_unallocated_variables() {
    let lc = LinearCombination {
        terms: vec![(Index::Input(0), n(2)), (Index::Aux(1), Fr::one()), (Index::Aux(9), Fr::zero())],
    };
    assert_eq!(hfr(&eval(&lc, &vec![n(3)], &vec![n(5), n(7)])), HFr::from(13u64));
    let mut p = ProvingAssignment::new();
    p.alloc_aux(n(4));
    p.enforce(&LinearCombination { terms: vec![(Index::Aux(0), n(2)), (Index::Aux(5), Fr::zero())] }, &LinearCombination::zero());
    assert_eq!(hfr(&p.a[0]), HFr::from(8u64));
}

#[test]
fn setup_with_an_unused_variable_fails_whatever_the_draw() {
    for _ in 0..3 {
        let (mut cs, _, _) = square_circuit();
        cs.alloc_aux();
        assert!(random_key(cs).is_err());
    }
    let (g, h) = (g1(&random_g1()), g2(&random_g2()));
    let (mut cs, _, _) = square_circuit();
    cs.alloc_aux();
    let r = generate_parameters(cs, g, h, n(3), n(5), n(7), n(11), n(13));
    assert_eq!(r.err(), Some(Groth16Error::UnconstrainedVariable));
}

#[test]
fn parameters_of_a_setup_outcome_are_its_filtered_key_or_its_error() {
    let (cs, _, _) = square_circuit();
    let (g, h) = (g1(&random_g1()), g2(&random_g2()));
    let gk = generate_parameters(cs, g, h, n(3), n(5), n(7), n(11), n(13)).unwrap();
    let (cs, _, _) = square_circuit();
    let p = parameters_of_setup(generate_parameters(cs, g, h, n(3), n(5), n(7), n(11), n(13))).unwrap();
    let q = gk.to_parameters();
    assert_eq!(p.a.len(), q.a.len());
    assert!(p.a.iter().zip(&q.a).all(|(x, y)| hg1(x) == hg1(y)));
    assert!(p.b_g2.iter().zip(&q.b_g2).all(|(x, y)| hg2(x) == hg2(y)));
    assert_eq!(hg1(&p.h[0]), hg1(&gk.h[0]));
    let (cs, _, _) = square_circuit();
    let e = parameters_of_setup(generate_parameters(cs, g, h, n(3), n(5), Fr::zero(), n(11), n(13)));
    assert_eq!(e.err(), Some(Groth16Error::UnexpectedIdentity));
}
