//! MiMC Groth16 over BN256, end to end: setup with the library, proofs with
//! bellman's prover and with the library's witness synthesis and final
//! assembly (the fused core's five outputs computed on the CPU here), and
//! verification with bellman's verifier. The library synthesizes the circuit
//! from its steps; bellman's prover runs the same circuit as a `Circuit`.

use std::sync::Arc;

use ff::{Field, PrimeField};
use group::{prime::PrimeCurveAffine, Curve, Group};
use halo2curves::bn256::{
    Bn256, Fq as HFq, Fq2 as HFq2, Fr as HFr, G1Affine as HG1, G2Affine as HG2, G1 as HG1P, G2 as HG2P,
};
use halo2curves::msm::msm_best;
use rand::thread_rng;

use bellman::domain::{EvaluationDomain, Scalar};
use bellman::groth16::{self, create_random_proof, prepare_verifying_key, verify_proof};
use bellman::multicore::Worker;
use bellman::{Circuit, ConstraintSystem, SynthesisError};

use bellman_zorch::constraint::{Index, LinearCombination};
use bellman_zorch::curve::{G1Affine, G2Affine};
use bellman_zorch::field::{Fq, Fq2, Fr};
use bellman_zorch::gpu::{core_outputs_decodable, decode_core_outputs, g1_to_bytes, g2_to_bytes};
use bellman_zorch::prove::{assemble_proof, Proof, ProvingAssignment};
use bellman_zorch::constraint::Groth16Error;
use bellman_zorch::setup::{
    generate_parameters, parameters_of_setup, GpuProvingKey, KeypairAssembly, Parameters, VerifyingKey,
};

const MIMC_ROUNDS: usize = 322;

/// Setup with toxic waste drawn as bellman's generator draws it.
fn random_key(cs: KeypairAssembly) -> Result<GpuProvingKey, Groth16Error> {
    let mut rng = thread_rng();
    let base1 = HG1P::random(&mut rng).to_affine();
    let base2 = HG2P::random(&mut rng).to_affine();
    let s: Vec<Fr> = (0..5).map(|_| fr(HFr::random(&mut rng))).collect();
    generate_parameters(cs, g1(&base1), g2(&base2), s[0], s[1], s[2], s[3], s[4])
}

// --- conversions between halo2curves values and the library's ---

fn fr(x: HFr) -> Fr {
    Fr { repr: x.to_repr().into() }
}
fn hfr(x: &Fr) -> HFr {
    HFr::from_repr(x.repr.into()).unwrap()
}
fn fq(x: &HFq) -> Fq {
    Fq { repr: x.to_repr().into() }
}
fn hfq(x: &Fq) -> HFq {
    HFq::from_repr(x.repr.into()).unwrap()
}
fn fq2(x: &HFq2) -> Fq2 {
    Fq2 { c0: fq(&x.c0()), c1: fq(&x.c1()) }
}
fn hfq2(x: &Fq2) -> HFq2 {
    HFq2::new(hfq(&x.c0), hfq(&x.c1))
}
fn g1(p: &HG1) -> G1Affine {
    G1Affine { x: fq(&p.x), y: fq(&p.y) }
}
fn hg1(p: &G1Affine) -> HG1 {
    HG1 { x: hfq(&p.x), y: hfq(&p.y) }
}
fn g2(p: &HG2) -> G2Affine {
    G2Affine { x: fq2(&p.x), y: fq2(&p.y) }
}
fn hg2(p: &G2Affine) -> HG2 {
    HG2 { x: hfq2(&p.x), y: hfq2(&p.y) }
}

fn bellman_vk(vk: &VerifyingKey) -> groth16::VerifyingKey<Bn256> {
    groth16::VerifyingKey {
        alpha_g1: hg1(&vk.alpha_g1),
        beta_g1: hg1(&vk.beta_g1),
        beta_g2: hg2(&vk.beta_g2),
        gamma_g2: hg2(&vk.gamma_g2),
        delta_g1: hg1(&vk.delta_g1),
        delta_g2: hg2(&vk.delta_g2),
        ic: vk.ic.iter().map(hg1).collect(),
    }
}

fn bellman_params(p: &Parameters) -> groth16::Parameters<Bn256> {
    groth16::Parameters {
        vk: bellman_vk(&p.vk),
        h: Arc::new(p.h.iter().map(hg1).collect()),
        l: Arc::new(p.l.iter().map(hg1).collect()),
        a: Arc::new(p.a.iter().map(hg1).collect()),
        b_g1: Arc::new(p.b_g1.iter().map(hg1).collect()),
        b_g2: Arc::new(p.b_g2.iter().map(hg2).collect()),
    }
}

fn bellman_proof(p: &Proof) -> groth16::Proof<Bn256> {
    groth16::Proof { a: hg1(&p.a), b: hg2(&p.b), c: hg1(&p.c) }
}

fn proof_bytes(p: &groth16::Proof<Bn256>) -> Vec<u8> {
    let mut v = vec![];
    p.write(&mut v).unwrap();
    v
}

// --- circuits as the library synthesizes them ---

/// One step of synthesis, in the order the circuit makes it.
enum Step {
    Aux(Option<HFr>),
    Input(Option<HFr>),
    Enforce(Vec<(Index, HFr)>, Vec<(Index, HFr)>, Vec<(Index, HFr)>),
}

fn combination(terms: &[(Index, HFr)]) -> LinearCombination {
    LinearCombination { terms: terms.iter().map(|(v, c)| (*v, fr(*c))).collect() }
}

fn synthesize_setup(steps: &[Step]) -> KeypairAssembly {
    let mut cs = KeypairAssembly::new();
    for step in steps {
        match step {
            Step::Aux(_) => {
                cs.alloc_aux();
            }
            Step::Input(_) => {
                cs.alloc_input();
            }
            Step::Enforce(a, b, c) => cs.enforce(&combination(a), &combination(b), &combination(c)),
        }
    }
    cs
}

fn synthesize_prover(steps: &[Step]) -> ProvingAssignment {
    let mut p = ProvingAssignment::new();
    for step in steps {
        match step {
            Step::Aux(v) => {
                p.alloc_aux(fr(v.unwrap()));
            }
            Step::Input(v) => {
                p.alloc_input(fr(v.unwrap()));
            }
            Step::Enforce(a, b, _) => p.enforce(&combination(a), &combination(b)),
        }
    }
    p
}

/// The steps of the MiMC circuit below, variable by variable and term by
/// term as bellman's synthesis sees them.
fn mimc_steps(xl: Option<HFr>, xr: Option<HFr>, constants: &[HFr]) -> Vec<Step> {
    let one = Index::Input(0);
    let mut steps = vec![Step::Aux(xl), Step::Aux(xr)];
    let (mut num_aux, mut num_inputs) = (2, 1);
    let (mut xl_var, mut xr_var) = (Index::Aux(0), Index::Aux(1));
    let (mut xl_value, mut xr_value) = (xl, xr);
    for (i, c) in constants.iter().enumerate() {
        let tmp_value = xl_value.map(|e| (e + c).square());
        let tmp = Index::Aux(num_aux);
        num_aux += 1;
        steps.push(Step::Aux(tmp_value));
        steps.push(Step::Enforce(
            vec![(xl_var, HFr::ONE), (one, *c)],
            vec![(xl_var, HFr::ONE), (one, *c)],
            vec![(tmp, HFr::ONE)],
        ));
        let new_value = xl_value.map(|e| (e + c) * tmp_value.unwrap() + xr_value.unwrap());
        let new_xl = if i == constants.len() - 1 {
            num_inputs += 1;
            steps.push(Step::Input(new_value));
            Index::Input(num_inputs - 1)
        } else {
            num_aux += 1;
            steps.push(Step::Aux(new_value));
            Index::Aux(num_aux - 1)
        };
        steps.push(Step::Enforce(
            vec![(tmp, HFr::ONE)],
            vec![(xl_var, HFr::ONE), (one, *c)],
            vec![(new_xl, HFr::ONE), (xr_var, -HFr::ONE)],
        ));
        xr_var = xl_var;
        xr_value = xl_value;
        xl_var = new_xl;
        xl_value = new_value;
    }
    steps
}

// --- the MiMC circuit (LongsightF322p3: xL, xR := xR + (xL + Ci)^3, xL) ---

fn mimc(mut xl: HFr, mut xr: HFr, constants: &[HFr]) -> HFr {
    for c in constants {
        let t = xl + c;
        let new_xl = t.square() * t + xr;
        xr = xl;
        xl = new_xl;
    }
    xl
}

struct MiMCDemo<'a> {
    xl: Option<HFr>,
    xr: Option<HFr>,
    constants: &'a [HFr],
}

impl<'a> Circuit<HFr> for MiMCDemo<'a> {
    fn synthesize<CS: ConstraintSystem<HFr>>(self, cs: &mut CS) -> Result<(), SynthesisError> {
        let rounds = self.constants.len();
        let mut xl_value = self.xl;
        let mut xl = cs.alloc(|| "preimage xl", || xl_value.ok_or(SynthesisError::AssignmentMissing))?;
        let mut xr_value = self.xr;
        let mut xr = cs.alloc(|| "preimage xr", || xr_value.ok_or(SynthesisError::AssignmentMissing))?;

        for i in 0..rounds {
            let cs = &mut cs.namespace(|| format!("round {}", i));

            // tmp = (xL + Ci)^2
            let tmp_value = xl_value.map(|e| (e + self.constants[i]).square());
            let tmp = cs.alloc(|| "tmp", || tmp_value.ok_or(SynthesisError::AssignmentMissing))?;
            cs.enforce(
                || "tmp = (xL + Ci)^2",
                |lc| lc + xl + (self.constants[i], CS::one()),
                |lc| lc + xl + (self.constants[i], CS::one()),
                |lc| lc + tmp,
            );

            // new_xL - xR = tmp * (xL + Ci)
            let new_xl_value =
                xl_value.map(|e| (e + self.constants[i]) * tmp_value.unwrap() + xr_value.unwrap());
            let new_xl = if i == rounds - 1 {
                cs.alloc_input(|| "image", || new_xl_value.ok_or(SynthesisError::AssignmentMissing))?
            } else {
                cs.alloc(|| "new_xl", || new_xl_value.ok_or(SynthesisError::AssignmentMissing))?
            };
            cs.enforce(
                || "new_xL = xR + (xL + Ci)^3",
                |lc| lc + tmp,
                |lc| lc + xl + (self.constants[i], CS::one()),
                |lc| lc + new_xl - xr,
            );

            xr = xl;
            xr_value = xl_value;
            xl = new_xl;
            xl_value = new_xl_value;
        }
        Ok(())
    }
}

// --- the fused core's computation, on the CPU ---

/// The five outputs of the core in wire form: `A·z`, `B·z` in G1 and G2, the
/// L query against the aux assignment, and the h polynomial against H.
fn core_on_cpu(gk: &GpuProvingKey, z: &[Fr], az: &[Fr], bz: &[Fr]) -> Vec<Vec<u8>> {
    let z: Vec<HFr> = z.iter().map(hfr).collect();
    let a: Vec<HG1> = gk.a.iter().map(hg1).collect();
    let b1: Vec<HG1> = gk.b_g1.iter().map(hg1).collect();
    let b2: Vec<HG2> = gk.b_g2.iter().map(hg2).collect();
    let l: Vec<HG1> = gk.l.iter().map(hg1).collect();
    let h: Vec<HG1> = gk.h.iter().map(hg1).collect();

    let worker = Worker::new();
    let az: Vec<HFr> = az.iter().map(hfr).collect();
    let bz: Vec<HFr> = bz.iter().map(hfr).collect();
    let cz: Vec<Scalar<HFr>> = az.iter().zip(&bz).map(|(x, y)| Scalar(*x * y)).collect();
    let mut da = EvaluationDomain::from_coeffs(az.into_iter().map(Scalar).collect()).unwrap();
    let mut db = EvaluationDomain::from_coeffs(bz.into_iter().map(Scalar).collect()).unwrap();
    let mut dc = EvaluationDomain::from_coeffs(cz).unwrap();
    da.ifft(&worker);
    da.coset_fft(&worker);
    db.ifft(&worker);
    db.coset_fft(&worker);
    dc.ifft(&worker);
    dc.coset_fft(&worker);
    da.mul_assign(&worker, &db);
    da.sub_assign(&worker, &dc);
    da.divide_by_z_on_coset(&worker);
    da.icoset_fft(&worker);
    let mut hc: Vec<HFr> = da.into_coeffs().into_iter().map(|s| s.0).collect();
    hc.truncate(hc.len() - 1);

    let ni = gk.num_inputs;
    let outs = [
        g1(&msm_best(&z, &a).to_affine()),
        g1(&msm_best(&z, &b1).to_affine()),
        g1(&msm_best(&z[ni..], &l).to_affine()),
        g1(&msm_best(&hc, &h).to_affine()),
    ];
    let b2_out = g2(&msm_best(&z, &b2).to_affine());
    vec![
        g1_to_bytes(&outs[0]).to_vec(),
        g1_to_bytes(&outs[1]).to_vec(),
        g2_to_bytes(&b2_out).to_vec(),
        g1_to_bytes(&outs[2]).to_vec(),
        g1_to_bytes(&outs[3]).to_vec(),
    ]
}

/// A proof through the library: witness synthesis, the core's outputs, and
/// the final assembly.
fn library_proof(steps: &[Step], gk: &GpuProvingKey, r: HFr, s: HFr) -> Proof {
    let n = gk.h.len() + 1;
    let w = synthesize_prover(steps).witness(n);
    assert_eq!(w.z.len(), gk.a.len());
    let outs = core_on_cpu(gk, &w.z, &w.az, &w.bz);
    assert!(core_outputs_decodable(&outs));
    let out = decode_core_outputs(&outs);
    assemble_proof(&gk.vk, &out, fr(r), fr(s)).unwrap()
}

#[test]
fn mimc_cpu_groth16_over_bn256_proves_and_verifies() {
    let mut rng = thread_rng();

    let constants = (0..MIMC_ROUNDS).map(|_| HFr::random(&mut rng)).collect::<Vec<_>>();

    // Trusted setup over BN256 for the (witness-free) circuit shape.
    let params = {
        let cs = synthesize_setup(&mimc_steps(None, None, &constants));
        bellman_params(&parameters_of_setup(random_key(cs)).unwrap())
    };
    let pvk = prepare_verifying_key(&params.vk);

    // Prove knowledge of a MiMC preimage of `image`.
    let xl = HFr::random(&mut rng);
    let xr = HFr::random(&mut rng);
    let image = mimc(xl, xr, &constants);

    let c = MiMCDemo { xl: Some(xl), xr: Some(xr), constants: &constants };
    let proof = create_random_proof(c, &params, &mut rng).unwrap();

    assert!(
        verify_proof(&pvk, &proof, &[image]).is_ok(),
        "CPU Groth16 proof over BN256 failed to verify"
    );
}

#[test]
fn mimc_library_proof_matches_bellman_byte_for_byte() {
    let mut rng = thread_rng();
    let constants = (0..8).map(|_| HFr::random(&mut rng)).collect::<Vec<_>>();

    let gk = random_key(synthesize_setup(&mimc_steps(None, None, &constants))).unwrap();
    let params = bellman_params(&gk.to_parameters());
    let pvk = prepare_verifying_key(&params.vk);

    let xl = HFr::random(&mut rng);
    let xr = HFr::random(&mut rng);
    let image = mimc(xl, xr, &constants);
    let r = HFr::random(&mut rng);
    let s = HFr::random(&mut rng);
    let circuit = || MiMCDemo { xl: Some(xl), xr: Some(xr), constants: &constants };

    let cpu = groth16::create_proof::<Bn256, _, _>(circuit(), &params, r, s).unwrap();
    let ours = bellman_proof(&library_proof(&mimc_steps(Some(xl), Some(xr), &constants), &gk, r, s));

    assert_eq!(proof_bytes(&ours), proof_bytes(&cpu), "the library's proof differs from bellman's");
    assert!(verify_proof(&pvk, &ours, &[image]).is_ok(), "the library's proof failed to verify");
}

#[test]
fn mimc_key_shape_follows_the_circuit() {
    let mut rng = thread_rng();
    let rounds = 5;
    let constants = (0..rounds).map(|_| HFr::random(&mut rng)).collect::<Vec<_>>();
    let cs = synthesize_setup(&mimc_steps(None, None, &constants));
    // xl, xr, and per round tmp and new_xl; the last new_xl is the image input.
    assert_eq!(cs.num_inputs, 2);
    assert_eq!(cs.num_aux, 2 * rounds + 1);
    assert_eq!(cs.num_constraints, 2 * rounds);

    let gk = random_key(cs).unwrap();
    // 2·rounds + 2 constraints fit a domain of 16: H has 15 entries.
    assert_eq!(gk.h.len(), 15);
    assert_eq!(gk.l.len(), 2 * rounds + 1);
    assert_eq!(gk.a.len(), 2 * rounds + 3);
    assert_eq!(gk.b_g1.len(), 2 * rounds + 3);
    assert_eq!(gk.b_g2.len(), 2 * rounds + 3);
    assert_eq!(gk.vk.ic.len(), 2);
    assert_eq!(gk.num_inputs, 2);

    // The image takes part in no B combination: its B entries are at infinity
    // and the filtered parameters drop them.
    assert!(bool::from(hg1(&gk.b_g1[1]).is_identity()));
    assert!(bool::from(hg2(&gk.b_g2[1]).is_identity()));
    let p = gk.to_parameters();
    let dense_b = gk.b_g1.iter().filter(|q| !bool::from(hg1(q).is_identity())).count();
    assert_eq!(p.b_g1.len(), dense_b);
    assert!(p.b_g1.len() < gk.b_g1.len());
    assert!(p.a.iter().all(|q| !bool::from(hg1(q).is_identity())));
    assert_eq!(p.h.len(), gk.h.len());
    assert_eq!(p.l.len(), gk.l.len());
}

#[test]
fn mimc_witness_layout() {
    let mut rng = thread_rng();
    let constants = (0..3).map(|_| HFr::random(&mut rng)).collect::<Vec<_>>();
    let xl = HFr::random(&mut rng);
    let xr = HFr::random(&mut rng);
    let p = synthesize_prover(&mimc_steps(Some(xl), Some(xr), &constants));
    assert_eq!(p.a.len(), 6);
    assert_eq!(p.input_assignment.len(), 2);
    assert_eq!(hfr(&p.input_assignment[0]), HFr::ONE);
    assert_eq!(hfr(&p.input_assignment[1]), mimc(xl, xr, &constants));
    assert_eq!(hfr(&p.aux_assignment[0]), xl);
    assert_eq!(hfr(&p.aux_assignment[1]), xr);
    // Constraint 0: A = xL + C0, B = xL + C0.
    assert_eq!(hfr(&p.a[0]), xl + constants[0]);
    assert_eq!(hfr(&p.b[0]), xl + constants[0]);

    let inputs = p.input_assignment.clone();
    let aux = p.aux_assignment.clone();
    let a = p.a.clone();
    let w = p.witness(16);
    assert_eq!(w.z.len(), inputs.len() + aux.len());
    assert_eq!(hfr(&w.z[1]), hfr(&inputs[1]));
    assert_eq!(hfr(&w.z[2]), xl);
    assert_eq!(w.az.len(), 16);
    assert_eq!(w.bz.len(), 16);
    // The input constraints follow the circuit's: A carries the input, B zero.
    assert_eq!(hfr(&w.az[5]), hfr(&a[5]));
    assert_eq!(hfr(&w.az[6]), HFr::ONE);
    assert_eq!(hfr(&w.az[7]), hfr(&inputs[1]));
    assert_eq!(hfr(&w.bz[6]), HFr::ZERO);
    assert_eq!(hfr(&w.bz[7]), HFr::ZERO);
    // Padding is zero.
    assert!(w.az[8..].iter().all(|x| hfr(x) == HFr::ZERO));
    assert!(w.bz[8..].iter().all(|x| hfr(x) == HFr::ZERO));
}

#[test]
fn mimc_first_constraint_is_satisfied_by_the_recorded_evaluations() {
    let mut rng = thread_rng();
    let constants = (0..2).map(|_| HFr::random(&mut rng)).collect::<Vec<_>>();
    let xl = HFr::random(&mut rng);
    let xr = HFr::random(&mut rng);
    let p = synthesize_prover(&mimc_steps(Some(xl), Some(xr), &constants));
    // tmp = (xL + C0)^2 is aux variable 2, and constraint 0 is A·B = tmp.
    assert_eq!(hfr(&p.a[0]) * hfr(&p.b[0]), hfr(&p.aux_assignment[2]));
    // Constraint 1: tmp · (xL + C0) = new_xL - xR.
    assert_eq!(hfr(&p.a[1]), hfr(&p.aux_assignment[2]));
    assert_eq!(hfr(&p.b[1]), xl + constants[0]);
    assert_eq!(hfr(&p.a[1]) * hfr(&p.b[1]), hfr(&p.aux_assignment[3]) - xr);
}

#[test]
fn key_queries_against_the_assignment_are_the_witness_polynomials_at_tau() {
    let mut rng = thread_rng();
    let constants = (0..4).map(|_| HFr::random(&mut rng)).collect::<Vec<_>>();
    let (g, h) = (HG1P::generator().to_affine(), HG2P::generator().to_affine());
    let r = || HFr::random(thread_rng());
    let tau = r();
    let cs = synthesize_setup(&mimc_steps(None, None, &constants));
    let gk = generate_parameters(cs, g1(&g), g2(&h), fr(r()), fr(r()), fr(r()), fr(r()), fr(tau)).unwrap();
    let n = gk.h.len() + 1;
    let (xl, xr) = (r(), r());
    let w = synthesize_prover(&mimc_steps(Some(xl), Some(xr), &constants)).witness(n);

    // The Lagrange basis of the domain at tau: the inverse FFT of tau's powers.
    let powers: Vec<Scalar<HFr>> = (0..n).map(|i| Scalar(tau.pow_vartime([i as u64]))).collect();
    let mut d = EvaluationDomain::from_coeffs(powers).unwrap();
    d.ifft(&Worker::new());
    let lag: Vec<HFr> = d.into_coeffs().into_iter().map(|s| s.0).collect();

    let z: Vec<HFr> = w.z.iter().map(hfr).collect();
    let a_tau: HFr = lag.iter().zip(&w.az).map(|(l, a)| *l * hfr(a)).sum();
    let b_tau: HFr = lag.iter().zip(&w.bz).map(|(l, b)| *l * hfr(b)).sum();
    let a: Vec<HG1> = gk.a.iter().map(hg1).collect();
    let b1: Vec<HG1> = gk.b_g1.iter().map(hg1).collect();
    let b2: Vec<HG2> = gk.b_g2.iter().map(hg2).collect();
    assert_eq!(msm_best(&z, &a).to_affine(), (g * a_tau).to_affine());
    assert_eq!(msm_best(&z, &b1).to_affine(), (g * b_tau).to_affine());
    assert_eq!(msm_best(&z, &b2).to_affine(), (h * b_tau).to_affine());
}

#[test]
fn bellman_ifft_is_the_inverse_dft_over_the_domain_root() {
    // ROOT_OF_UNITY is 7^((r - 1) / 2^28) and the two-adicity is 28.
    let t = [0x9b9709143e1f593fu64, 0x181585d2833e8487, 0x131a029b85045b68, 0x30644e72e];
    assert_eq!(HFr::MULTIPLICATIVE_GENERATOR, HFr::from(7u64));
    assert_eq!(HFr::from(7u64).pow_vartime(t), HFr::ROOT_OF_UNITY);
    assert_eq!(HFr::S, 28);
    for e in [0u32, 1, 3, 7] {
        let m = 1usize << e;
        let v: Vec<HFr> = (0..m).map(|_| HFr::random(thread_rng())).collect();
        let mut d = EvaluationDomain::from_coeffs(v.iter().map(|x| Scalar(*x)).collect()).unwrap();
        d.ifft(&Worker::new());
        let got: Vec<HFr> = d.into_coeffs().into_iter().map(|s| s.0).collect();
        let omega = HFr::ROOT_OF_UNITY.pow_vartime([1u64 << (28 - e)]);
        let winv = omega.invert().unwrap();
        let minv = HFr::from(m as u64).invert().unwrap();
        for j in 0..m {
            let sum: HFr = (0..m).map(|k| v[k] * winv.pow_vartime([(j * k) as u64])).sum();
            assert_eq!(got[j], minv * sum);
        }
    }
}

#[test]
fn the_setup_basis_interpolates_at_the_roots_of_unity() {
    let e = 3u32;
    let m = 1usize << e;
    let omega = HFr::ROOT_OF_UNITY.pow_vartime([1u64 << (28 - e)]);
    for i in 0..m {
        let x = omega.pow_vartime([i as u64]);
        let powers: Vec<Scalar<HFr>> = (0..m).map(|k| Scalar(x.pow_vartime([k as u64]))).collect();
        let mut d = EvaluationDomain::from_coeffs(powers).unwrap();
        d.ifft(&Worker::new());
        for (j, l) in d.into_coeffs().into_iter().enumerate() {
            assert_eq!(l.0, if i == j { HFr::ONE } else { HFr::ZERO });
        }
    }
}
