//! The byte boundary of the fused core: scalar and point wire forms, the
//! decoding of the core's outputs, and the check of a core's shape by its
//! file name.

use ff::{Field, PrimeField};
use group::{prime::PrimeCurveAffine, Curve, Group};
use halo2curves::bn256::{Fq as HFq, Fr as HFr, G1Affine as HG1, G2Affine as HG2, G1 as HG1P, G2 as HG2P};

use bellman_zorch::curve::{G1Affine, G2Affine};
use bellman_zorch::field::{Fq, Fq2, Fr};
use bellman_zorch::gpu::{
    assert_core_shape, core_outputs_decodable, core_shape_check, core_stem, core_stem_matches, decode_core_outputs,
    fq_at, fq_chunk_is_canonical, g1_array, g1_bytes_decodable, g1_from_bytes, g1_to_bytes,
    g2_array, g2_bytes_decodable, g2_from_bytes, g2_to_bytes, is_identity_bytes, scalar_bytes, G1B,
    G2B, SF,
};

fn fr(x: HFr) -> Fr {
    Fr { repr: x.to_repr().into() }
}
fn fq(x: &HFq) -> Fq {
    Fq { repr: x.to_repr().into() }
}
fn g1(p: &HG1) -> G1Affine {
    G1Affine { x: fq(&p.x), y: fq(&p.y) }
}
fn g2(p: &HG2) -> G2Affine {
    G2Affine {
        x: Fq2 { c0: fq(&p.x.c0()), c1: fq(&p.x.c1()) },
        y: Fq2 { c0: fq(&p.y.c0()), c1: fq(&p.y.c1()) },
    }
}
fn chars(s: &str) -> Vec<char> {
    s.chars().collect()
}
fn string(v: &[char]) -> String {
    v.iter().collect()
}

#[test]
fn wire_sizes() {
    assert_eq!(SF, 32);
    assert_eq!(G1B, 64);
    assert_eq!(G2B, 128);
}

#[test]
fn scalar_bytes_are_the_encodings_back_to_back() {
    let v = vec![fr(HFr::ONE), fr(HFr::from(258u64)), fr(-HFr::ONE)];
    let b = scalar_bytes(&v);
    assert_eq!(b.len(), 96);
    assert_eq!(b[0], 1);
    assert!(b[1..32].iter().all(|&x| x == 0));
    assert_eq!(b[32], 2);
    assert_eq!(b[33], 1);
    assert!(b[34..64].iter().all(|&x| x == 0));
    assert_eq!(&b[64..96], &(-HFr::ONE).to_repr().as_ref()[..]);
    assert!(scalar_bytes(&[]).is_empty());
}

#[test]
fn g1_identity_is_all_zero_on_the_wire() {
    let id = g1(&HG1::identity());
    assert_eq!(g1_to_bytes(&id), [0u8; 64]);
    let back = g1_from_bytes(&[0u8; 64]);
    assert_eq!(back.x.repr, [0u8; 32]);
    assert_eq!(back.y.repr, [0u8; 32]);
    assert!(is_identity_bytes(&[0u8; 64]));
}

#[test]
fn g1_wire_roundtrip_on_a_point() {
    let p = (HG1P::generator() * HFr::from(12345u64)).to_affine();
    let w = g1_to_bytes(&g1(&p));
    assert_eq!(&w[..32], p.x.to_repr().as_ref());
    assert_eq!(&w[32..], p.y.to_repr().as_ref());
    assert!(g1_bytes_decodable(&w));
    let q = g1_from_bytes(&w);
    assert_eq!(q.x.repr, p.x.to_repr().as_ref());
    assert_eq!(q.y.repr, p.y.to_repr().as_ref());
    assert_eq!(g1_to_bytes(&q), w);
}

#[test]
fn g2_wire_roundtrip_on_a_point() {
    let p = (HG2P::generator() * HFr::from(777u64)).to_affine();
    let w = g2_to_bytes(&g2(&p));
    assert_eq!(&w[..32], p.x.c0().to_repr().as_ref());
    assert_eq!(&w[32..64], p.x.c1().to_repr().as_ref());
    assert_eq!(&w[64..96], p.y.c0().to_repr().as_ref());
    assert_eq!(&w[96..], p.y.c1().to_repr().as_ref());
    assert!(g2_bytes_decodable(&w));
    let q = g2_from_bytes(&w);
    assert_eq!(g2_to_bytes(&q), w);
    assert_eq!(g2_to_bytes(&g2(&HG2::identity())), [0u8; 128]);
    assert!(g2_bytes_decodable(&[0u8; 128]));
    assert_eq!(g2_to_bytes(&g2_from_bytes(&[0u8; 128])), [0u8; 128]);
}

#[test]
fn arrays_put_points_back_to_back() {
    let p = (HG1P::generator() * HFr::from(3u64)).to_affine();
    let v = vec![g1(&p), g1(&HG1::identity()), g1(&p)];
    let b = g1_array(&v);
    assert_eq!(b.len(), 3 * 64);
    assert_eq!(&b[..64], &g1_to_bytes(&v[0])[..]);
    assert!(b[64..128].iter().all(|&x| x == 0));
    assert_eq!(&b[128..], &g1_to_bytes(&v[2])[..]);

    let q = (HG2P::generator() * HFr::from(5u64)).to_affine();
    let w = g2_array(&[g2(&HG2::identity()), g2(&q)]);
    assert_eq!(w.len(), 256);
    assert!(w[..128].iter().all(|&x| x == 0));
    assert_eq!(&w[128..], &g2_to_bytes(&g2(&q))[..]);
}

#[test]
fn identity_bytes_means_all_zero() {
    assert!(is_identity_bytes(&[]));
    assert!(is_identity_bytes(&[0, 0, 0]));
    assert!(!is_identity_bytes(&[0, 0, 1]));
    assert!(!is_identity_bytes(&[7]));
}

#[test]
fn coordinates_are_read_by_position_and_checked() {
    let x = HFq::from(99u64);
    let y = HFq::from(1000u64);
    let mut b = x.to_repr().as_ref().to_vec();
    b.extend_from_slice(y.to_repr().as_ref());
    assert!(fq_chunk_is_canonical(&b, 0));
    assert!(fq_chunk_is_canonical(&b, 1));
    assert!(!fq_chunk_is_canonical(&b, 2));
    assert_eq!(fq_at(&b, 0).repr, x.to_repr().as_ref());
    assert_eq!(fq_at(&b, 1).repr, y.to_repr().as_ref());
    // The modulus itself, and anything above it, is not a canonical encoding.
    let all_ones = [0xffu8; 32];
    assert!(!fq_chunk_is_canonical(&all_ones, 0));
    let p_minus_one = (-HFq::ONE).to_repr();
    assert!(fq_chunk_is_canonical(p_minus_one.as_ref(), 0));
    let mut p = p_minus_one.as_ref().to_vec();
    p[0] += 1;
    assert!(!fq_chunk_is_canonical(&p, 0));
}

#[test]
fn decoders_refuse_non_canonical_or_short_strings() {
    let mut b = vec![0u8; 64];
    b[..32].copy_from_slice(&[0xffu8; 32]);
    assert!(!g1_bytes_decodable(&b));
    assert!(!g1_bytes_decodable(&[1u8; 40]));
    assert!(g1_bytes_decodable(&[0u8; 40]));
    let mut c = vec![0u8; 128];
    c[96..128].copy_from_slice(&[0xffu8; 32]);
    assert!(!g2_bytes_decodable(&c));
}

#[test]
fn core_outputs_are_decoded_in_order() {
    let pa = (HG1P::generator() * HFr::from(2u64)).to_affine();
    let pb = (HG1P::generator() * HFr::from(3u64)).to_affine();
    let pl = (HG1P::generator() * HFr::from(5u64)).to_affine();
    let q = (HG2P::generator() * HFr::from(7u64)).to_affine();
    let outs = vec![
        g1_to_bytes(&g1(&pa)).to_vec(),
        g1_to_bytes(&g1(&pb)).to_vec(),
        g2_to_bytes(&g2(&q)).to_vec(),
        g1_to_bytes(&g1(&pl)).to_vec(),
        vec![0u8; 64],
    ];
    assert!(core_outputs_decodable(&outs));
    let o = decode_core_outputs(&outs);
    assert_eq!(o.msm_a.x.repr, pa.x.to_repr().as_ref());
    assert_eq!(o.msm_b_g1.y.repr, pb.y.to_repr().as_ref());
    assert_eq!(o.msm_b_g2.y.c1.repr, q.y.c1().to_repr().as_ref());
    assert_eq!(o.msm_l.x.repr, pl.x.to_repr().as_ref());
    assert_eq!(g1_to_bytes(&o.msm_h), [0u8; 64]);

    assert!(!core_outputs_decodable(&outs[..4].to_vec()));
    let mut bad = outs.clone();
    bad[2] = vec![0xffu8; 128];
    assert!(!core_outputs_decodable(&bad));
}

#[test]
fn core_stem_follows_the_export_convention() {
    assert_eq!(string(&core_stem(1024, 647, 2)), "bellman_core_n1024_m647_i2");
    assert_eq!(string(&core_stem(0, 9, 10)), "bellman_core_n0_m9_i10");
}

#[test]
fn core_stem_matches_only_its_own_shape() {
    assert!(core_stem_matches(&chars("bellman_core_n1024_m647_i2"), 1024, 647, 2));
    assert!(!core_stem_matches(&chars("bellman_core_n1024_m647_i3"), 1024, 647, 2));
    assert!(!core_stem_matches(&chars("bellman_core_n1024_m64_i72"), 1024, 647, 2));
    assert!(!core_stem_matches(&chars("bellman_core_n1024"), 1024, 647, 2));
    // Stems outside the convention are not checked.
    assert!(core_stem_matches(&chars("my_core"), 1024, 647, 2));
    assert!(core_stem_matches(&chars("bellman_core_x"), 1024, 647, 2));
}

#[test]
fn core_shape_check_reads_the_file_stem() {
    assert!(core_shape_check("artifacts/bellman_core_n1024_m647_i2.mlirbc", 1024, 647, 2).is_ok());
    let e = core_shape_check("artifacts/bellman_core_n1024_m647_i2.mlirbc", 1024, 648, 2).unwrap_err();
    assert_eq!(string(&e.found), "bellman_core_n1024_m647_i2");
    assert_eq!(string(&e.expected), "bellman_core_n1024_m648_i2");
    // A matching prefix with a suffix is another name.
    let e = core_shape_check("bellman_core_n1024_m647_i2_v2.mlirbc", 1024, 647, 2).unwrap_err();
    assert_eq!(string(&e.found), "bellman_core_n1024_m647_i2_v2");
    assert!(core_shape_check("artifacts/custom.mlirbc", 8, 8, 2).is_ok());
    assert!(core_shape_check("", 8, 8, 2).is_ok());
    assert!(core_shape_check("bellman_core_n8_m8_i2", 8, 8, 2).is_ok());
    assert!(core_shape_check("bellman_core_n8_m8_i2", 16, 8, 2).is_err());
    // Trailing separators and `.` components are dropped; `..` names no file.
    assert!(core_shape_check("a/bellman_core_n8_m8_i2/", 16, 8, 2).is_err());
    assert!(core_shape_check("a/bellman_core_n8_m8_i2/.", 16, 8, 2).is_err());
    assert!(core_shape_check("a/bellman_core_n8_m8_i2/..", 16, 8, 2).is_ok());
    // A stem with only a leading dot keeps it.
    assert!(core_shape_check(".bellman_core_n8_m8_i2", 16, 8, 2).is_ok());
}

#[test]
fn assert_core_shape_passes_matching_cores() {
    assert_core_shape("artifacts/bellman_core_n1024_m647_i2.mlirbc", 1024, 647, 2);
    assert_core_shape("artifacts/custom.mlirbc", 8, 8, 2);
    assert_core_shape("bellman_core_n8_m8_i2/", 8, 8, 2);
}

#[test]
fn one_scalar_on_the_wire_is_its_encoding() {
    let s = fr(HFr::random(rand::thread_rng()));
    assert_eq!(scalar_bytes(&[s]), s.repr.to_vec());
}
