use ark_bn254::{Fr, G1Affine, G2Affine};
use ark_ec::AffineRepr;
use ark_serialize::CanonicalSerialize;
use kzg_bn254::errors::KzgError;
use kzg_bn254::kzg::{Kzg, Polynomial};
use kzg_bn254::points::g1_encode;
use kzg_bn254::scalar::Scalar;

/// Serializes an insecure test SRS of `n` G1 points (powers of `tau`) in
/// the payload layout `setup` parses. The two G2 points are the
/// tau-shifted generator first, so the verifier's short-vector fallback
/// picks it up.
fn srs_payload(n: u64, tau: u64) -> Vec<u8> {
    let tau_fr = Fr::from(tau);
    let g = G1Affine::generator();
    let mut out: Vec<u8> = Vec::new();
    out.extend_from_slice(&n.to_le_bytes());
    let mut acc = Fr::from(1u64);
    for _ in 0..n {
        let p: G1Affine = (g * acc).into();
        p.serialize_compressed(&mut out).unwrap();
        acc *= tau_fr;
    }
    out.extend_from_slice(&2u64.to_le_bytes());
    let g2_tau: G2Affine = (G2Affine::generator() * tau_fr).into();
    g2_tau.serialize_compressed(&mut out).unwrap();
    G2Affine::generator().serialize_compressed(&mut out).unwrap();
    out.extend_from_slice(&0u64.to_le_bytes());
    out.extend_from_slice(&0u64.to_le_bytes());
    out.extend_from_slice(&0u64.to_le_bytes());
    out.push(0u8);
    out.extend_from_slice(&n.to_le_bytes());
    out.extend_from_slice(&0u64.to_le_bytes());
    out
}

fn test_kzg(n: u64, tau: u64) -> Kzg {
    Kzg::setup(&srs_payload(n, tau)).unwrap()
}

#[test]
fn test_setup_parses_payload() {
    let kzg = test_kzg(32, 5);
    assert_eq!(kzg.g1.len(), 32);
    assert_eq!(kzg.g2.len(), 2);
    assert_eq!(kzg.srs_order, 32);
    assert_eq!(kzg.params.chunk_length, 0);
    assert_eq!(kzg.params.num_chunks, 0);
    assert_eq!(kzg.params.max_fft_width, 0);
    assert!(!kzg.params.completed_setup);
    assert_eq!(kzg.expanded_roots_of_unity.len(), 0);
}

#[test]
fn test_setup_rejects_malformed_payloads() {
    let good = srs_payload(4, 5);
    assert!(Kzg::setup(&good).is_ok());

    // too short for the G1 count
    assert!(Kzg::setup(&vec![1u8, 2, 3]).is_err());
    // truncated inside the points
    let mut cut = good.clone();
    cut.truncate(20);
    assert!(Kzg::setup(&cut).is_err());
    // trailing garbage
    let mut long = good.clone();
    long.push(0u8);
    assert!(Kzg::setup(&long).is_err());
    // a flag byte that is neither 0 nor 1
    let mut bad_flag = good.clone();
    let flag_pos = 8 + 4 * 32 + 8 + 2 * 64 + 24;
    bad_flag[flag_pos] = 7;
    assert!(Kzg::setup(&bad_flag).is_err());
    // an SRS order that disagrees with the G1 count
    let mut bad_order = good.clone();
    let order_pos = flag_pos + 1;
    bad_order[order_pos] = 9;
    assert!(Kzg::setup(&bad_order).is_err());
    // a corrupted point encoding: an x coordinate past the base field
    let mut bad_point = good.clone();
    for i in 8..40 {
        bad_point[i] = 255;
    }
    assert!(Kzg::setup(&bad_point).is_err());
}

#[test]
fn test_setup_determinism() {
    let bytes = srs_payload(8, 11);
    let k1 = Kzg::setup(&bytes).unwrap();
    let k2 = Kzg::setup(&bytes).unwrap();
    assert_eq!(k1.g1.len(), k2.g1.len());
    for i in 0..k1.g1.len() {
        assert_eq!(g1_encode(&k1.g1[i]), g1_encode(&k2.g1[i]));
    }
    assert_eq!(k1.srs_order, k2.srs_order);
    assert_eq!(k1.params, k2.params);
}

#[test]
fn test_data_setup_mins_bounds() {
    let mut kzg = test_kzg(32, 5);

    // in range: both minimums round up to powers of two
    assert!(kzg.data_setup_mins(3, 3).is_ok());
    assert_eq!(kzg.params.chunk_length, 4);
    assert_eq!(kzg.params.num_chunks, 4);
    assert_eq!(kzg.params.max_fft_width, 16);
    assert!(kzg.params.completed_setup);
    assert_eq!(kzg.expanded_roots_of_unity.len(), 16);

    // the rounded product reaching the SRS order is rejected
    assert_eq!(
        kzg.data_setup_mins(32, 1).err().unwrap(),
        KzgError::SerializationError(
            "the supplied encoding parameters are not valid with respect to the SRS.".to_string()
        )
    );
    assert!(kzg.data_setup_mins(16, 2).is_err());
    assert!(kzg.data_setup_mins(15, 2).is_err());
    // the engine is left as the last successful derivation set it
    assert_eq!(kzg.params.chunk_length, 4);

    // just below the order is accepted
    assert!(kzg.data_setup_mins(8, 2).is_ok());
    assert_eq!(kzg.params.chunk_length, 8);
    assert_eq!(kzg.params.num_chunks, 2);
}

#[test]
fn test_data_setup_custom_derives_from_blob_size() {
    let mut kzg = test_kzg(32, 5);
    // 512 padded bytes are 16 field elements; 4 nodes give chunks of 4
    assert!(kzg.data_setup_custom(4, 512).is_ok());
    assert_eq!(kzg.params.chunk_length, 4);
    assert_eq!(kzg.params.num_chunks, 4);
    assert_eq!(kzg.expanded_roots_of_unity.len(), 16);
}

#[test]
fn test_g1_ifft_requires_power_of_two() {
    let kzg = test_kzg(32, 5);
    assert!(kzg.g1_ifft(0).is_err());
    assert!(matches!(kzg.g1_ifft(3), Err(KzgError::FftError(_))));
    assert!(kzg.g1_ifft(5).is_err());
    assert!(kzg.g1_ifft(100).is_err());
    assert!(kzg.g1_ifft(64).is_err());  // beyond the SRS
    assert_eq!(kzg.g1_ifft(1).unwrap().len(), 1);
    assert_eq!(kzg.g1_ifft(2).unwrap().len(), 2);
    assert_eq!(kzg.g1_ifft(4).unwrap().len(), 4);
    assert_eq!(kzg.g1_ifft(16).unwrap().len(), 16);
}

#[test]
fn test_expand_root_of_unity_closure() {
    // entry 3 of the table generates the subgroup of order 8
    let table = kzg_bn254::roots::get_primitive_roots_of_unity();
    let expanded = kzg_bn254::roots::expand_root_of_unity(&table[3]).unwrap();
    assert_eq!(expanded.len(), 9);
    assert!(expanded[0].is_one());
    assert!(expanded[8].is_one());
    for i in 1..8 {
        assert!(!expanded[i].is_one());
    }
    // the degenerate subgroup generated by one itself
    let expanded_one = kzg_bn254::roots::expand_root_of_unity(&Scalar::one()).unwrap();
    assert_eq!(expanded_one.len(), 2);
}

#[test]
fn test_commit_known_value() {
    // over the domain of size one, the commitment is g1[0] * p[0]
    let kzg = test_kzg(4, 5);
    let poly = Polynomial::new(vec![Scalar::from_u64(42)]);
    let commitment = kzg.commit(&poly).unwrap();
    let expected: G1Affine = (G1Affine::generator() * Fr::from(42u64)).into();
    let mut expected_bytes: Vec<u8> = Vec::new();
    expected.serialize_compressed(&mut expected_bytes).unwrap();
    assert_eq!(g1_encode(&commitment), expected_bytes);
}

#[test]
fn test_commit_determinism() {
    let kzg = test_kzg(8, 7);
    let poly = Polynomial::new(vec![
        Scalar::from_u64(1),
        Scalar::from_u64(2),
        Scalar::from_u64(3),
        Scalar::from_u64(4),
    ]);
    let c1 = kzg.commit(&poly).unwrap();
    let c2 = kzg.commit(&poly).unwrap();
    assert_eq!(g1_encode(&c1), g1_encode(&c2));
}

#[test]
fn test_commit_errors() {
    let mut poly = vec![];
    for _ in 0..4000 {
        poly.push(Scalar::one());
    }
    let polynomial = Polynomial::new(poly);
    let kzg = test_kzg(3000, 5);
    let result = kzg.commit(&polynomial);
    assert_eq!(
        result.err().unwrap(),
        KzgError::SerializationError("polynomial length is not correct".to_string())
    );
}

#[test]
fn test_compute_kzg_proof_round_trip() {
    // a completed configuration with a domain of 16 points
    let mut kzg = test_kzg(32, 5);
    kzg.data_setup_mins(4, 4).unwrap();
    assert_eq!(kzg.expanded_roots_of_unity.len(), 16);

    let mut elements = vec![];
    for i in 0..16u64 {
        elements.push(Scalar::from_u64(i * 7 + 3));
    }
    let input_poly = Polynomial::new(elements);
    let commitment = kzg.commit(&input_poly).unwrap();

    for index in 0..16usize {
        let proof = kzg
            .compute_kzg_proof_with_roots_of_unity(&input_poly, index as u64)
            .unwrap();
        let value_fr = input_poly.elements[index];
        let z_fr = *kzg.get_nth_root_of_unity(index).unwrap();
        // the proof opens the committed polynomial at the right point
        assert!(kzg.verify_kzg_proof(&commitment, &proof, &value_fr, &z_fr));
        // substituting any other domain point must fail the check
        let other = *kzg.get_nth_root_of_unity((index + 1) % 16).unwrap();
        assert!(!kzg.verify_kzg_proof(&commitment, &proof, &value_fr, &other));
    }
}

#[test]
fn test_compute_kzg_proof_preconditions() {
    let mut kzg = test_kzg(32, 5);
    let elements = vec![Scalar::one(), Scalar::one()];
    let poly = Polynomial::new(elements);

    // proving before any data setup is rejected
    let r = kzg.compute_kzg_proof_with_roots_of_unity(&poly, 0);
    assert_eq!(
        r.err().unwrap(),
        KzgError::GenericError("setup is not complete, run the data_setup functions".to_string())
    );

    kzg.data_setup_mins(4, 4).unwrap();
    // a polynomial shorter than the domain is rejected
    let r = kzg.compute_kzg_proof_with_roots_of_unity(&poly, 0);
    assert_eq!(
        r.err().unwrap(),
        KzgError::GenericError("inconsistent length between blob and root of unities".to_string())
    );
    // an index beyond the domain is rejected
    let mut elements = vec![];
    for _ in 0..16u64 {
        elements.push(Scalar::one());
    }
    let poly16 = Polynomial::new(elements);
    assert!(kzg.compute_kzg_proof_with_roots_of_unity(&poly16, 16).is_err());
    assert!(kzg.compute_kzg_proof_with_roots_of_unity(&poly16, 15).is_ok());
}

#[test]
fn test_get_next_entry() {
    let s: Vec<u8> = b"12 345 6".to_vec();
    assert_eq!(kzg_bn254::scan::get_next_entry(&s, 0), (0, 2));
    assert_eq!(kzg_bn254::scan::get_next_entry(&s, 3), (3, 6));
}

/// A payload whose G2 vector is longer than the primitive-roots table, so
/// the verifier selects the second entry as the tau element.
fn srs_payload_long_g2(n: u64, tau: u64) -> Vec<u8> {
    let tau_fr = Fr::from(tau);
    let g = G1Affine::generator();
    let mut out: Vec<u8> = Vec::new();
    out.extend_from_slice(&n.to_le_bytes());
    let mut acc = Fr::from(1u64);
    for _ in 0..n {
        let p: G1Affine = (g * acc).into();
        p.serialize_compressed(&mut out).unwrap();
        acc *= tau_fr;
    }
    out.extend_from_slice(&30u64.to_le_bytes());
    let g2_tau: G2Affine = (G2Affine::generator() * tau_fr).into();
    G2Affine::generator().serialize_compressed(&mut out).unwrap();
    g2_tau.serialize_compressed(&mut out).unwrap();
    for _ in 2..30 {
        G2Affine::generator().serialize_compressed(&mut out).unwrap();
    }
    out.extend_from_slice(&0u64.to_le_bytes());
    out.extend_from_slice(&0u64.to_le_bytes());
    out.extend_from_slice(&0u64.to_le_bytes());
    out.push(0u8);
    out.extend_from_slice(&n.to_le_bytes());
    out.extend_from_slice(&0u64.to_le_bytes());
    out
}

#[test]
fn test_round_trip_with_long_g2_vector() {
    let mut kzg = Kzg::setup(&srs_payload_long_g2(32, 9)).unwrap();
    kzg.data_setup_mins(4, 4).unwrap();
    let mut elements = vec![];
    for i in 0..16u64 {
        elements.push(Scalar::from_u64(i + 100));
    }
    let poly = Polynomial::new(elements);
    let commitment = kzg.commit(&poly).unwrap();
    let proof = kzg.compute_kzg_proof_with_roots_of_unity(&poly, 3).unwrap();
    let value = poly.elements[3];
    let z = *kzg.get_nth_root_of_unity(3).unwrap();
    assert!(kzg.verify_kzg_proof(&commitment, &proof, &value, &z));
    let other = *kzg.get_nth_root_of_unity(5).unwrap();
    assert!(!kzg.verify_kzg_proof(&commitment, &proof, &value, &other));
}
