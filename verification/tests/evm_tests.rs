use eth_bls_kzg::evm::{evm_sha256, evm_modexp, evm_modexp_result_size, EvmStatus};

#[test]
fn t_evm_sha256() {
    let out = evm_sha256(b"").unwrap();
    let expected =
        hex::decode("e3b0c44298fc1c149afbf4c8996fb92427ae41e4649b934ca495991b7852b855").unwrap();
    assert_eq!(out.to_vec(), expected);
}

#[test]
fn t_evm_modexp_result_size() {
    // the classic header: one-byte base, exponent and modulus
    let mut inputs = vec![0u8; 96];
    inputs[31] = 1;
    inputs[63] = 1;
    inputs[95] = 1;
    assert_eq!(evm_modexp_result_size(&inputs), Ok(1));

    // the modulus length drives the result size
    inputs[94] = 2;
    assert_eq!(evm_modexp_result_size(&inputs), Ok(0x0201));

    // short input is implicitly zero-padded
    assert_eq!(evm_modexp_result_size(&[]), Ok(0));
    assert_eq!(evm_modexp_result_size(&inputs[..70]), Ok(0));

    // an oversized modulus length field is rejected
    let mut big = vec![0u8; 96];
    big[64] = 1;
    assert_eq!(
        evm_modexp_result_size(&big),
        Err(EvmStatus::InvalidInputSize)
    );
}

use eth_bls_kzg::evm::{
    evm_bls12381_g1add, evm_bls12381_g1mul, evm_bls12381_g1msm, evm_bls12381_g2add,
    evm_bls12381_g2mul, evm_bls12381_g2msm, evm_bls12381_pairing_check,
    evm_bls12381_map_fp_to_g1, evm_bls12381_map_fp2_to_g2,
};

/// The 128-byte precompile encoding of a first-group point.
fn enc_g1(p: &bls12_381::G1Affine) -> [u8; 128] {
    let mut out = [0u8; 128];
    if bool::from(p.is_identity()) {
        return out;
    }
    let u = p.to_uncompressed();
    out[16..64].copy_from_slice(&u[0..48]);
    out[80..128].copy_from_slice(&u[48..96]);
    out
}

/// The 256-byte precompile encoding of a second-group point (each
/// coordinate's real half before its imaginary half).
fn enc_g2(p: &bls12_381::G2Affine) -> [u8; 256] {
    let mut out = [0u8; 256];
    if bool::from(p.is_identity()) {
        return out;
    }
    let u = p.to_uncompressed();
    out[16..64].copy_from_slice(&u[48..96]); // x real
    out[80..128].copy_from_slice(&u[0..48]); // x imaginary
    out[144..192].copy_from_slice(&u[144..192]); // y real
    out[208..256].copy_from_slice(&u[96..144]); // y imaginary
    out
}

fn g1_times(k: u64) -> bls12_381::G1Affine {
    bls12_381::G1Affine::from(bls12_381::G1Projective::generator() * bls12_381::Scalar::from(k))
}

fn g2_times(k: u64) -> bls12_381::G2Affine {
    bls12_381::G2Affine::from(bls12_381::G2Projective::generator() * bls12_381::Scalar::from(k))
}

#[test]
fn t_evm_bls12381_g1add() {
    let g = bls12_381::G1Affine::generator();
    let mut inputs = Vec::new();
    inputs.extend_from_slice(&enc_g1(&g));
    inputs.extend_from_slice(&enc_g1(&g));
    assert_eq!(evm_bls12381_g1add(&inputs).unwrap(), enc_g1(&g1_times(2)));

    // adding the identity returns the point unchanged
    let mut with_identity = Vec::new();
    with_identity.extend_from_slice(&enc_g1(&g));
    with_identity.extend_from_slice(&[0u8; 128]);
    assert_eq!(evm_bls12381_g1add(&with_identity).unwrap(), enc_g1(&g));

    // wrong length
    assert_eq!(
        evm_bls12381_g1add(&inputs[..255]),
        Err(EvmStatus::InvalidInputSize)
    );
    // a coordinate at the field modulus
    let p_hex = "1a0111ea397fe69a4b1ba7b6434bacd764774b84f38512bf6730d2a0f6b0f6241eabfffeb153ffffb9feffffffffaaab";
    let mut bad = inputs.clone();
    bad[16..64].copy_from_slice(&hex::decode(p_hex).unwrap());
    assert_eq!(
        evm_bls12381_g1add(&bad),
        Err(EvmStatus::IntLargerThanModulus)
    );
    // a nonzero pad byte makes the slot out of range
    let mut padded = inputs.clone();
    padded[0] = 1;
    assert_eq!(
        evm_bls12381_g1add(&padded),
        Err(EvmStatus::IntLargerThanModulus)
    );
    // coordinates in range but not on the curve
    let mut off_curve = inputs.clone();
    off_curve[63] ^= 1;
    assert_eq!(
        evm_bls12381_g1add(&off_curve),
        Err(EvmStatus::PointNotOnCurve)
    );
}

#[test]
fn t_evm_bls12381_g1mul() {
    let g = bls12_381::G1Affine::generator();
    let mut inputs = Vec::new();
    inputs.extend_from_slice(&enc_g1(&g));
    let mut scalar = [0u8; 32];
    scalar[31] = 5;
    inputs.extend_from_slice(&scalar);
    assert_eq!(evm_bls12381_g1mul(&inputs).unwrap(), enc_g1(&g1_times(5)));

    // a scalar at the group order plus two reduces to two
    let order_plus_2 =
        hex::decode("73eda753299d7d483339d80809a1d80553bda402fffe5bfeffffffff00000003").unwrap();
    inputs[128..160].copy_from_slice(&order_plus_2);
    assert_eq!(evm_bls12381_g1mul(&inputs).unwrap(), enc_g1(&g1_times(2)));

    assert_eq!(
        evm_bls12381_g1mul(&inputs[..128]),
        Err(EvmStatus::InvalidInputSize)
    );
}

#[test]
fn t_evm_bls12381_g1mul_subgroup_check() {
    // find an on-curve point outside the prime-order subgroup
    let mut found = false;
    for x in 0..32u8 {
        let mut enc = [0u8; 48];
        enc[0] = 0x80;
        enc[47] = x;
        let p = bls12_381::G1Affine::from_compressed_unchecked(&enc);
        if bool::from(p.is_some()) {
            let p = p.unwrap();
            if !bool::from(p.is_torsion_free()) {
                let mut inputs = Vec::new();
                inputs.extend_from_slice(&enc_g1(&p));
                inputs.extend_from_slice(&[0u8; 32]);
                assert_eq!(
                    evm_bls12381_g1mul(&inputs),
                    Err(EvmStatus::PointNotInSubgroup)
                );
                // point addition has no subgroup requirement
                let mut add_inputs = Vec::new();
                add_inputs.extend_from_slice(&enc_g1(&p));
                add_inputs.extend_from_slice(&[0u8; 128]);
                assert_eq!(evm_bls12381_g1add(&add_inputs).unwrap(), enc_g1(&p));
                found = true;
                break;
            }
        }
    }
    assert!(found);
}

#[test]
fn t_evm_bls12381_g1msm() {
    // 2*G + 3*G == 5*G
    let g = bls12_381::G1Affine::generator();
    let mut inputs = Vec::new();
    for k in [2u8, 3u8] {
        inputs.extend_from_slice(&enc_g1(&g));
        let mut scalar = [0u8; 32];
        scalar[31] = k;
        inputs.extend_from_slice(&scalar);
    }
    assert_eq!(evm_bls12381_g1msm(&inputs).unwrap(), enc_g1(&g1_times(5)));
    assert_eq!(evm_bls12381_g1msm(&[]), Err(EvmStatus::InvalidInputSize));
}

#[test]
fn t_evm_bls12381_g2_family() {
    let h = bls12_381::G2Affine::generator();
    let mut add_inputs = Vec::new();
    add_inputs.extend_from_slice(&enc_g2(&h));
    add_inputs.extend_from_slice(&enc_g2(&h));
    assert_eq!(evm_bls12381_g2add(&add_inputs).unwrap(), enc_g2(&g2_times(2)));

    let mut mul_inputs = Vec::new();
    mul_inputs.extend_from_slice(&enc_g2(&h));
    let mut scalar = [0u8; 32];
    scalar[31] = 7;
    mul_inputs.extend_from_slice(&scalar);
    assert_eq!(evm_bls12381_g2mul(&mul_inputs).unwrap(), enc_g2(&g2_times(7)));

    let mut msm_inputs = Vec::new();
    for k in [4u8, 9u8] {
        msm_inputs.extend_from_slice(&enc_g2(&h));
        let mut scalar = [0u8; 32];
        scalar[31] = k;
        msm_inputs.extend_from_slice(&scalar);
    }
    assert_eq!(
        evm_bls12381_g2msm(&msm_inputs).unwrap(),
        enc_g2(&g2_times(13))
    );

    assert_eq!(
        evm_bls12381_g2add(&add_inputs[..100]),
        Err(EvmStatus::InvalidInputSize)
    );
}

#[test]
fn t_evm_bls12381_pairing_check() {
    let g = bls12_381::G1Affine::generator();
    let h = bls12_381::G2Affine::generator();
    // e(G, H) * e(-G, H) == 1
    let mut inputs = Vec::new();
    inputs.extend_from_slice(&enc_g1(&g));
    inputs.extend_from_slice(&enc_g2(&h));
    inputs.extend_from_slice(&enc_g1(&(-g)));
    inputs.extend_from_slice(&enc_g2(&h));
    let mut one = [0u8; 32];
    one[31] = 1;
    assert_eq!(evm_bls12381_pairing_check(&inputs).unwrap(), one);

    // a single nondegenerate pairing is not the identity
    let mut single = Vec::new();
    single.extend_from_slice(&enc_g1(&g));
    single.extend_from_slice(&enc_g2(&h));
    assert_eq!(evm_bls12381_pairing_check(&single).unwrap(), [0u8; 32]);

    assert_eq!(
        evm_bls12381_pairing_check(&single[..100]),
        Err(EvmStatus::InvalidInputSize)
    );
}

#[test]
fn t_evm_bls12381_maps() {
    // the map of the zero field element is a well-formed subgroup point
    // usable as a pairing input
    let out = evm_bls12381_map_fp_to_g1(&[0u8; 64]).unwrap();
    let out2 = evm_bls12381_map_fp_to_g1(&[0u8; 64]).unwrap();
    assert_eq!(out, out2);
    let g2out = evm_bls12381_map_fp2_to_g2(&[0u8; 128]).unwrap();
    let mut pair = Vec::new();
    pair.extend_from_slice(&out);
    pair.extend_from_slice(&enc_g2(&bls12_381::G2Affine::generator()));
    pair.extend_from_slice(&enc_g1(&bls12_381::G1Affine::generator()));
    pair.extend_from_slice(&g2out);
    assert!(evm_bls12381_pairing_check(&pair).is_ok());

    assert_eq!(
        evm_bls12381_map_fp_to_g1(&[0u8; 63]),
        Err(EvmStatus::InvalidInputSize)
    );
    // an element at the field modulus is out of range
    let p_hex = "1a0111ea397fe69a4b1ba7b6434bacd764774b84f38512bf6730d2a0f6b0f6241eabfffeb153ffffb9feffffffffaaab";
    let mut bad = [0u8; 64];
    bad[16..64].copy_from_slice(&hex::decode(p_hex).unwrap());
    assert_eq!(
        evm_bls12381_map_fp_to_g1(&bad),
        Err(EvmStatus::IntLargerThanModulus)
    );
}

#[test]
fn t_evm_modexp() {
    // 4 ^ 13 mod 497 == 445, in a two-byte modulus width
    let mut inputs = vec![0u8; 96];
    inputs[31] = 1; // base length
    inputs[63] = 1; // exponent length
    inputs[95] = 2; // modulus length
    inputs.extend_from_slice(&[4u8, 13u8, 0x01u8, 0xf1u8]);
    assert_eq!(evm_modexp(&inputs).unwrap(), vec![0x01u8, 0xbdu8]);

    // a zero exponent gives one
    let mut one_exp = inputs.clone();
    one_exp[97] = 0;
    assert_eq!(evm_modexp(&one_exp).unwrap(), vec![0x00u8, 0x01u8]);

    // a zero modulus gives a zero-filled result of its width
    let mut zero_mod = inputs.clone();
    zero_mod[98] = 0;
    zero_mod[99] = 0;
    assert_eq!(evm_modexp(&zero_mod).unwrap(), vec![0u8, 0u8]);

    // truncated input is implicitly zero-padded: modulus reads as zero
    assert_eq!(evm_modexp(&inputs[..98]).unwrap(), vec![0u8, 0u8]);

    // an oversized length field is rejected
    let mut big = vec![0u8; 96];
    big[0] = 1;
    big[95] = 1;
    assert_eq!(evm_modexp(&big), Err(EvmStatus::InvalidInputSize));

    // a modulus of one makes every result zero
    let mut mod_one = inputs.clone();
    mod_one[95] = 1;
    mod_one.truncate(96);
    mod_one.extend_from_slice(&[4u8, 13u8, 1u8]);
    assert_eq!(evm_modexp(&mod_one).unwrap(), vec![0u8]);
}

use eth_bls_kzg::evm::{evm_bn254_g1add, evm_bn254_g1mul, evm_bn254_ec_pairing_check};
use halo2curves::CurveAffine;
use halo2curves::group::Group;
use halo2curves::group::prime::PrimeCurveAffine;

/// The 64-byte precompile encoding of a proving-curve point.
fn bn_enc_g1(p: &halo2curves::bn256::G1Affine) -> [u8; 64] {
    let mut out = [0u8; 64];
    if bool::from(p.is_identity()) {
        return out;
    }
    let c = p.coordinates().unwrap();
    let mut x = c.x().to_bytes();
    let mut y = c.y().to_bytes();
    x.reverse();
    y.reverse();
    out[..32].copy_from_slice(&x);
    out[32..].copy_from_slice(&y);
    out
}

/// The 128-byte precompile encoding of a proving-curve second-group
/// point (each coordinate's imaginary half first).
fn bn_enc_g2(p: &halo2curves::bn256::G2Affine) -> [u8; 128] {
    let mut out = [0u8; 128];
    if bool::from(p.is_identity()) {
        return out;
    }
    let c = p.coordinates().unwrap();
    let (mut xi, mut xr) = (c.x().c1.to_bytes(), c.x().c0.to_bytes());
    let (mut yi, mut yr) = (c.y().c1.to_bytes(), c.y().c0.to_bytes());
    xi.reverse();
    xr.reverse();
    yi.reverse();
    yr.reverse();
    out[0..32].copy_from_slice(&xi);
    out[32..64].copy_from_slice(&xr);
    out[64..96].copy_from_slice(&yi);
    out[96..128].copy_from_slice(&yr);
    out
}

fn bn_g1_times(k: u64) -> halo2curves::bn256::G1Affine {
    halo2curves::bn256::G1Affine::from(
        halo2curves::bn256::G1::generator() * halo2curves::bn256::Fr::from(k),
    )
}

#[test]
fn t_evm_bn254_g1add() {
    let g = halo2curves::bn256::G1Affine::generator();
    let mut inputs = Vec::new();
    inputs.extend_from_slice(&bn_enc_g1(&g));
    inputs.extend_from_slice(&bn_enc_g1(&g));
    assert_eq!(evm_bn254_g1add(&inputs).unwrap(), bn_enc_g1(&bn_g1_times(2)));

    // a short input is implicitly zero-padded: the second point is the
    // identity and the sum is the first point
    assert_eq!(evm_bn254_g1add(&inputs[..64]).unwrap(), bn_enc_g1(&g));

    // a coordinate at the field modulus
    let p_hex = "30644e72e131a029b85045b68181585d97816a916871ca8d3c208c16d87cfd47";
    let mut bad = inputs.clone();
    bad[0..32].copy_from_slice(&hex::decode(p_hex).unwrap());
    assert_eq!(evm_bn254_g1add(&bad), Err(EvmStatus::IntLargerThanModulus));

    // coordinates in range but off the curve
    let mut off_curve = inputs.clone();
    off_curve[63] ^= 1;
    assert_eq!(evm_bn254_g1add(&off_curve), Err(EvmStatus::PointNotOnCurve));
}

#[test]
fn t_evm_bn254_g1mul() {
    let g = halo2curves::bn256::G1Affine::generator();
    let mut inputs = Vec::new();
    inputs.extend_from_slice(&bn_enc_g1(&g));
    let mut scalar = [0u8; 32];
    scalar[31] = 9;
    inputs.extend_from_slice(&scalar);
    assert_eq!(evm_bn254_g1mul(&inputs).unwrap(), bn_enc_g1(&bn_g1_times(9)));

    // multiplying the identity gives the identity
    let mut id_inputs = vec![0u8; 64];
    id_inputs.extend_from_slice(&scalar);
    assert_eq!(evm_bn254_g1mul(&id_inputs).unwrap(), [0u8; 64]);
}

#[test]
fn t_evm_bn254_ec_pairing_check() {
    let g = halo2curves::bn256::G1Affine::generator();
    let h = halo2curves::bn256::G2Affine::generator();
    let neg_g = halo2curves::bn256::G1Affine::from(-halo2curves::bn256::G1::generator());
    // e(G, H) * e(-G, H) == 1
    let mut inputs = Vec::new();
    inputs.extend_from_slice(&bn_enc_g1(&g));
    inputs.extend_from_slice(&bn_enc_g2(&h));
    inputs.extend_from_slice(&bn_enc_g1(&neg_g));
    inputs.extend_from_slice(&bn_enc_g2(&h));
    let mut one = [0u8; 32];
    one[31] = 1;
    assert_eq!(evm_bn254_ec_pairing_check(&inputs).unwrap(), one);

    // the empty product holds vacuously
    assert_eq!(evm_bn254_ec_pairing_check(&[]).unwrap(), one);

    // a pair with the identity point contributes the trivial factor
    let mut id_pair = vec![0u8; 64];
    id_pair.extend_from_slice(&bn_enc_g2(&h));
    assert_eq!(evm_bn254_ec_pairing_check(&id_pair).unwrap(), one);

    // a single nondegenerate pairing is not the identity
    assert_eq!(evm_bn254_ec_pairing_check(&inputs[..192]).unwrap(), [0u8; 32]);

    // pairs must arrive whole
    assert_eq!(
        evm_bn254_ec_pairing_check(&inputs[..100]),
        Err(EvmStatus::InvalidInputSize)
    );
}
