use eth_bls_kzg::codec::{
    deserialize_seckey, serialize_seckey, deserialize_pubkey_compressed,
    deserialize_pubkey_compressed_unchecked, serialize_pubkey_compressed,
    deserialize_signature_compressed, serialize_signature_compressed, validate_seckey,
    validate_pubkey, validate_signature, ScalarCodecStatus, EccCodecStatus,
};
use eth_bls_kzg::bls::{
    derive_pubkey, sign, verify, fast_aggregate_verify, aggregate_verify, batch_verify,
    batch_verify_parallel, pubkeys_are_equal, signatures_are_equal, derive_batch_coefficients,
    to_span, EthBlsStatus,
};
use eth_bls_kzg::engine::sha256_hash;
use eth_bls_kzg::pool::{Threadpool, CttThreadpool};
use eth_bls_kzg::halo2_zal::CttEngine;
use sha2::Digest;

fn seckey_from_u64(x: u64) -> eth_bls_kzg::codec::EthBlsSecKey {
    let mut b = [0u8; 32];
    b[24..32].copy_from_slice(&x.to_be_bytes());
    deserialize_seckey(&b).expect("nonzero key below the order")
}

#[test]
fn t_example_bls_sig() {
    let raw_sec_str = "Security pb becomes key mgmt pb!".as_bytes();
    let mut raw_sec = [0u8; 32];
    raw_sec.copy_from_slice(raw_sec_str);

    let result = deserialize_seckey(&raw_sec);
    let sec_key = result.unwrap();

    let pub_key = derive_pubkey(sec_key);

    let msg = sha256_hash("Mr F was here".as_bytes(), false);

    // verify
    let sig = sign(sec_key, &msg);
    let result = verify(pub_key, &msg, sig);
    assert!(result.is_ok(), "Failure");

    // batch verify
    let pkeys = [pub_key, pub_key, pub_key];
    let msgs = vec![msg.to_vec(), msg.to_vec(), msg.to_vec()];
    let sigs = [sig, sig, sig];
    // leave zero
    let srb = [0u8; 32];
    let result = batch_verify(&pkeys, &msgs, &sigs, &srb);
    assert!(result.is_ok(), "Failure");
}

#[test]
fn lib_t_threadpool() {
    let tp = CttThreadpool::new(4);
    drop(tp);
}

#[test]
fn t_zal_msm_accel_t_threadpool() {
    let tp = CttEngine::new(4);
    drop(tp);
}

#[test]
fn t_zal_halo2kzg_engine() {
    let tp = eth_bls_kzg::zal_halo2kzg::CttEngine::new(4);
    drop(tp);
}

#[test]
fn t_sign_verify() {
    let sk = seckey_from_u64(7777);
    let pk = derive_pubkey(sk);
    let msg = sha256_hash(b"a message digest", false);
    let sig = sign(sk, &msg);
    assert_eq!(verify(pk, &msg, sig), Ok(true));
}

#[test]
fn t_verify_wrong_message_fails() {
    let sk = seckey_from_u64(7777);
    let pk = derive_pubkey(sk);
    let msg = sha256_hash(b"a message digest", false);
    let other = sha256_hash(b"another message", false);
    let sig = sign(sk, &msg);
    assert_eq!(verify(pk, &other, sig), Err(EthBlsStatus::VerificationFailure));
}

#[test]
fn t_verify_wrong_key_fails() {
    let sk = seckey_from_u64(7777);
    let sk2 = seckey_from_u64(8888);
    let msg = sha256_hash(b"a message digest", false);
    let sig = sign(sk, &msg);
    assert_eq!(
        verify(derive_pubkey(sk2), &msg, sig),
        Err(EthBlsStatus::VerificationFailure)
    );
}

#[test]
fn t_verify_rejects_infinity() {
    let sk = seckey_from_u64(31);
    let msg = [5u8; 32];
    let sig = sign(sk, &msg);
    let mut inf_pk = [0u8; 48];
    inf_pk[0] = 0xc0;
    let pk = deserialize_pubkey_compressed(&inf_pk).expect("identity encoding decodes");
    assert_eq!(verify(pk, &msg, sig), Err(EthBlsStatus::PointAtInfinity));

    let pk2 = derive_pubkey(sk);
    let mut inf_sig = [0u8; 96];
    inf_sig[0] = 0xc0;
    let sig2 = deserialize_signature_compressed(&inf_sig).expect("identity encoding decodes");
    assert_eq!(verify(pk2, &msg, sig2), Err(EthBlsStatus::PointAtInfinity));
}

// Aggregating two secret keys gives the key of the summed scalar, so the
// aggregate signature can be produced with the engine directly.
fn scalar_sum_key(a: u64, b: u64) -> eth_bls_kzg::codec::EthBlsSecKey {
    seckey_from_u64(a + b)
}

#[test]
fn t_fast_aggregate_verify() {
    let msg = sha256_hash(b"one message, many signers", false);
    let sk1 = seckey_from_u64(1001);
    let sk2 = seckey_from_u64(2002);
    let pks = [derive_pubkey(sk1), derive_pubkey(sk2)];
    // signature under the aggregated key sk1 + sk2
    let agg_sig = sign(scalar_sum_key(1001, 2002), &msg);
    assert_eq!(fast_aggregate_verify(&pks, &msg, &agg_sig), Ok(true));

    // a wrong aggregate fails
    let bad_sig = sign(sk1, &msg);
    assert_eq!(
        fast_aggregate_verify(&pks, &msg, &bad_sig),
        Err(EthBlsStatus::VerificationFailure)
    );
}

#[test]
fn t_fast_aggregate_verify_empty_rejected() {
    let msg = [1u8; 32];
    let sk = seckey_from_u64(5);
    let sig = sign(sk, &msg);
    assert_eq!(
        fast_aggregate_verify(&[], &msg, &sig),
        Err(EthBlsStatus::ZeroLengthAggregation)
    );
}

fn g2_add_sigs(
    a: &eth_bls_kzg::codec::EthBlsSignature,
    b: &eth_bls_kzg::codec::EthBlsSignature,
) -> eth_bls_kzg::codec::EthBlsSignature {
    let ab = serialize_signature_compressed(a).unwrap();
    let bb = serialize_signature_compressed(b).unwrap();
    let pa = bls12_381::G2Affine::from_compressed(&ab).unwrap();
    let pb = bls12_381::G2Affine::from_compressed(&bb).unwrap();
    let sum = bls12_381::G2Affine::from(bls12_381::G2Projective::from(pa) + pb);
    deserialize_signature_compressed(&sum.to_compressed()).unwrap()
}

#[test]
fn t_aggregate_verify() {
    let m1 = sha256_hash(b"first message", false).to_vec();
    let m2 = sha256_hash(b"second message", false).to_vec();
    let sk1 = seckey_from_u64(41);
    let sk2 = seckey_from_u64(42);
    let pks = [derive_pubkey(sk1), derive_pubkey(sk2)];
    let s1 = sign(sk1, &m1);
    let s2 = sign(sk2, &m2);
    let agg = g2_add_sigs(&s1, &s2);
    let msgs = vec![m1.clone(), m2.clone()];
    assert_eq!(aggregate_verify(&pks, &msgs, &agg), Ok(true));

    // swapping the messages makes the aggregate invalid
    let swapped = vec![m2, m1];
    assert_eq!(
        aggregate_verify(&pks, &swapped, &agg),
        Err(EthBlsStatus::VerificationFailure)
    );
}

#[test]
fn t_aggregate_verify_empty_rejected() {
    let sk = seckey_from_u64(5);
    let sig = sign(sk, &[9u8; 32]);
    let msgs: Vec<Vec<u8>> = vec![];
    assert_eq!(
        aggregate_verify(&[], &msgs, &sig),
        Err(EthBlsStatus::ZeroLengthAggregation)
    );
}

#[test]
fn t_aggregate_verify_length_mismatch_rejected() {
    let sk = seckey_from_u64(5);
    let pk = derive_pubkey(sk);
    let sig = sign(sk, &[9u8; 32]);
    let msgs = vec![vec![1u8], vec![2u8]];
    assert_eq!(
        aggregate_verify(&[pk], &msgs, &sig),
        Err(EthBlsStatus::InputsLengthsMismatch)
    );
}

#[test]
fn t_batch_verify_all_valid() {
    let mut pks = Vec::new();
    let mut msgs = Vec::new();
    let mut sigs = Vec::new();
    for i in 0..3u64 {
        let sk = seckey_from_u64(100 + i);
        let msg = sha256_hash(&i.to_be_bytes(), false);
        pks.push(derive_pubkey(sk));
        sigs.push(sign(sk, &msg));
        msgs.push(msg.to_vec());
    }
    let seed = [7u8; 32];
    assert_eq!(batch_verify(&pks, &msgs, &sigs, &seed), Ok(true));
}

#[test]
fn t_batch_verify_one_invalid() {
    let mut pks = Vec::new();
    let mut msgs = Vec::new();
    let mut sigs = Vec::new();
    for i in 0..3u64 {
        let sk = seckey_from_u64(100 + i);
        let msg = sha256_hash(&i.to_be_bytes(), false);
        pks.push(derive_pubkey(sk));
        sigs.push(sign(sk, &msg));
        msgs.push(msg.to_vec());
    }
    // corrupt the middle triple: signature over a different message
    sigs[1] = sign(seckey_from_u64(101), b"not the signed message");
    let seed = [7u8; 32];
    assert_eq!(
        batch_verify(&pks, &msgs, &sigs, &seed),
        Err(EthBlsStatus::VerificationFailure)
    );
}

#[test]
fn t_batch_verify_parallel_matches_serial() {
    let tp = Threadpool::new(4);
    let mut pks = Vec::new();
    let mut msgs = Vec::new();
    let mut sigs = Vec::new();
    for i in 0..3u64 {
        let sk = seckey_from_u64(300 + i);
        let msg = sha256_hash(&i.to_le_bytes(), false);
        pks.push(derive_pubkey(sk));
        sigs.push(sign(sk, &msg));
        msgs.push(msg.to_vec());
    }
    let seed = [9u8; 32];
    let serial = batch_verify(&pks, &msgs, &sigs, &seed);
    let parallel = batch_verify_parallel(&tp, &pks, &msgs, &sigs, &seed);
    assert_eq!(serial, parallel);
    assert_eq!(serial, Ok(true));
    assert_eq!(tp.get_private_context(), 4);
}

#[test]
fn t_batch_verify_empty_rejected() {
    let msgs: Vec<Vec<u8>> = vec![];
    let seed = [1u8; 32];
    assert_eq!(
        batch_verify(&[], &msgs, &[], &seed),
        Err(EthBlsStatus::ZeroLengthAggregation)
    );
}

#[test]
fn t_batch_verify_length_mismatch_rejected() {
    let sk = seckey_from_u64(5);
    let pk = derive_pubkey(sk);
    let sig = sign(sk, &[9u8; 32]);
    let msgs = vec![vec![1u8], vec![2u8]];
    let seed = [1u8; 32];
    assert_eq!(
        batch_verify(&[pk], &msgs, &[sig], &seed),
        Err(EthBlsStatus::InputsLengthsMismatch)
    );
}

#[test]
fn t_batch_coefficients_exact() {
    let seed = [0xabu8; 32];
    let coeffs = derive_batch_coefficients(&seed, 3);
    assert_eq!(coeffs.len(), 3);
    // chain element 0 is sha256(seed); each next is sha256(seed || previous)
    let mut chain: [u8; 32] = sha2::Sha256::digest(&seed).into();
    for c in &coeffs {
        let mut expected = [0u8; 32];
        expected[1..32].copy_from_slice(&chain[0..31]);
        assert_eq!(c, &expected);
        assert_ne!(c, &[0u8; 32]);
        let mut next = Vec::new();
        next.extend_from_slice(&seed);
        next.extend_from_slice(&chain);
        chain = sha2::Sha256::digest(&next).into();
    }
    // deterministic in the seed
    assert_eq!(derive_batch_coefficients(&seed, 3), coeffs);
    // a different seed gives different coefficients
    assert_ne!(derive_batch_coefficients(&[0xacu8; 32], 3), coeffs);
}

#[test]
fn t_derive_pubkey_of_one_is_generator() {
    let sk = seckey_from_u64(1);
    let pk = derive_pubkey(sk);
    let bytes = serialize_pubkey_compressed(&pk).unwrap();
    let expected = hex::decode(
        "97f1d3a73197d7942695638c4fa9ac0fc3688c4f9774b905a14e3a3f171bac586c55e83ff97a1aeffb3af00adb22c6bb",
    )
    .unwrap();
    assert_eq!(bytes.to_vec(), expected);
}

#[test]
fn t_pubkeys_and_signatures_equality() {
    let sk1 = seckey_from_u64(12);
    let sk2 = seckey_from_u64(13);
    let msg = [3u8; 32];
    assert!(pubkeys_are_equal(derive_pubkey(sk1), derive_pubkey(sk1)));
    assert!(!pubkeys_are_equal(derive_pubkey(sk1), derive_pubkey(sk2)));
    assert!(signatures_are_equal(sign(sk1, &msg), sign(sk1, &msg)));
    assert!(!signatures_are_equal(sign(sk1, &msg), sign(sk2, &msg)));
}

#[test]
fn t_seckey_codec() {
    // zero is rejected
    assert_eq!(
        deserialize_seckey(&[0u8; 32]).err(),
        Some(ScalarCodecStatus::Zero)
    );
    // the group order itself is too large
    let order = hex::decode("73eda753299d7d483339d80809a1d80553bda402fffe5bfeffffffff00000001")
        .unwrap();
    let mut order_bytes = [0u8; 32];
    order_bytes.copy_from_slice(&order);
    assert_eq!(
        deserialize_seckey(&order_bytes).err(),
        Some(ScalarCodecStatus::ScalarLargerThanCurveOrder)
    );
    // one below the order round-trips
    order_bytes[31] = 0x00;
    let k = deserialize_seckey(&order_bytes).unwrap();
    assert!(validate_seckey(&k).is_ok());
    assert_eq!(serialize_seckey(&k).unwrap(), order_bytes);
}

#[test]
fn t_pubkey_round_trip() {
    let pk = derive_pubkey(seckey_from_u64(424242));
    let bytes = serialize_pubkey_compressed(&pk).unwrap();
    let back = deserialize_pubkey_compressed(&bytes).unwrap();
    assert_eq!(serialize_pubkey_compressed(&back).unwrap(), bytes);
    let unchecked = deserialize_pubkey_compressed_unchecked(&bytes).unwrap();
    assert_eq!(serialize_pubkey_compressed(&unchecked).unwrap(), bytes);
    assert!(validate_pubkey(&pk).is_ok());
}

#[test]
fn t_signature_round_trip() {
    let sig = sign(seckey_from_u64(424242), b"round trip");
    let bytes = serialize_signature_compressed(&sig).unwrap();
    let back = deserialize_signature_compressed(&bytes).unwrap();
    assert_eq!(serialize_signature_compressed(&back).unwrap(), bytes);
    assert!(validate_signature(&sig).is_ok());
}

#[test]
fn t_pubkey_out_of_range_coordinate_rejected() {
    // the base-field modulus itself as x-coordinate, with the compressed bit
    let p = hex::decode(
        "1a0111ea397fe69a4b1ba7b6434bacd764774b84f38512bf6730d2a0f6b0f6241eabfffeb153ffffb9feffffffffaaab",
    )
    .unwrap();
    let mut enc = [0u8; 48];
    enc.copy_from_slice(&p);
    enc[0] |= 0x80;
    assert_eq!(
        deserialize_pubkey_compressed(&enc).err(),
        Some(EccCodecStatus::CoordinateGreaterThanOrEqualModulus)
    );
}

#[test]
fn t_pubkey_invalid_flags_rejected() {
    // compressed bit missing
    let enc = [0u8; 48];
    assert_eq!(
        deserialize_pubkey_compressed(&enc).err(),
        Some(EccCodecStatus::InvalidEncoding)
    );
    // infinity bit with a nonzero coordinate
    let mut enc = [0u8; 48];
    enc[0] = 0xc0;
    enc[47] = 1;
    assert_eq!(
        deserialize_pubkey_compressed(&enc).err(),
        Some(EccCodecStatus::InvalidEncoding)
    );
    // infinity with the sign bit set
    let mut enc = [0u8; 48];
    enc[0] = 0xe0;
    assert_eq!(
        deserialize_pubkey_compressed(&enc).err(),
        Some(EccCodecStatus::InvalidEncoding)
    );
}

#[test]
fn t_pubkey_infinity_accepted() {
    let mut enc = [0u8; 48];
    enc[0] = 0xc0;
    let pk = deserialize_pubkey_compressed(&enc).unwrap();
    assert_eq!(serialize_pubkey_compressed(&pk).unwrap(), enc);
    // but a validated key must not be the identity
    assert_eq!(validate_pubkey(&pk), Err(EccCodecStatus::PointAtInfinity));
}

#[test]
fn t_pubkey_curve_and_subgroup_taxonomy() {
    // Scan small x-coordinates: each either has no curve point (rejected as
    // not on curve) or decodes unchecked; a random curve point is far
    // outside the prime-order subgroup, so the checked path rejects it.
    let mut saw_not_on_curve = false;
    let mut saw_not_in_subgroup = false;
    for x in 0..32u8 {
        let mut enc = [0u8; 48];
        enc[0] = 0x80;
        enc[47] = x;
        match deserialize_pubkey_compressed(&enc) {
            Err(EccCodecStatus::PointNotOnCurve) => {
                saw_not_on_curve = true;
                assert!(deserialize_pubkey_compressed_unchecked(&enc).is_err());
            }
            Err(EccCodecStatus::PointNotInSubgroup) => {
                saw_not_in_subgroup = true;
                // the unchecked fast path accepts it
                assert!(deserialize_pubkey_compressed_unchecked(&enc).is_ok());
            }
            other => panic!("unexpected decode outcome: {:?}", other),
        }
    }
    assert!(saw_not_on_curve);
    assert!(saw_not_in_subgroup);
}

#[test]
fn t_sha256_known_vector() {
    let digest = sha256_hash(b"abc", false);
    let expected =
        hex::decode("ba7816bf8f01cfea414140de5dae2223b00361a396177a9cb410ff61f20015ad").unwrap();
    assert_eq!(digest.to_vec(), expected);
}

#[test]
fn t_to_span() {
    let msgs = vec![vec![1u8, 2, 3], vec![], vec![9u8; 5]];
    let spans = to_span(&msgs);
    assert_eq!(spans.len(), 3);
    for (s, m) in spans.iter().zip(msgs.iter()) {
        assert_eq!(&s.data, m);
        assert_eq!(s.len, m.len());
    }
}

#[test]
fn t_signature_codec_taxonomy() {
    // compressed bit missing
    let enc = [0u8; 96];
    assert_eq!(
        deserialize_signature_compressed(&enc).err(),
        Some(EccCodecStatus::InvalidEncoding)
    );
    // an x-coordinate half at the field modulus is out of range
    let p = hex::decode(
        "1a0111ea397fe69a4b1ba7b6434bacd764774b84f38512bf6730d2a0f6b0f6241eabfffeb153ffffb9feffffffffaaab",
    )
    .unwrap();
    let mut enc = [0u8; 96];
    enc[0] = 0x80;
    enc[48..96].copy_from_slice(&p);
    assert_eq!(
        deserialize_signature_compressed(&enc).err(),
        Some(EccCodecStatus::CoordinateGreaterThanOrEqualModulus)
    );
    // the identity encoding decodes, and validation flags it
    let mut inf = [0u8; 96];
    inf[0] = 0xc0;
    let sig = deserialize_signature_compressed(&inf).unwrap();
    assert_eq!(validate_signature(&sig), Err(EccCodecStatus::PointAtInfinity));
}
