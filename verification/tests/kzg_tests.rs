use eth_bls_kzg::kzg::{EthKzgContext, EthKzgStatus, TrustedSetupStatus};
use eth_bls_kzg::pool::Threadpool;
use sha2::Digest;

// ---------------------------------------------------------------------
// Setup-file generation.
// ---------------------------------------------------------------------

const OMEGA_4096_HEX: &str = "564c0a11a0f704f4fc3e8acfe0f8245f0ad1347b378fbf96e206da11a5d36306";

fn scalar_from_be_hex(h: &str) -> bls12_381::Scalar {
    let bytes = hex::decode(h).unwrap();
    let mut le = [0u8; 32];
    le.copy_from_slice(&bytes);
    le.reverse();
    bls12_381::Scalar::from_bytes(&le).unwrap()
}

fn scalar_to_be(s: &bls12_381::Scalar) -> [u8; 32] {
    let mut b = s.to_bytes();
    b.reverse();
    b
}

/// A structurally valid full-size setup.  The first basis point is the
/// generator and the rest are the identity (a valid subgroup point), so
/// parsing, validation, and operations on sparse blobs behave as over any
/// setup while the file stays cheap to produce.  The second group carries
/// the generator and a known secret multiple of it.
fn full_size_setup_content(tau: u64) -> Vec<u8> {
    let g1 = hex::encode(bls12_381::G1Affine::generator().to_compressed());
    let mut g1_inf = [0u8; 48];
    g1_inf[0] = 0xc0;
    let g1_inf = hex::encode(g1_inf);
    let h = bls12_381::G2Projective::generator();
    let g2 = hex::encode(bls12_381::G2Affine::generator().to_compressed());
    let tau_h = hex::encode(bls12_381::G2Affine::from(h * bls12_381::Scalar::from(tau)).to_compressed());
    let mut out = String::new();
    out.push_str("4096\n65\n");
    out.push_str(&g1);
    out.push('\n');
    for _ in 1..4096 {
        out.push_str(&g1_inf);
        out.push('\n');
    }
    out.push_str(&g2);
    out.push('\n');
    out.push_str(&tau_h);
    out.push('\n');
    for _ in 2..65 {
        out.push_str(&g2);
        out.push('\n');
    }
    out.into_bytes()
}

/// A mathematically consistent setup over a small domain: the file holds
/// the Lagrange-basis points in natural root order (as a ceremony file
/// does; the loader permutes basis and domain together into bit-reversed
/// order), and the second-group points are the generator and its secret
/// multiple.
fn consistent_setup_content(log_n: usize, tau: u64) -> Vec<u8> {
    let n = 1usize << log_n;
    let tau = bls12_381::Scalar::from(tau);
    // domain generator: square the full-domain generator down
    let mut omega = scalar_from_be_hex(OMEGA_4096_HEX);
    for _ in 0..(12 - log_n) {
        omega = omega * omega;
    }
    let mut roots = Vec::with_capacity(n);
    let mut cur = bls12_381::Scalar::one();
    for _ in 0..n {
        roots.push(cur);
        cur *= omega;
    }
    // L_i(tau) = (tau^n - 1) * root_i / (n * (tau - root_i))
    let mut tau_n = tau;
    for _ in 0..log_n {
        tau_n = tau_n * tau_n;
    }
    let z_tau = tau_n - bls12_381::Scalar::one();
    let n_scalar = bls12_381::Scalar::from(n as u64);
    let g = bls12_381::G1Projective::generator();
    let h = bls12_381::G2Projective::generator();
    let mut out = String::new();
    out.push_str(&format!("{}\n2\n", n));
    for i in 0..n {
        let li = z_tau * roots[i] * (n_scalar * (tau - roots[i])).invert().unwrap();
        let p = bls12_381::G1Affine::from(g * li);
        out.push_str(&hex::encode(p.to_compressed()));
        out.push('\n');
    }
    out.push_str(&hex::encode(bls12_381::G2Affine::generator().to_compressed()));
    out.push('\n');
    out.push_str(&hex::encode(bls12_381::G2Affine::from(h * tau).to_compressed()));
    out.push('\n');
    out.into_bytes()
}

// ---------------------------------------------------------------------
// Lifecycle.
// ---------------------------------------------------------------------

#[test]
fn t_smoke_load_trusted_setup() {
    let content = full_size_setup_content(424242);
    let _ctx = EthKzgContext::load_trusted_setup(&content)
        .expect("Trusted setup should be loaded without error.");
}

#[test]
fn t_load_rejects_malformed_setup() {
    // not enough lines
    assert_eq!(
        EthKzgContext::load_trusted_setup(b"4096").err(),
        Some(TrustedSetupStatus::InvalidFile)
    );
    // a count that is not a power of two
    assert_eq!(
        EthKzgContext::load_trusted_setup(b"3\n2\naa\nbb\ncc\ndd\nee").err(),
        Some(TrustedSetupStatus::InvalidFile)
    );
    // well-formed counts but truncated body
    assert_eq!(
        EthKzgContext::load_trusted_setup(b"1\n2\n00").err(),
        Some(TrustedSetupStatus::InvalidFile)
    );
    // non-hex garbage in a point line
    let mut content = consistent_setup_content(2, 1234567);
    content[10] = b'z';
    assert_eq!(
        EthKzgContext::load_trusted_setup(&content).err(),
        Some(TrustedSetupStatus::InvalidFile)
    );
}

#[test]
fn t_builder_requires_setup() {
    let r = EthKzgContext::builder().build();
    assert_eq!(r.err(), Some(TrustedSetupStatus::MissingOrInaccessibleFile));
}

#[test]
fn t_builder_with_threadpool() {
    let tp = Threadpool::new(2);
    let content = consistent_setup_content(3, 42);
    let ctx = EthKzgContext::builder()
        .load_trusted_setup(&content)
        .expect("loads")
        .set_threadpool(&tp)
        .build()
        .expect("builds");
    drop(ctx);
}

// ---------------------------------------------------------------------
// Polynomial-level commitment and opening.
// ---------------------------------------------------------------------

fn small_poly(n: usize) -> Vec<[u8; 32]> {
    (0..n)
        .map(|i| scalar_to_be(&bls12_381::Scalar::from((i * i + 3) as u64)))
        .collect()
}

#[test]
fn t_poly_commit_proof_verify_outside_domain() {
    let content = consistent_setup_content(3, 987654321);
    let ctx = EthKzgContext::load_trusted_setup(&content).unwrap();
    let evals = small_poly(8);
    let commitment = ctx.commit_polynomial(&evals).unwrap();
    let z = scalar_to_be(&bls12_381::Scalar::from(123456789));
    let (proof, y) = ctx.compute_proof_at(&evals, &z).unwrap();
    assert_eq!(ctx.verify_kzg_proof(&commitment, &z, &y, &proof), Ok(true));
    // a wrong claimed evaluation is a clean "false", not an error
    let wrong_y = scalar_to_be(&bls12_381::Scalar::from(1));
    assert_eq!(
        ctx.verify_kzg_proof(&commitment, &z, &wrong_y, &proof),
        Ok(false)
    );
}

#[test]
fn t_poly_commit_proof_verify_in_domain() {
    let content = consistent_setup_content(3, 987654321);
    let ctx = EthKzgContext::load_trusted_setup(&content).unwrap();
    let evals = small_poly(8);
    // the challenge is the sixth power of the domain generator; the domain
    // is held in bit-reversed index order, so it sits at index 3
    // (six is 110 in binary, reversed 011)
    let mut omega = scalar_from_be_hex(OMEGA_4096_HEX);
    for _ in 0..9 {
        omega = omega * omega;
    }
    let mut z = bls12_381::Scalar::one();
    for _ in 0..6 {
        z *= omega;
    }
    let zb = scalar_to_be(&z);
    let commitment = ctx.commit_polynomial(&evals).unwrap();
    let (proof, y) = ctx.compute_proof_at(&evals, &zb).unwrap();
    // evaluation at a domain point is the stored evaluation
    assert_eq!(y, evals[3]);
    assert_eq!(ctx.verify_kzg_proof(&commitment, &zb, &y, &proof), Ok(true));
}

#[test]
fn t_poly_commitment_deterministic() {
    let content = consistent_setup_content(3, 555);
    let ctx = EthKzgContext::load_trusted_setup(&content).unwrap();
    let evals = small_poly(8);
    let c1 = ctx.commit_polynomial(&evals).unwrap();
    let c2 = ctx.commit_polynomial(&evals).unwrap();
    assert_eq!(c1, c2);
}

#[test]
fn t_zero_poly_commitment_is_identity() {
    let content = consistent_setup_content(3, 555);
    let ctx = EthKzgContext::load_trusted_setup(&content).unwrap();
    let evals = vec![[0u8; 32]; 8];
    let c = ctx.commit_polynomial(&evals).unwrap();
    let mut expected = [0u8; 48];
    expected[0] = 0xc0;
    assert_eq!(c, expected);
}

#[test]
fn t_poly_rejects_bad_input() {
    let content = consistent_setup_content(3, 555);
    let ctx = EthKzgContext::load_trusted_setup(&content).unwrap();
    // wrong length
    let short = small_poly(4);
    assert_eq!(
        ctx.commit_polynomial(&short).err(),
        Some(EthKzgStatus::InputsLengthsMismatch)
    );
    // non-canonical evaluation
    let mut evals = small_poly(8);
    evals[2] = [0xffu8; 32];
    assert_eq!(
        ctx.commit_polynomial(&evals).err(),
        Some(EthKzgStatus::ScalarLargerThanCurveOrder)
    );
    // malformed commitment encoding in verification
    let z = scalar_to_be(&bls12_381::Scalar::from(5));
    let y = scalar_to_be(&bls12_381::Scalar::from(6));
    let bad_point = [0u8; 48];
    let ok_point = {
        let mut p = [0u8; 48];
        p[0] = 0xc0;
        p
    };
    assert_eq!(
        ctx.verify_kzg_proof(&bad_point, &z, &y, &ok_point).err(),
        Some(EthKzgStatus::EccInvalidEncoding)
    );
}

// ---------------------------------------------------------------------
// Blob-level operations (fixed 4096-element domain).
// ---------------------------------------------------------------------

#[test]
fn t_blob_zero_end_to_end() {
    let content = full_size_setup_content(424242);
    let ctx = EthKzgContext::load_trusted_setup(&content).unwrap();
    let blob = vec![0u8; 131072];
    let blob: &[u8; 131072] = blob.as_slice().try_into().unwrap();
    // the commitment to the zero polynomial is the identity point
    let commitment = ctx.blob_to_kzg_commitment(blob).unwrap();
    let mut expected = [0u8; 48];
    expected[0] = 0xc0;
    assert_eq!(commitment, expected);
    // its blob proof verifies
    let proof = ctx.compute_blob_kzg_proof(blob, &commitment).unwrap();
    assert_eq!(
        ctx.verify_blob_kzg_proof(blob, &commitment, &proof),
        Ok(true)
    );
}

#[test]
fn t_blob_rejects_non_canonical_chunk() {
    let content = full_size_setup_content(424242);
    let ctx = EthKzgContext::load_trusted_setup(&content).unwrap();
    let mut blob = vec![0u8; 131072];
    for b in blob[64..96].iter_mut() {
        *b = 0xff;
    }
    let blob: &[u8; 131072] = blob.as_slice().try_into().unwrap();
    assert_eq!(
        ctx.blob_to_kzg_commitment(blob).err(),
        Some(EthKzgStatus::ScalarLargerThanCurveOrder)
    );
}

#[test]
fn t_blob_batch_and_parallel() {
    let tp = Threadpool::new(3);
    let content = full_size_setup_content(424242);
    let ctx = EthKzgContext::builder()
        .load_trusted_setup(&content)
        .unwrap()
        .set_threadpool(&tp)
        .build()
        .unwrap();
    let blob = vec![0u8; 131072];
    let blob: &[u8; 131072] = blob.as_slice().try_into().unwrap();
    let commitment = ctx.blob_to_kzg_commitment_parallel(blob).unwrap();
    let proof = ctx.compute_blob_kzg_proof_parallel(blob, &commitment).unwrap();
    assert_eq!(
        ctx.verify_blob_kzg_proof_parallel(blob, &commitment, &proof),
        Ok(true)
    );
    let seed = [3u8; 32];
    let blobs = [*blob, *blob];
    let commitments = [commitment, commitment];
    let proofs = [proof, proof];
    let serial = ctx.verify_blob_kzg_proof_batch(&blobs, &commitments, &proofs, &seed);
    let parallel =
        ctx.verify_blob_kzg_proof_batch_parallel(&blobs, &commitments, &proofs, &seed);
    assert_eq!(serial, Ok(true));
    assert_eq!(serial, parallel);
    // the empty batch verifies vacuously
    assert_eq!(
        ctx.verify_blob_kzg_proof_batch(&[], &[], &[], &seed),
        Ok(true)
    );
    // mismatched lengths are rejected before anything is computed
    assert_eq!(
        ctx.verify_blob_kzg_proof_batch(&blobs, &commitments[..1], &proofs, &seed)
            .err(),
        Some(EthKzgStatus::InputsLengthsMismatch)
    );
}

#[test]
fn t_compute_kzg_proof_rejects_non_canonical_challenge() {
    let content = full_size_setup_content(424242);
    let ctx = EthKzgContext::load_trusted_setup(&content).unwrap();
    let blob = vec![0u8; 131072];
    let blob: &[u8; 131072] = blob.as_slice().try_into().unwrap();
    let z = [0xffu8; 32];
    assert_eq!(
        ctx.compute_kzg_proof(blob, &z).err(),
        Some(EthKzgStatus::ScalarLargerThanCurveOrder)
    );
}

/// The challenge bound to a blob and commitment, recomputed outside the
/// library: sha256 of the domain tag, the element count as sixteen
/// big-endian bytes, the blob and the commitment, reduced into the field.
fn expected_challenge(blob: &[u8], commitment: &[u8; 48]) -> bls12_381::Scalar {
    let mut data = Vec::new();
    data.extend_from_slice(b"FSBLOBVERIFY_V1_");
    data.extend_from_slice(&(4096u128).to_be_bytes());
    data.extend_from_slice(blob);
    data.extend_from_slice(commitment);
    let digest: [u8; 32] = sha2::Sha256::digest(&data).into();
    let mut wide = [0u8; 64];
    for (i, b) in digest.iter().enumerate() {
        wide[31 - i] = *b;
    }
    bls12_381::Scalar::from_bytes_wide(&wide)
}

#[test]
fn t_blob_challenge_binding() {
    // setup with a known secret: the second-group points are H and tau*H
    let tau = bls12_381::Scalar::from(424242);
    let content = full_size_setup_content(424242);
    let ctx = EthKzgContext::load_trusted_setup(&content).unwrap();
    let blob = vec![0u8; 131072];
    let blob: &[u8; 131072] = blob.as_slice().try_into().unwrap();
    // claim the generator as commitment; the zero blob evaluates to zero
    // everywhere, so the opening equation reads e(G, H) == e(Q, (tau-z)H)
    // and holds exactly for Q = (tau - z)^-1 * G, with z the challenge the
    // library derives.  Verification succeeding pins that derivation.
    let commitment = bls12_381::G1Affine::generator().to_compressed();
    let z = expected_challenge(blob.as_slice(), &commitment);
    let q = bls12_381::G1Affine::from(
        bls12_381::G1Projective::generator() * (tau - z).invert().unwrap(),
    )
    .to_compressed();
    assert_eq!(
        ctx.verify_blob_kzg_proof(blob, &commitment, &q),
        Ok(true)
    );
    // any other proof point fails the equation
    assert_eq!(
        ctx.verify_blob_kzg_proof(blob, &commitment, &commitment),
        Ok(false)
    );
}

#[test]
fn t_compute_kzg_proof_zero_blob() {
    let content = full_size_setup_content(424242);
    let ctx = EthKzgContext::load_trusted_setup(&content).unwrap();
    let blob = vec![0u8; 131072];
    let blob: &[u8; 131072] = blob.as_slice().try_into().unwrap();
    let z = scalar_to_be(&bls12_381::Scalar::from(1357924680));
    let (proof, y) = ctx.compute_kzg_proof(blob, &z).unwrap();
    // the zero polynomial evaluates to zero and its quotient is zero
    assert_eq!(y, [0u8; 32]);
    let mut identity = [0u8; 48];
    identity[0] = 0xc0;
    assert_eq!(proof, identity);
    // the parallel twin agrees
    let tp = Threadpool::new(2);
    let ctx2 = EthKzgContext::builder()
        .load_trusted_setup(&content)
        .unwrap()
        .set_threadpool(&tp)
        .build()
        .unwrap();
    assert_eq!(ctx2.compute_kzg_proof_parallel(blob, &z).unwrap(), (proof, y));
}
