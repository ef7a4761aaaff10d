//! KZG polynomial commitments for blob proofs: trusted-setup lifecycle,
//! commitment computation, opening-proof computation and verification,
//! and single and batch blob-proof verification, each with a serial and
//! a parallel path.
//!
//! A polynomial of degree below the domain size is held in evaluation
//! form over the domain of roots of unity; a blob is its byte encoding,
//! one canonical 32-byte scalar per evaluation.  Commitments and proofs
//! are 48-byte compressed points.

use vstd::prelude::*;
use vstd::arithmetic::power::pow;
use vstd::arithmetic::div_mod::lemma_small_mod;
use crate::encoding::{
    be_nat, nat_to_be, is_canonical_scalar, bls_r, check_canonical_scalar, be_is_zero,
    lemma_be_nat_zero, lemma_nat_to_be_of_be_nat,
};
use crate::engine::{
    valid_g1, valid_g2, is_g1_infinity,
    spec_g1_add, spec_g1_neg, spec_g1_mul, spec_g2_add, spec_g2_neg, spec_g2_mul,
    spec_sha256, spec_fr_inv, spec_multi_pairing_one,
    fr_add_bytes, fr_sub_bytes, fr_mul_bytes, fr_reduce_bytes,
    g1_generator_bytes, g2_generator_bytes,
    fr_add, fr_sub, fr_mul, fr_inv, fr_reduce,
    g1_add, g1_neg, g1_mul, g1_generator, g2_add, g2_neg, g2_mul, g2_generator,
    multi_pairing_is_one, sha256_hash,
    lemma_r_large, lemma_mod_r_canonical,
};
use crate::codec::{
    EccCodecStatus, spec_deserialize_pubkey, spec_deserialize_signature,
    deserialize_pubkey_compressed, deserialize_signature_compressed,
};
use crate::setup_format::{
    spec_lines, byte_views, split_lines, hex_decode, hex_line_48, hex_line_96, all_hex,
    dec_line_ok, dec_val, parse_count,
};
use crate::pool::Threadpool;
use crate::bls::{scalar_one_bytes, spec_batch_coeff, derive_batch_coefficients};

verus! {

/// Status of a KZG protocol call.
#[derive(Clone, Copy, Debug, PartialEq, Eq, Structural)]
pub enum EthKzgStatus {
    VerificationFailure,
    ScalarLargerThanCurveOrder,
    EccInvalidEncoding,
    EccCoordinateGreaterThanOrEqualModulus,
    EccPointNotOnCurve,
    EccPointNotInSubgroup,
    EccPointAtInfinity,
    InputsLengthsMismatch,
}

/// Status of loading a trusted setup.
#[derive(Clone, Copy, Debug, PartialEq, Eq, Structural)]
pub enum TrustedSetupStatus {
    MissingOrInaccessibleFile,
    InvalidFile,
}

/// The codec taxonomy carried into the KZG status space.
pub open spec fn spec_ecc_to_kzg(e: EccCodecStatus) -> EthKzgStatus {
    match e {
        EccCodecStatus::InvalidEncoding => EthKzgStatus::EccInvalidEncoding,
        EccCodecStatus::CoordinateGreaterThanOrEqualModulus => EthKzgStatus::EccCoordinateGreaterThanOrEqualModulus,
        EccCodecStatus::PointNotOnCurve => EthKzgStatus::EccPointNotOnCurve,
        EccCodecStatus::PointNotInSubgroup => EthKzgStatus::EccPointNotInSubgroup,
        EccCodecStatus::PointAtInfinity => EthKzgStatus::EccPointAtInfinity,
    }
}

fn ecc_to_kzg(e: EccCodecStatus) -> (r: EthKzgStatus)
    ensures
        r == spec_ecc_to_kzg(e),
{
    match e {
        EccCodecStatus::InvalidEncoding => EthKzgStatus::EccInvalidEncoding,
        EccCodecStatus::CoordinateGreaterThanOrEqualModulus => EthKzgStatus::EccCoordinateGreaterThanOrEqualModulus,
        EccCodecStatus::PointNotOnCurve => EthKzgStatus::EccPointNotOnCurve,
        EccCodecStatus::PointNotInSubgroup => EthKzgStatus::EccPointNotInSubgroup,
        EccCodecStatus::PointAtInfinity => EthKzgStatus::EccPointAtInfinity,
    }
}

// ---------------------------------------------------------------------
// Scalar and point constants and views.
// ---------------------------------------------------------------------

/// The canonical encoding of the scalar zero.
pub open spec fn scalar_zero_bytes() -> Seq<u8> {
    nat_to_be(0, 32)
}

/// The canonical compressed encoding of the identity point of the
/// 48-byte group.
pub open spec fn g1_identity_bytes() -> Seq<u8> {
    Seq::new(48, |i: int| if i == 0 { 0xc0u8 } else { 0u8 })
}

/// The primitive root of unity for the full blob domain (the generator 7
/// raised to the (order - 1) / 4096 power), big-endian.
pub open spec fn omega_4096_bytes() -> Seq<u8> {
    seq![
        0x56u8, 0x4cu8, 0x0au8, 0x11u8, 0xa0u8, 0xf7u8, 0x04u8, 0xf4u8,
        0xfcu8, 0x3eu8, 0x8au8, 0xcfu8, 0xe0u8, 0xf8u8, 0x24u8, 0x5fu8,
        0x0au8, 0xd1u8, 0x34u8, 0x7bu8, 0x37u8, 0x8fu8, 0xbfu8, 0x96u8,
        0xe2u8, 0x06u8, 0xdau8, 0x11u8, 0xa5u8, 0xd3u8, 0x63u8, 0x06u8,
    ]
}

/// The views of a list of 32-byte scalars.
pub open spec fn views32(s: Seq<[u8; 32]>) -> Seq<Seq<u8>> {
    Seq::new(s.len(), |i: int| s[i]@)
}

/// The views of a list of 48-byte points.
pub open spec fn views48(s: Seq<[u8; 48]>) -> Seq<Seq<u8>> {
    Seq::new(s.len(), |i: int| s[i]@)
}

/// The views of a list of 96-byte points.
pub open spec fn views96(s: Seq<[u8; 96]>) -> Seq<Seq<u8>> {
    Seq::new(s.len(), |i: int| s[i]@)
}

fn scalar_zero() -> (r: [u8; 32])
    ensures
        r@ == scalar_zero_bytes(),
        is_canonical_scalar(r@),
        be_nat(r@) == 0,
{
    let r = [0u8; 32];
    proof {
        lemma_be_nat_zero(r@);
        lemma_nat_to_be_of_be_nat(r@);
        lemma_r_large();
    }
    r
}

fn scalar_one() -> (r: [u8; 32])
    ensures
        r@ == scalar_one_bytes(),
        is_canonical_scalar(r@),
        be_nat(r@) == 1,
{
    let mut r = [0u8; 32];
    r[31] = 1u8;
    proof {
        crate::encoding::lemma_be_nat_split(r@, 31);
        lemma_be_nat_zero(r@.take(31));
        assert(forall|j: int| 0 <= j < 31 ==> r@.take(31)[j] == 0u8);
        assert(r@.skip(31) =~= seq![1u8]);
        assert(seq![1u8].drop_last() =~= Seq::<u8>::empty());
        assert(be_nat(Seq::<u8>::empty()) == 0);
        assert(be_nat(r@) == 1);
        lemma_nat_to_be_of_be_nat(r@);
        lemma_r_large();
    }
    r
}

pub(crate) fn g1_identity() -> (r: [u8; 48])
    ensures
        r@ == g1_identity_bytes(),
        valid_g1(r@),
        is_g1_infinity(r@),
{
    let mut r = [0u8; 48];
    r[0] = 0xc0u8;
    proof {
        assert(r@ =~= g1_identity_bytes());
    }
    r
}

fn omega_4096() -> (r: [u8; 32])
    ensures
        r@ == omega_4096_bytes(),
        is_canonical_scalar(r@),
        be_nat(r@) != 0,
{
    let r: [u8; 32] = [
        0x56u8, 0x4cu8, 0x0au8, 0x11u8, 0xa0u8, 0xf7u8, 0x04u8, 0xf4u8,
        0xfcu8, 0x3eu8, 0x8au8, 0xcfu8, 0xe0u8, 0xf8u8, 0x24u8, 0x5fu8,
        0x0au8, 0xd1u8, 0x34u8, 0x7bu8, 0x37u8, 0x8fu8, 0xbfu8, 0x96u8,
        0xe2u8, 0x06u8, 0xdau8, 0x11u8, 0xa5u8, 0xd3u8, 0x63u8, 0x06u8,
    ];
    proof {
        assert(r@ =~= omega_4096_bytes());
        let s = crate::encoding::bls_r_bytes();
        assert(r@[0] < s[0]);
        assert(r@.take(0) =~= s.take(0));
        crate::encoding::lemma_be_nat_lt(r@, s, 0);
        assert(be_nat(r@) != 0) by {
            lemma_be_nat_zero(r@);
        }
    }
    r
}

// ---------------------------------------------------------------------
// Linear combination of points by scalars.
// ---------------------------------------------------------------------

/// The sum of the scalar multiples of the points, skipping zero scalars
/// (a zero coefficient contributes the identity).
pub open spec fn spec_g1_lincomb(points: Seq<Seq<u8>>, scalars: Seq<Seq<u8>>) -> Seq<u8>
    decreases scalars.len(),
{
    if scalars.len() == 0 {
        g1_identity_bytes()
    } else {
        let prev = spec_g1_lincomb(points.drop_last(), scalars.drop_last());
        if be_nat(scalars.last()) == 0 {
            prev
        } else {
            spec_g1_add(prev, spec_g1_mul(points.last(), scalars.last()))
        }
    }
}

/// Computes the linear combination of points by scalars.
fn g1_lincomb(points: &Vec<[u8; 48]>, scalars: &Vec<[u8; 32]>) -> (r: [u8; 48])
    requires
        points@.len() == scalars@.len(),
        forall|i: int| 0 <= i < points@.len() ==> valid_g1(#[trigger] points@[i]@),
        forall|i: int| 0 <= i < scalars@.len() ==> is_canonical_scalar(#[trigger] scalars@[i]@),
    ensures
        r@ == spec_g1_lincomb(views48(points@), views32(scalars@)),
        valid_g1(r@),
{
    let ghost pv = views48(points@);
    let ghost sv = views32(scalars@);
    let n = points.len();
    let mut acc = g1_identity();
    proof {
        assert(pv.take(0) =~= Seq::<Seq<u8>>::empty());
        assert(sv.take(0) =~= Seq::<Seq<u8>>::empty());
    }
    for i in 0..n
        invariant
            n == points@.len() && n == scalars@.len(),
            pv == views48(points@) && sv == views32(scalars@),
            forall|j: int| 0 <= j < n ==> valid_g1(#[trigger] points@[j]@),
            forall|j: int| 0 <= j < n ==> is_canonical_scalar(#[trigger] scalars@[j]@),
            valid_g1(acc@),
            acc@ == spec_g1_lincomb(pv.take(i as int), sv.take(i as int)),
    {
        proof {
            assert(pv.take(i + 1).drop_last() =~= pv.take(i as int));
            assert(sv.take(i + 1).drop_last() =~= sv.take(i as int));
        }
        if !be_is_zero(scalars[i].as_slice()) {
            let term = g1_mul(&points[i], &scalars[i]);
            acc = g1_add(&acc, &term);
        }
    }
    proof {
        assert(pv.take(n as int) =~= pv);
        assert(sv.take(n as int) =~= sv);
    }
    acc
}

// ---------------------------------------------------------------------
// Blobs.
// ---------------------------------------------------------------------

/// Chunk `i` of a blob: its 32-byte scalar slice.
pub open spec fn blob_chunk(blob: Seq<u8>, i: int) -> Seq<u8> {
    blob.subrange(32 * i, 32 * i + 32)
}

/// The chunks of a blob.
pub open spec fn blob_chunks(blob: Seq<u8>) -> Seq<Seq<u8>> {
    Seq::new(blob.len() / 32, |i: int| blob_chunk(blob, i))
}

/// Every chunk of the blob is a canonical scalar.
pub open spec fn blob_ok(blob: Seq<u8>) -> bool {
    forall|i: int| 0 <= i < blob.len() / 32 ==> is_canonical_scalar(#[trigger] blob_chunk(blob, i))
}

/// Splits a blob into validated scalar chunks; fails exactly when some
/// chunk is at or above the group order.
fn blob_to_chunks(blob: &[u8; 131072]) -> (r: Option<Vec<[u8; 32]>>)
    ensures
        r is Some <==> blob_ok(blob@),
        r is Some ==> views32(r->0@) == blob_chunks(blob@),
        r is Some ==> r->0@.len() == 4096,
        r is Some ==> forall|i: int| 0 <= i < r->0@.len() ==> is_canonical_scalar(
            #[trigger] r->0@[i]@,
        ),
{
    let mut out: Vec<[u8; 32]> = Vec::new();
    for i in 0..4096usize
        invariant
            out@.len() == i,
            forall|j: int| 0 <= j < i ==> #[trigger] out@[j]@ == blob_chunk(blob@, j),
            forall|j: int| 0 <= j < i ==> is_canonical_scalar(#[trigger] out@[j]@),
    {
        let mut chunk = [0u8; 32];
        for k in 0..32usize
            invariant
                i < 4096,
                forall|j: int| 0 <= j < k ==> chunk@[j] == blob@[32 * i + j],
        {
            chunk[k] = blob[32 * i + k];
        }
        proof {
            assert(chunk@ =~= blob_chunk(blob@, i as int));
        }
        if !check_canonical_scalar(&chunk) {
            proof {
                assert(!is_canonical_scalar(blob_chunk(blob@, i as int)));
            }
            return None;
        }
        out.push(chunk);
    }
    proof {
        assert(views32(out@) =~= blob_chunks(blob@));
        assert forall|j: int| 0 <= j < blob@.len() / 32 implies is_canonical_scalar(
            #[trigger] blob_chunk(blob@, j),
        ) by {
            assert(out@[j]@ == blob_chunk(blob@, j));
        }
    }
    Some(out)
}

// ---------------------------------------------------------------------
// The evaluation domain.
// ---------------------------------------------------------------------

/// Power `i` of the domain generator.
pub open spec fn root_pow(omega: Seq<u8>, i: nat) -> Seq<u8>
    decreases i,
{
    if i == 0 {
        scalar_one_bytes()
    } else {
        fr_mul_bytes(root_pow(omega, (i - 1) as nat), omega)
    }
}

/// The bit-reversal of `i` within `k` bits.
pub open spec fn bit_rev(i: nat, k: nat) -> nat
    decreases k,
{
    if k == 0 {
        0
    } else {
        ((i % 2) * pow(2, (k - 1) as nat) + bit_rev(i / 2, (k - 1) as nat)) as nat
    }
}

proof fn lemma_bit_rev_bound(i: nat, k: nat)
    ensures
        bit_rev(i, k) < pow(2, k),
    decreases k,
{
    if k == 0 {
        vstd::arithmetic::power::lemma_pow0(2);
    } else {
        lemma_bit_rev_bound(i / 2, (k - 1) as nat);
        vstd::arithmetic::power::lemma_pow1(2);
        vstd::arithmetic::power::lemma_pow_adds(2, 1, (k - 1) as nat);
        assert(pow(2, k) == 2 * pow(2, (k - 1) as nat));
        assert((i % 2) * pow(2, (k - 1) as nat) + bit_rev(i / 2, (k - 1) as nat) < 2 * pow(
            2,
            (k - 1) as nat,
        )) by (nonlinear_arith)
            requires
                i % 2 < 2,
                bit_rev(i / 2, (k - 1) as nat) < pow(2, (k - 1) as nat),
                pow(2, (k - 1) as nat) > 0,
        ;
    }
}

/// Computes the bit-reversal of an index within `k` bits.
fn bit_rev_exec(i: usize, k: usize) -> (r: usize)
    requires
        k <= 12,
    ensures
        r == bit_rev(i as nat, k as nat),
        r < pow(2, k as nat),
{
    let mut x = i;
    let mut r: usize = 0;
    proof {
        vstd::arithmetic::power::lemma_pow0(2);
    }
    for t in 0..k
        invariant
            k <= 12,
            r < pow(2, t as nat),
            pow(2, t as nat) <= 4096,
            bit_rev(i as nat, k as nat) == r * pow(2, (k - t) as nat) + bit_rev(
                x as nat,
                (k - t) as nat,
            ),
    {
        proof {
            reveal_with_fuel(pow, 14);
            vstd::arithmetic::power::lemma_pow_increases(2, (t + 1) as nat, 12);
            assert(pow(2, 12) == 4096);
            vstd::arithmetic::power::lemma_pow1(2);
            vstd::arithmetic::power::lemma_pow_adds(2, 1, (k - t - 1) as nat);
            vstd::arithmetic::power::lemma_pow_adds(2, 1, t as nat);
            assert(bit_rev(x as nat, (k - t) as nat) == (x as nat % 2) * pow(2, (k - t - 1) as nat)
                + bit_rev(x as nat / 2, (k - t - 1) as nat));
            assert(pow(2, (k - t) as nat) == 2 * pow(2, (k - t - 1) as nat));
            assert((r * 2 + x as nat % 2) * pow(2, (k - t - 1) as nat) == r * (2 * pow(
                2,
                (k - t - 1) as nat,
            )) + (x as nat % 2) * pow(2, (k - t - 1) as nat)) by (nonlinear_arith);
        }
        r = r * 2 + (x % 2);
        x = x / 2;
    }
    proof {
        assert(bit_rev(x as nat, 0) == 0);
        vstd::arithmetic::power::lemma_pow1(2);
    }
    r
}

/// Reorders a table of `2^k` entries into bit-reversed index order.
fn bit_reverse_permute<T: Copy>(v: &Vec<T>, k: usize) -> (r: Vec<T>)
    requires
        k <= 12,
        v@.len() == pow(2, k as nat),
    ensures
        r@.len() == v@.len(),
        forall|i: int| 0 <= i < v@.len() ==> #[trigger] r@[i] == v@[bit_rev(
            i as nat,
            k as nat,
        ) as int],
{
    let n = v.len();
    let mut out: Vec<T> = Vec::new();
    for i in 0..n
        invariant
            n == v@.len(),
            n == pow(2, k as nat),
            k <= 12,
            out@.len() == i,
            forall|j: int| 0 <= j < i ==> #[trigger] out@[j] == v@[bit_rev(
                j as nat,
                k as nat,
            ) as int],
    {
        let idx = bit_rev_exec(i, k);
        out.push(v[idx]);
    }
    out
}

/// The domain in the protocol's order: entry `i` is the generator raised
/// to the bit-reversal of `i` (the reference blob-commitment protocol
/// pairs blob elements with roots, and setup points, in bit-reversed
/// index order).
pub open spec fn spec_roots(omega: Seq<u8>, n: nat, k: nat) -> Seq<Seq<u8>> {
    Seq::new(n, |i: int| root_pow(omega, bit_rev(i as nat, k)))
}

/// Square `k` times.
pub open spec fn spec_pow_sq(z: Seq<u8>, k: nat) -> Seq<u8>
    decreases k,
{
    if k == 0 {
        z
    } else {
        let p = spec_pow_sq(z, (k - 1) as nat);
        fr_mul_bytes(p, p)
    }
}

/// The exact binary logarithm of `n`, or a negative value if `n` is not
/// a power of two.
pub open spec fn log2_spec(n: nat) -> int
    decreases n,
{
    if n == 0 {
        -1
    } else if n == 1 {
        0
    } else if n % 2 == 1 {
        -1
    } else {
        let r = log2_spec(n / 2);
        if r < 0 {
            -1
        } else {
            1 + r
        }
    }
}

/// Computes the exact binary logarithm of a domain size.
fn log2_exact(n: usize) -> (r: Option<usize>)
    requires
        n <= 4096,
    ensures
        r is Some <==> log2_spec(n as nat) >= 0,
        r is Some ==> r->0 == log2_spec(n as nat) && pow(2, r->0 as nat) == n && r->0 <= 12,
{
    if n == 0 {
        return None;
    }
    let mut m = n;
    let mut k: usize = 0;
    proof {
        vstd::arithmetic::power::lemma_pow0(2);
    }
    while m > 1
        invariant
            1 <= m <= n <= 4096,
            n as int == m as int * pow(2, k as nat),
            k <= 13,
            log2_spec(n as nat) == if log2_spec(m as nat) < 0 {
                -1int
            } else {
                k + log2_spec(m as nat)
            },
        decreases m,
    {
        if m % 2 == 1 {
            return None;
        }
        proof {
            reveal_with_fuel(pow, 14);
            assert(m as int * pow(2, k as nat) >= pow(2, k as nat)) by (nonlinear_arith)
                requires
                    m >= 1,
                    pow(2, k as nat) >= 0,
            ;
            if k >= 13 {
                assert(pow(2, 13) == 8192);
                vstd::arithmetic::power::lemma_pow_increases(2, 13, k as nat);
                assert(false);
            }
            assert(m as int * pow(2, k as nat) == (m as int / 2) * (2 * pow(2, k as nat)))
                by (nonlinear_arith)
                requires
                    m % 2 == 0,
            ;
        }
        m = m / 2;
        k = k + 1;
    }
    proof {
        assert(log2_spec(1nat) == 0);
        assert(m == 1);
        assert(n as int == pow(2, k as nat));
        reveal_with_fuel(pow, 14);
        if k >= 13 {
            assert(pow(2, 13) == 8192);
            vstd::arithmetic::power::lemma_pow_increases(2, 13, k as nat);
            assert(false);
        }
    }
    Some(k)
}

// ---------------------------------------------------------------------
// The context model and type.
// ---------------------------------------------------------------------

/// Spec-level model of a loaded trusted setup.  The basis and the domain
/// are kept in bit-reversed index order, the order in which the protocol
/// pairs them with blob elements.
pub struct KzgModel {
    /// Commitments to the Lagrange basis, entry `i` belonging to the
    /// domain point at entry `i` of `roots`.
    pub g1s: Seq<Seq<u8>>,
    /// Monomial-basis points of the second group; index 1 is the secret
    /// point multiple of that group's generator.
    pub g2s: Seq<Seq<u8>>,
    /// The evaluation domain: powers of the domain generator, in
    /// bit-reversed index order.
    pub roots: Seq<Seq<u8>>,
    /// The domain generator.
    pub omega: Seq<u8>,
    /// The inverse of the domain size in the scalar field.
    pub n_inv: Seq<u8>,
    /// The binary logarithm of the domain size.
    pub log_n: nat,
}

/// A parsed trusted setup.
#[derive(Debug)]
struct ParsedSetup {
    g1_points: Vec<[u8; 48]>,
    g2_points: Vec<[u8; 96]>,
    roots: Vec<[u8; 32]>,
    omega: [u8; 32],
    n_inv: [u8; 32],
    log_n: usize,
}

impl ParsedSetup {
    spec fn model(&self) -> KzgModel {
        KzgModel {
            g1s: views48(self.g1_points@),
            g2s: views96(self.g2_points@),
            roots: views32(self.roots@),
            omega: self.omega@,
            n_inv: self.n_inv@,
            log_n: self.log_n as nat,
        }
    }

    #[verifier::type_invariant]
    spec fn wf(&self) -> bool {
        &&& self.g1_points@.len() == self.roots@.len()
        &&& 1 <= self.g1_points@.len() <= 4096
        &&& self.g2_points@.len() >= 2
        &&& self.g1_points@.len() == pow(2, self.log_n as nat)
        &&& self.log_n <= 12
        &&& (forall|i: int| 0 <= i < self.g1_points@.len() ==> valid_g1(#[trigger] self.g1_points@[i]@))
        &&& (forall|i: int| 0 <= i < self.g2_points@.len() ==> valid_g2(#[trigger] self.g2_points@[i]@))
        &&& is_canonical_scalar(self.omega@)
        &&& (forall|i: int| 0 <= i < self.roots@.len() ==> #[trigger] self.roots@[i]@ == root_pow(
            self.omega@,
            bit_rev(i as nat, self.log_n as nat),
        ))
        &&& (forall|i: int| 0 <= i < self.roots@.len() ==> is_canonical_scalar(
            #[trigger] self.roots@[i]@,
        ))
        &&& is_canonical_scalar(self.n_inv@)
        &&& self.n_inv@ == spec_fr_inv(nat_to_be(self.g1_points@.len() as nat, 32))
    }
}

/// A loaded trusted setup, ready for commitment and proof operations; the
/// only state from which they are callable.  Dropping it releases the
/// setup memory.
#[derive(Debug)]
pub struct EthKzgContext<'tp> {
    setup: ParsedSetup,
    threadpool: Option<&'tp Threadpool>,
}

impl<'tp> View for EthKzgContext<'tp> {
    type V = KzgModel;

    closed spec fn view(&self) -> KzgModel {
        self.setup.model()
    }
}

impl<'tp> EthKzgContext<'tp> {
    /// Whether a worker pool was attached when the context was built.
    pub closed spec fn has_threadpool(&self) -> bool {
        self.threadpool is Some
    }

    /// Whether the context's domain matches the fixed blob size.
    pub open spec fn is_blob_sized(&self) -> bool {
        self@.g1s.len() == 4096
    }
}


// ---------------------------------------------------------------------
// Loading a trusted setup.
// ---------------------------------------------------------------------

/// A usable point line of the first group: hex of a decodable point of
/// the prime-order subgroup (or the identity).
pub open spec fn g1_line_ok(line: Seq<u8>) -> bool {
    line.len() == 96 && all_hex(line) && spec_deserialize_pubkey(hex_decode(line)) is Ok
}

/// A usable point line of the second group.
pub open spec fn g2_line_ok(line: Seq<u8>) -> bool {
    line.len() == 192 && all_hex(line) && spec_deserialize_signature(hex_decode(line)) is Ok
}

/// The model a setup file describes, or the load failure: the reference
/// layout is the count of first-group points, the count of second-group
/// points, then one lowercase-or-uppercase hex point per line.  Loading
/// is all-or-nothing: any malformed line fails the whole load.
pub open spec fn spec_load_trusted_setup(content: Seq<u8>) -> Result<KzgModel, TrustedSetupStatus> {
    let lines = spec_lines(content);
    if lines.len() < 2 {
        Err(TrustedSetupStatus::InvalidFile)
    } else if !dec_line_ok(lines[0]) || !dec_line_ok(lines[1]) {
        Err(TrustedSetupStatus::InvalidFile)
    } else {
        let n1 = dec_val(lines[0]);
        let n2 = dec_val(lines[1]);
        if n1 < 1 || n1 > 4096 || log2_spec(n1) < 0 || n2 < 2 {
            Err(TrustedSetupStatus::InvalidFile)
        } else if lines.len() != 2 + n1 + n2 {
            Err(TrustedSetupStatus::InvalidFile)
        } else if !(forall|i: int| 0 <= i < n1 ==> g1_line_ok(#[trigger] lines[2 + i])) {
            Err(TrustedSetupStatus::InvalidFile)
        } else if !(forall|i: int| 0 <= i < n2 ==> g2_line_ok(#[trigger] lines[2 + n1 + i])) {
            Err(TrustedSetupStatus::InvalidFile)
        } else {
            let k = log2_spec(n1) as nat;
            let omega = spec_pow_sq(omega_4096_bytes(), (12 - k) as nat);
            Ok(
                KzgModel {
                    g1s: Seq::new(n1, |i: int| hex_decode(lines[2 + bit_rev(i as nat, k) as int])),
                    g2s: Seq::new(n2, |i: int| hex_decode(lines[2 + n1 + i])),
                    roots: spec_roots(omega, n1, k),
                    omega,
                    n_inv: spec_fr_inv(nat_to_be(n1, 32)),
                    log_n: k,
                },
            )
        }
    }
}

/// Parses and validates a setup file.
fn parse_setup(content: &[u8]) -> (r: Result<ParsedSetup, TrustedSetupStatus>)
    ensures
        match r {
            Ok(s) => spec_load_trusted_setup(content@) == Ok::<KzgModel, TrustedSetupStatus>(
                s.model(),
            ),
            Err(e) => spec_load_trusted_setup(content@) == Err::<KzgModel, TrustedSetupStatus>(e),
        },
{
    let ghost lines = spec_lines(content@);
    let lv = split_lines(content);
    proof {
        assert(lines.len() == lv@.len());
        assert(forall|i: int| 0 <= i < lv@.len() ==> lines[i] == #[trigger] lv@[i]@);
    }
    if lv.len() < 2 {
        return Err(TrustedSetupStatus::InvalidFile);
    }
    let n1 = match parse_count(&lv[0]) {
        Some(v) => v,
        None => {
            return Err(TrustedSetupStatus::InvalidFile);
        },
    };
    let n2 = match parse_count(&lv[1]) {
        Some(v) => v,
        None => {
            return Err(TrustedSetupStatus::InvalidFile);
        },
    };
    if n1 < 1 || n1 > 4096 || n2 < 2 {
        return Err(TrustedSetupStatus::InvalidFile);
    }
    let log_n = match log2_exact(n1) {
        Some(k) => k,
        None => {
            return Err(TrustedSetupStatus::InvalidFile);
        },
    };
    if lv.len() - 2 != n1 + n2 {
        return Err(TrustedSetupStatus::InvalidFile);
    }
    let mut g1_points: Vec<[u8; 48]> = Vec::new();
    for i in 0..n1
        invariant
            lines == spec_lines(content@),
            lines.len() == lv@.len(),
            forall|t: int| 0 <= t < lv@.len() ==> lines[t] == #[trigger] lv@[t]@,
            dec_line_ok(lines[0]) && dec_line_ok(lines[1]),
            dec_val(lines[0]) == n1 && dec_val(lines[1]) == n2,
            1 <= n1 <= 4096 && 2 <= n2 < 100000000,
            log2_spec(n1 as nat) == log_n,
            2 + n1 + n2 == lv@.len(),
            g1_points@.len() == i,
            forall|j: int| 0 <= j < i ==> #[trigger] g1_points@[j]@ == hex_decode(lines[2 + j]),
            forall|j: int| 0 <= j < i ==> g1_line_ok(#[trigger] lines[2 + j]),
            forall|j: int| 0 <= j < i ==> valid_g1(#[trigger] g1_points@[j]@),
    {
        let bytes = match hex_line_48(&lv[2 + i]) {
            Some(b) => b,
            None => {
                proof {
                    assert(!g1_line_ok(lines[2 + i as int]));
                }
                return Err(TrustedSetupStatus::InvalidFile);
            },
        };
        match deserialize_pubkey_compressed(&bytes) {
            Ok(_) => {},
            Err(_) => {
                proof {
                    assert(!g1_line_ok(lines[2 + i as int]));
                }
                return Err(TrustedSetupStatus::InvalidFile);
            },
        }
        g1_points.push(bytes);
        proof {
            assert(g1_line_ok(lines[2 + i as int]));
            assert(valid_g1(g1_points@[i as int]@));
        }
    }
    let mut g2_points: Vec<[u8; 96]> = Vec::new();
    for i in 0..n2
        invariant
            lines == spec_lines(content@),
            lines.len() == lv@.len(),
            forall|t: int| 0 <= t < lv@.len() ==> lines[t] == #[trigger] lv@[t]@,
            dec_line_ok(lines[0]) && dec_line_ok(lines[1]),
            dec_val(lines[0]) == n1 && dec_val(lines[1]) == n2,
            1 <= n1 <= 4096 && 2 <= n2 < 100000000,
            log2_spec(n1 as nat) == log_n,
            2 + n1 + n2 == lv@.len(),
            g2_points@.len() == i,
            forall|j: int| 0 <= j < i ==> #[trigger] g2_points@[j]@ == hex_decode(
                lines[2 + n1 + j],
            ),
            forall|j: int| 0 <= j < i ==> g2_line_ok(#[trigger] lines[2 + n1 + j]),
            forall|j: int| 0 <= j < i ==> valid_g2(#[trigger] g2_points@[j]@),
    {
        let bytes = match hex_line_96(&lv[2 + n1 + i]) {
            Some(b) => b,
            None => {
                proof {
                    assert(!g2_line_ok(lines[2 + n1 + i as int]));
                }
                return Err(TrustedSetupStatus::InvalidFile);
            },
        };
        match deserialize_signature_compressed(&bytes) {
            Ok(_) => {},
            Err(_) => {
                proof {
                    assert(!g2_line_ok(lines[2 + n1 + i as int]));
                }
                return Err(TrustedSetupStatus::InvalidFile);
            },
        }
        g2_points.push(bytes);
        proof {
            assert(g2_line_ok(lines[2 + n1 + i as int]));
            assert(valid_g2(g2_points@[i as int]@));
        }
    }
    // Domain generator: square the full-domain generator down to this size.
    let mut omega = omega_4096();
    let squarings = 12 - log_n;
    for j in 0..squarings
        invariant
            squarings == 12 - log_n,
            omega@ == spec_pow_sq(omega_4096_bytes(), j as nat),
            is_canonical_scalar(omega@),
    {
        omega = fr_mul(&omega, &omega);
        proof {
            lemma_mod_r_canonical(be_nat(spec_pow_sq(omega_4096_bytes(), j as nat)) * be_nat(
                spec_pow_sq(omega_4096_bytes(), j as nat),
            ));
        }
    }
    // The domain: successive powers of the generator.
    let mut roots: Vec<[u8; 32]> = Vec::new();
    let one = scalar_one();
    roots.push(one);
    let mut cur = one;
    proof {
        assert(roots@[0]@ == root_pow(omega@, 0));
    }
    for i in 1..n1
        invariant
            1 <= i <= n1,
            is_canonical_scalar(omega@),
            roots@.len() == i,
            cur@ == root_pow(omega@, (i - 1) as nat),
            is_canonical_scalar(cur@),
            forall|j: int| 0 <= j < i ==> #[trigger] roots@[j]@ == root_pow(omega@, j as nat),
            forall|j: int| 0 <= j < i ==> is_canonical_scalar(#[trigger] roots@[j]@),
    {
        cur = fr_mul(&cur, &omega);
        proof {
            lemma_mod_r_canonical(be_nat(root_pow(omega@, (i - 1) as nat)) * be_nat(omega@));
        }
        roots.push(cur);
    }
    // The domain size as a field element, and its inverse.
    let mut nscalar = scalar_one();
    proof {
        vstd::arithmetic::power::lemma_pow0(2);
        reveal_with_fuel(pow, 14);
    }
    for j in 0..log_n
        invariant
            log_n <= 12,
            is_canonical_scalar(nscalar@),
            be_nat(nscalar@) == pow(2, j as nat),
            pow(2, j as nat) <= 4096,
    {
        proof {
            reveal_with_fuel(pow, 14);
            vstd::arithmetic::power::lemma_pow_increases(2, (j + 1) as nat, 12);
            assert(pow(2, 12) == 4096);
            lemma_r_large();
            lemma_small_mod((be_nat(nscalar@) + be_nat(nscalar@)) as nat, bls_r());
            lemma_mod_r_canonical(be_nat(nscalar@) + be_nat(nscalar@));
        }
        nscalar = fr_add(&nscalar, &nscalar);
    }
    proof {
        assert(be_nat(nscalar@) == n1 as nat);
        lemma_nat_to_be_of_be_nat(nscalar@);
        assert(nscalar@ == nat_to_be(n1 as nat, 32));
    }
    let n_inv = fr_inv(&nscalar);
    // The protocol pairs blob elements with roots and setup points in
    // bit-reversed index order; reorder both tables accordingly.
    let g1_brp = bit_reverse_permute(&g1_points, log_n);
    let roots_brp = bit_reverse_permute(&roots, log_n);
    proof {
        assert forall|i: int| 0 <= i < n1 implies #[trigger] g1_brp@[i]@ == hex_decode(
            lines[2 + bit_rev(i as nat, log_n as nat) as int],
        ) && valid_g1(g1_brp@[i]@) by {
            lemma_bit_rev_bound(i as nat, log_n as nat);
        }
        assert forall|i: int| 0 <= i < n1 implies #[trigger] roots_brp@[i]@ == root_pow(
            omega@,
            bit_rev(i as nat, log_n as nat),
        ) && is_canonical_scalar(roots_brp@[i]@) by {
            lemma_bit_rev_bound(i as nat, log_n as nat);
        }
    }
    let setup = ParsedSetup {
        g1_points: g1_brp,
        g2_points,
        roots: roots_brp,
        omega,
        n_inv,
        log_n,
    };
    proof {
        let m = spec_load_trusted_setup(content@)->Ok_0;
        assert(views48(setup.g1_points@) =~= Seq::new(
            n1 as nat,
            |i: int| hex_decode(lines[2 + bit_rev(i as nat, log_n as nat) as int]),
        ));
        assert(views96(setup.g2_points@) =~= Seq::new(
            n2 as nat,
            |i: int| hex_decode(lines[2 + n1 + i]),
        ));
        assert(views32(setup.roots@) =~= spec_roots(setup.omega@, n1 as nat, log_n as nat));
        assert(setup.model() =~= m);
    }
    Ok(setup)
}

/// Step-by-step construction of a context: first the setup data, then an
/// optional worker pool.
pub struct EthKzgContextBuilder<'tp> {
    setup: Option<ParsedSetup>,
    threadpool: Option<&'tp Threadpool>,
}

impl<'tp> EthKzgContextBuilder<'tp> {
    /// The loaded model, if a setup was loaded.
    pub closed spec fn setup_model(&self) -> Option<KzgModel> {
        match self.setup {
            Some(s) => Some(s.model()),
            None => None,
        }
    }

    /// Whether a worker pool was attached.
    pub closed spec fn pool_attached(&self) -> bool {
        self.threadpool is Some
    }

    /// Loads the setup from the content of a setup file.
    pub fn load_trusted_setup(self, content: &[u8]) -> (r: Result<Self, TrustedSetupStatus>)
        ensures
            match r {
                Ok(b) => spec_load_trusted_setup(content@) matches Ok(m) && b.setup_model()
                    == Some(m) && b.pool_attached() == self.pool_attached(),
                Err(e) => spec_load_trusted_setup(content@) == Err::<KzgModel, TrustedSetupStatus>(
                    e,
                ),
            },
    {
        let setup = parse_setup(content)?;
        Ok(EthKzgContextBuilder { setup: Some(setup), threadpool: self.threadpool })
    }

    /// Attaches the worker pool used by the parallel operation family.
    pub fn set_threadpool(self, tp: &'tp Threadpool) -> (r: Self)
        ensures
            r.setup_model() == self.setup_model(),
            r.pool_attached(),
    {
        let Self { setup, .. } = self;
        Self { setup, threadpool: Some(tp) }
    }

    /// Finishes the build; fails if no setup was loaded.
    pub fn build(self) -> (r: Result<EthKzgContext<'tp>, TrustedSetupStatus>)
        ensures
            match r {
                Ok(ctx) => self.setup_model() == Some(ctx@) && ctx.has_threadpool()
                    == self.pool_attached(),
                Err(e) => self.setup_model() is None && e
                    == TrustedSetupStatus::MissingOrInaccessibleFile,
            },
    {
        match self.setup {
            Some(setup) => Ok(EthKzgContext { setup, threadpool: self.threadpool }),
            None => Err(TrustedSetupStatus::MissingOrInaccessibleFile),
        }
    }
}

impl<'tp> EthKzgContext<'tp> {
    /// A fresh builder with nothing loaded.
    pub fn builder() -> (r: EthKzgContextBuilder<'tp>)
        ensures
            r.setup_model() is None,
            !r.pool_attached(),
    {
        EthKzgContextBuilder { setup: None, threadpool: None }
    }

    /// Loads a context directly from the content of a setup file.
    pub fn load_trusted_setup(content: &[u8]) -> (r: Result<Self, TrustedSetupStatus>)
        ensures
            match r {
                Ok(ctx) => spec_load_trusted_setup(content@) == Ok::<
                    KzgModel,
                    TrustedSetupStatus,
                >(ctx@) && !ctx.has_threadpool(),
                Err(e) => spec_load_trusted_setup(content@) == Err::<
                    KzgModel,
                    TrustedSetupStatus,
                >(e),
            },
    {
        let builder = Self::builder().load_trusted_setup(content)?;
        match builder.build() {
            Ok(ctx) => Ok(ctx),
            Err(_) => Err(TrustedSetupStatus::MissingOrInaccessibleFile),
        }
    }
}


// ---------------------------------------------------------------------
// Polynomial evaluation over the domain.
// ---------------------------------------------------------------------

/// The first index whose root equals `z`, or a negative value.
pub open spec fn domain_index(roots: Seq<Seq<u8>>, z: Seq<u8>) -> int
    decreases roots.len(),
{
    if roots.len() == 0 {
        -1
    } else if roots[0] == z {
        0
    } else {
        let r = domain_index(roots.skip(1), z);
        if r < 0 {
            -1
        } else {
            1 + r
        }
    }
}

proof fn lemma_domain_index_at(roots: Seq<Seq<u8>>, z: Seq<u8>, k: int)
    requires
        0 <= k <= roots.len(),
        forall|j: int| 0 <= j < k ==> roots[j] != z,
        k < roots.len() ==> roots[k] == z,
    ensures
        domain_index(roots, z) == if k < roots.len() {
            k
        } else {
            -1int
        },
    decreases roots.len(),
{
    if k == 0 {
        if roots.len() > 0 && roots[0] != z {
            lemma_domain_index_neg(roots.skip(1), z);
        }
    } else {
        assert(roots[0] != z);
        assert(forall|j: int| 0 <= j < k - 1 ==> roots.skip(1)[j] == roots[j + 1]);
        if k < roots.len() {
            assert(roots.skip(1)[k - 1] == roots[k]);
        }
        lemma_domain_index_at(roots.skip(1), z, k - 1);
    }
}

proof fn lemma_domain_index_neg(roots: Seq<Seq<u8>>, z: Seq<u8>)
    requires
        forall|j: int| 0 <= j < roots.len() ==> roots[j] != z,
    ensures
        domain_index(roots, z) == -1,
    decreases roots.len(),
{
    if roots.len() > 0 {
        assert(forall|j: int| 0 <= j < roots.len() - 1 ==> roots.skip(1)[j] == roots[j + 1]);
        lemma_domain_index_neg(roots.skip(1), z);
    }
}

/// One barycentric summand: `p_i * root_i / (z - root_i)`.
pub open spec fn spec_bary_term(p_i: Seq<u8>, root_i: Seq<u8>, z: Seq<u8>) -> Seq<u8> {
    fr_mul_bytes(fr_mul_bytes(p_i, root_i), spec_fr_inv(fr_sub_bytes(z, root_i)))
}

/// The barycentric sum over the whole domain.
pub open spec fn spec_bary_sum(ps: Seq<Seq<u8>>, roots: Seq<Seq<u8>>, z: Seq<u8>) -> Seq<u8>
    decreases ps.len(),
{
    if ps.len() == 0 {
        scalar_zero_bytes()
    } else {
        fr_add_bytes(
            spec_bary_sum(ps.drop_last(), roots.drop_last(), z),
            spec_bary_term(ps.last(), roots.last(), z),
        )
    }
}

/// Evaluation at a point outside the domain, by the barycentric formula
/// `(z^n - 1) / n * sum_i p_i * root_i / (z - root_i)`.
pub open spec fn spec_eval_outside(
    ps: Seq<Seq<u8>>,
    roots: Seq<Seq<u8>>,
    z: Seq<u8>,
    log_n: nat,
    n_inv: Seq<u8>,
) -> Seq<u8> {
    fr_mul_bytes(
        fr_mul_bytes(fr_sub_bytes(spec_pow_sq(z, log_n), scalar_one_bytes()), n_inv),
        spec_bary_sum(ps, roots, z),
    )
}

/// Evaluation of a polynomial in evaluation form at any canonical point.
pub open spec fn spec_evaluate(
    ps: Seq<Seq<u8>>,
    roots: Seq<Seq<u8>>,
    z: Seq<u8>,
    log_n: nat,
    n_inv: Seq<u8>,
) -> Seq<u8> {
    let m = domain_index(roots, z);
    if m >= 0 {
        ps[m]
    } else {
        spec_eval_outside(ps, roots, z, log_n, n_inv)
    }
}

/// Byte equality of two scalars.
fn eq32(a: &[u8; 32], b: &[u8; 32]) -> (r: bool)
    ensures
        r == (a@ == b@),
{
    for i in 0..32usize
        invariant
            forall|j: int| 0 <= j < i ==> a@[j] == b@[j],
    {
        if a[i] != b[i] {
            return false;
        }
    }
    proof {
        assert(a@ =~= b@);
    }
    true
}

/// Finds the index of `z` in the domain.
fn find_domain_index(roots: &Vec<[u8; 32]>, z: &[u8; 32]) -> (r: Option<usize>)
    ensures
        r is Some ==> 0 <= domain_index(views32(roots@), z@) && r->0 == domain_index(
            views32(roots@),
            z@,
        ) && r->0 < roots@.len() && roots@[r->0 as int]@ == z@,
        r is None ==> domain_index(views32(roots@), z@) < 0,
{
    let ghost rv = views32(roots@);
    let n = roots.len();
    for i in 0..n
        invariant
            n == roots@.len(),
            rv == views32(roots@),
            forall|j: int| 0 <= j < i ==> rv[j] != z@,
    {
        if eq32(&roots[i], z) {
            proof {
                lemma_domain_index_at(rv, z@, i as int);
            }
            return Some(i);
        }
    }
    proof {
        lemma_domain_index_neg(rv, z@);
    }
    None
}

/// Evaluates a polynomial in evaluation form at a canonical point.
fn evaluate_poly(
    chunks: &Vec<[u8; 32]>,
    roots: &Vec<[u8; 32]>,
    z: &[u8; 32],
    log_n: usize,
    n_inv: &[u8; 32],
) -> (r: [u8; 32])
    requires
        chunks@.len() == roots@.len(),
        forall|i: int| 0 <= i < chunks@.len() ==> is_canonical_scalar(#[trigger] chunks@[i]@),
        forall|i: int| 0 <= i < roots@.len() ==> is_canonical_scalar(#[trigger] roots@[i]@),
        is_canonical_scalar(z@),
        is_canonical_scalar(n_inv@),
    ensures
        r@ == spec_evaluate(views32(chunks@), views32(roots@), z@, log_n as nat, n_inv@),
        is_canonical_scalar(r@),
{
    let ghost pv = views32(chunks@);
    let ghost rv = views32(roots@);
    match find_domain_index(roots, z) {
        Some(m) => {
            return chunks[m];
        },
        None => {},
    }
    // z is outside the domain: barycentric formula.
    let mut zn = *z;
    for j in 0..log_n
        invariant
            zn@ == spec_pow_sq(z@, j as nat),
            is_canonical_scalar(zn@),
    {
        zn = fr_mul(&zn, &zn);
    }
    let one = scalar_one();
    let factor = fr_mul(&fr_sub(&zn, &one), n_inv);
    let n = chunks.len();
    let mut acc = scalar_zero();
    proof {
        assert(pv.take(0) =~= Seq::<Seq<u8>>::empty());
        assert(rv.take(0) =~= Seq::<Seq<u8>>::empty());
    }
    for i in 0..n
        invariant
            n == chunks@.len() && n == roots@.len(),
            pv == views32(chunks@) && rv == views32(roots@),
            forall|j: int| 0 <= j < n ==> is_canonical_scalar(#[trigger] chunks@[j]@),
            forall|j: int| 0 <= j < n ==> is_canonical_scalar(#[trigger] roots@[j]@),
            is_canonical_scalar(z@),
            acc@ == spec_bary_sum(pv.take(i as int), rv.take(i as int), z@),
            is_canonical_scalar(acc@),
    {
        let d = fr_sub(z, &roots[i]);
        let term = fr_mul(&fr_mul(&chunks[i], &roots[i]), &fr_inv(&d));
        acc = fr_add(&acc, &term);
        proof {
            assert(pv.take(i + 1).drop_last() =~= pv.take(i as int));
            assert(rv.take(i + 1).drop_last() =~= rv.take(i as int));
        }
    }
    proof {
        assert(pv.take(n as int) =~= pv);
        assert(rv.take(n as int) =~= rv);
    }
    fr_mul(&factor, &acc)
}

// ---------------------------------------------------------------------
// Quotient polynomials.
// ---------------------------------------------------------------------

/// The quotient evaluations when `z` is outside the domain:
/// `(p_i - y) / (root_i - z)`.
pub open spec fn spec_quotient_outside(
    ps: Seq<Seq<u8>>,
    roots: Seq<Seq<u8>>,
    z: Seq<u8>,
    y: Seq<u8>,
) -> Seq<Seq<u8>> {
    Seq::new(
        ps.len(),
        |i: int| fr_mul_bytes(fr_sub_bytes(ps[i], y), spec_fr_inv(fr_sub_bytes(roots[i], z))),
    )
}

/// The summand of the in-domain quotient at index `m`:
/// `(p_i - y) * root_i / (z * (z - root_i))`, summed over `i != m` below `k`.
pub open spec fn spec_qm_sum(
    ps: Seq<Seq<u8>>,
    roots: Seq<Seq<u8>>,
    z: Seq<u8>,
    y: Seq<u8>,
    m: int,
    k: int,
) -> Seq<u8>
    decreases k,
{
    if k <= 0 {
        scalar_zero_bytes()
    } else if k - 1 == m {
        spec_qm_sum(ps, roots, z, y, m, k - 1)
    } else {
        fr_add_bytes(
            spec_qm_sum(ps, roots, z, y, m, k - 1),
            fr_mul_bytes(
                fr_mul_bytes(fr_sub_bytes(ps[k - 1], y), roots[k - 1]),
                spec_fr_inv(fr_mul_bytes(z, fr_sub_bytes(z, roots[k - 1]))),
            ),
        )
    }
}

/// The quotient evaluations when `z` is the domain point at index `m`.
pub open spec fn spec_quotient_in_domain(
    ps: Seq<Seq<u8>>,
    roots: Seq<Seq<u8>>,
    z: Seq<u8>,
    y: Seq<u8>,
    m: int,
) -> Seq<Seq<u8>> {
    Seq::new(
        ps.len(),
        |i: int|
            if i == m {
                spec_qm_sum(ps, roots, z, y, m, ps.len() as int)
            } else {
                fr_mul_bytes(fr_sub_bytes(ps[i], y), spec_fr_inv(fr_sub_bytes(roots[i], z)))
            },
    )
}

/// The opening proof and evaluation for a validated polynomial at a
/// canonical point.
pub open spec fn spec_proof_and_eval(m: KzgModel, ps: Seq<Seq<u8>>, z: Seq<u8>) -> (Seq<u8>, Seq<
    u8,
>) {
    let mi = domain_index(m.roots, z);
    if mi >= 0 {
        let y = ps[mi];
        (spec_g1_lincomb(m.g1s, spec_quotient_in_domain(ps, m.roots, z, y, mi)), y)
    } else {
        let y = spec_eval_outside(ps, m.roots, z, m.log_n, m.n_inv);
        (spec_g1_lincomb(m.g1s, spec_quotient_outside(ps, m.roots, z, y)), y)
    }
}

// ---------------------------------------------------------------------
// The operations.
// ---------------------------------------------------------------------

/// What committing to a blob returns.
pub open spec fn spec_blob_to_kzg_commitment(m: KzgModel, blob: Seq<u8>) -> Result<
    Seq<u8>,
    EthKzgStatus,
> {
    if !blob_ok(blob) {
        Err(EthKzgStatus::ScalarLargerThanCurveOrder)
    } else {
        Ok(spec_g1_lincomb(m.g1s, blob_chunks(blob)))
    }
}

/// What computing an opening proof returns.
pub open spec fn spec_compute_kzg_proof(m: KzgModel, blob: Seq<u8>, z: Seq<u8>) -> Result<
    (Seq<u8>, Seq<u8>),
    EthKzgStatus,
> {
    if !is_canonical_scalar(z) {
        Err(EthKzgStatus::ScalarLargerThanCurveOrder)
    } else if !blob_ok(blob) {
        Err(EthKzgStatus::ScalarLargerThanCurveOrder)
    } else {
        Ok(spec_proof_and_eval(m, blob_chunks(blob), z))
    }
}

/// The opening pairing equation
/// `e(commitment - y*G, H) == e(proof, tau*H - z*H)`, in product form.
pub open spec fn spec_kzg_pairing(
    tau_h: Seq<u8>,
    commitment: Seq<u8>,
    z: Seq<u8>,
    y: Seq<u8>,
    proof: Seq<u8>,
) -> bool {
    spec_multi_pairing_one(
        seq![
            spec_g1_add(commitment, spec_g1_neg(spec_g1_mul(g1_generator_bytes(), y))),
            spec_g1_neg(proof),
        ],
        seq![
            g2_generator_bytes(),
            spec_g2_add(tau_h, spec_g2_neg(spec_g2_mul(g2_generator_bytes(), z))),
        ],
    )
}

/// What verifying an opening proof returns: `Ok(false)` for a well-formed
/// but invalid proof, an error for malformed input.
pub open spec fn spec_verify_kzg_proof(
    m: KzgModel,
    commitment: Seq<u8>,
    z: Seq<u8>,
    y: Seq<u8>,
    proof: Seq<u8>,
) -> Result<bool, EthKzgStatus> {
    if spec_deserialize_pubkey(commitment) is Err {
        Err(spec_ecc_to_kzg(spec_deserialize_pubkey(commitment)->Err_0))
    } else if spec_deserialize_pubkey(proof) is Err {
        Err(spec_ecc_to_kzg(spec_deserialize_pubkey(proof)->Err_0))
    } else if !is_canonical_scalar(z) || !is_canonical_scalar(y) {
        Err(EthKzgStatus::ScalarLargerThanCurveOrder)
    } else {
        Ok(spec_kzg_pairing(m.g2s[1], commitment, z, y, proof))
    }
}

impl<'tp> EthKzgContext<'tp> {
    /// Validates a 48-byte point for protocol use, carrying the codec
    /// taxonomy into the KZG status space.
    fn check_g1(&self, p: &[u8; 48]) -> (r: Result<(), EthKzgStatus>)
        ensures
            match r {
                Ok(_) => spec_deserialize_pubkey(p@) is Ok && valid_g1(p@),
                Err(e) => spec_deserialize_pubkey(p@) matches Err(c) && e == spec_ecc_to_kzg(c),
            },
    {
        match deserialize_pubkey_compressed(p) {
            Ok(_) => Ok(()),
            Err(e) => Err(ecc_to_kzg(e)),
        }
    }

    /// Commits to a blob: the linear combination of the setup's basis by
    /// the blob's scalars.  A pure function of setup and blob.
    pub fn blob_to_kzg_commitment(&self, blob: &[u8; 131072]) -> (r: Result<
        [u8; 48],
        EthKzgStatus,
    >)
        requires
            self.is_blob_sized(),
        ensures
            match r {
                Ok(c) => spec_blob_to_kzg_commitment(self@, blob@) == Ok::<
                    Seq<u8>,
                    EthKzgStatus,
                >(c@),
                Err(e) => spec_blob_to_kzg_commitment(self@, blob@) == Err::<
                    Seq<u8>,
                    EthKzgStatus,
                >(e),
            },
    {
        proof {
            use_type_invariant(&self.setup);
        }
        let chunks = match blob_to_chunks(blob) {
            Some(c) => c,
            None => {
                return Err(EthKzgStatus::ScalarLargerThanCurveOrder);
            },
        };
        let c = g1_lincomb(&self.setup.g1_points, &chunks);
        Ok(c)
    }

    /// Computes the opening proof of a blob's polynomial at a challenge
    /// point, returning the proof and the evaluation.
    pub fn compute_kzg_proof(&self, blob: &[u8; 131072], z_challenge: &[u8; 32]) -> (r: Result<
        ([u8; 48], [u8; 32]),
        EthKzgStatus,
    >)
        requires
            self.is_blob_sized(),
        ensures
            match r {
                Ok(pr) => spec_compute_kzg_proof(self@, blob@, z_challenge@) == Ok::<
                    (Seq<u8>, Seq<u8>),
                    EthKzgStatus,
                >((pr.0@, pr.1@)),
                Err(e) => spec_compute_kzg_proof(self@, blob@, z_challenge@) == Err::<
                    (Seq<u8>, Seq<u8>),
                    EthKzgStatus,
                >(e),
            },
    {
        proof {
            use_type_invariant(&self.setup);
        }
        if !check_canonical_scalar(z_challenge) {
            return Err(EthKzgStatus::ScalarLargerThanCurveOrder);
        }
        let chunks = match blob_to_chunks(blob) {
            Some(c) => c,
            None => {
                return Err(EthKzgStatus::ScalarLargerThanCurveOrder);
            },
        };
        let (proof_pt, y) = self.proof_and_eval(&chunks, z_challenge);
        Ok((proof_pt, y))
    }

    /// Computes the proof and evaluation for validated chunks.
    fn proof_and_eval(&self, chunks: &Vec<[u8; 32]>, z: &[u8; 32]) -> (r: ([u8; 48], [u8; 32]))
        requires
            self@.g1s.len() == chunks@.len(),
            forall|i: int| 0 <= i < chunks@.len() ==> is_canonical_scalar(#[trigger] chunks@[i]@),
            is_canonical_scalar(z@),
        ensures
            (r.0@, r.1@) == spec_proof_and_eval(self@, views32(chunks@), z@),
            is_canonical_scalar(r.1@),
    {
        proof {
            use_type_invariant(&self.setup);
        }
        let ghost pv = views32(chunks@);
        let ghost rv = views32(self.setup.roots@);
        let n = chunks.len();
        let roots = &self.setup.roots;
        let mut q: Vec<[u8; 32]> = Vec::new();
        match find_domain_index(roots, z) {
            Some(m) => {
                let y = chunks[m];
                // The quotient value at the matched index.
                let mut qm = scalar_zero();
                for i in 0..n
                    invariant
                        n == chunks@.len() && n == roots@.len(),
                        m < n && roots@[m as int]@ == z@,
                        pv == views32(chunks@) && rv == views32(self.setup.roots@),
                        roots == &self.setup.roots,
                        forall|j: int| 0 <= j < n ==> is_canonical_scalar(#[trigger] chunks@[j]@),
                        forall|j: int| 0 <= j < n ==> is_canonical_scalar(#[trigger] roots@[j]@),
                        is_canonical_scalar(z@) && is_canonical_scalar(y@),
                        y@ == pv[m as int],
                        qm@ == spec_qm_sum(pv, rv, z@, y@, m as int, i as int),
                        is_canonical_scalar(qm@),
                {
                    if i != m {
                        let term = fr_mul(
                            &fr_mul(&fr_sub(&chunks[i], &y), &roots[i]),
                            &fr_inv(&fr_mul(z, &fr_sub(z, &roots[i]))),
                        );
                        qm = fr_add(&qm, &term);
                    }
                }
                for i in 0..n
                    invariant
                        n == chunks@.len() && n == roots@.len(),
                        m < n,
                        pv == views32(chunks@) && rv == views32(self.setup.roots@),
                        roots == &self.setup.roots,
                        forall|j: int| 0 <= j < n ==> is_canonical_scalar(#[trigger] chunks@[j]@),
                        forall|j: int| 0 <= j < n ==> is_canonical_scalar(#[trigger] roots@[j]@),
                        is_canonical_scalar(z@) && is_canonical_scalar(y@),
                        y@ == pv[m as int],
                        qm@ == spec_qm_sum(pv, rv, z@, y@, m as int, n as int),
                        is_canonical_scalar(qm@),
                        q@.len() == i,
                        forall|j: int| 0 <= j < i ==> #[trigger] q@[j]@ == spec_quotient_in_domain(
                            pv,
                            rv,
                            z@,
                            y@,
                            m as int,
                        )[j],
                        forall|j: int| 0 <= j < i ==> is_canonical_scalar(#[trigger] q@[j]@),
                {
                    if i == m {
                        q.push(qm);
                    } else {
                        let qi = fr_mul(&fr_sub(&chunks[i], &y), &fr_inv(&fr_sub(&roots[i], z)));
                        q.push(qi);
                    }
                }
                proof {
                    assert(views32(q@) =~= spec_quotient_in_domain(pv, rv, z@, y@, m as int));
                }
                let proof_pt = g1_lincomb(&self.setup.g1_points, &q);
                (proof_pt, y)
            },
            None => {
                let y = evaluate_poly(chunks, roots, z, self.setup.log_n, &self.setup.n_inv);
                for i in 0..n
                    invariant
                        n == chunks@.len() && n == roots@.len(),
                        domain_index(rv, z@) < 0,
                        pv == views32(chunks@) && rv == views32(self.setup.roots@),
                        roots == &self.setup.roots,
                        forall|j: int| 0 <= j < n ==> is_canonical_scalar(#[trigger] chunks@[j]@),
                        forall|j: int| 0 <= j < n ==> is_canonical_scalar(#[trigger] roots@[j]@),
                        is_canonical_scalar(z@) && is_canonical_scalar(y@),
                        y@ == spec_eval_outside(pv, rv, z@, self.setup.log_n as nat, self.setup.n_inv@),
                        q@.len() == i,
                        forall|j: int| 0 <= j < i ==> #[trigger] q@[j]@ == spec_quotient_outside(
                            pv,
                            rv,
                            z@,
                            y@,
                        )[j],
                        forall|j: int| 0 <= j < i ==> is_canonical_scalar(#[trigger] q@[j]@),
                {
                    let qi = fr_mul(&fr_sub(&chunks[i], &y), &fr_inv(&fr_sub(&roots[i], z)));
                    q.push(qi);
                }
                proof {
                    assert(views32(q@) =~= spec_quotient_outside(pv, rv, z@, y@));
                }
                let proof_pt = g1_lincomb(&self.setup.g1_points, &q);
                (proof_pt, y)
            },
        }
    }

    /// Verifies one opening proof against a commitment, challenge and
    /// claimed evaluation.
    pub fn verify_kzg_proof(
        &self,
        commitment: &[u8; 48],
        z_challenge: &[u8; 32],
        y_eval_at_challenge: &[u8; 32],
        proof: &[u8; 48],
    ) -> (r: Result<bool, EthKzgStatus>)
        ensures
            r == spec_verify_kzg_proof(
                self@,
                commitment@,
                z_challenge@,
                y_eval_at_challenge@,
                proof@,
            ),
    {
        proof {
            use_type_invariant(&self.setup);
        }
        if let Err(e) = self.check_g1(commitment) {
            return Err(e);
        }
        if let Err(e) = self.check_g1(proof) {
            return Err(e);
        }
        if !check_canonical_scalar(z_challenge) || !check_canonical_scalar(y_eval_at_challenge) {
            return Err(EthKzgStatus::ScalarLargerThanCurveOrder);
        }
        Ok(self.opening_holds(commitment, z_challenge, y_eval_at_challenge, proof))
    }

    /// Evaluates the opening pairing equation.
    fn opening_holds(
        &self,
        commitment: &[u8; 48],
        z: &[u8; 32],
        y: &[u8; 32],
        proof: &[u8; 48],
    ) -> (r: bool)
        requires
            valid_g1(commitment@),
            valid_g1(proof@),
            is_canonical_scalar(z@),
            is_canonical_scalar(y@),
        ensures
            r == spec_kzg_pairing(self@.g2s[1], commitment@, z@, y@, proof@),
    {
        proof {
            use_type_invariant(&self.setup);
        }
        let g = g1_generator();
        let h = g2_generator();
        let lhs = g1_add(commitment, &g1_neg(&g1_mul(&g, y)));
        let tau_h = self.setup.g2_points[1];
        let x_minus_z = g2_add(&tau_h, &g2_neg(&g2_mul(&h, z)));
        let mut g1s: Vec<[u8; 48]> = Vec::new();
        let mut g2s: Vec<[u8; 96]> = Vec::new();
        g1s.push(lhs);
        g1s.push(g1_neg(proof));
        g2s.push(h);
        g2s.push(x_minus_z);
        proof {
            crate::bls::lemma_deep_g1(g1s);
            crate::bls::lemma_deep_g2(g2s);
            assert(g1s.deep_view() =~= seq![
                spec_g1_add(
                    commitment@,
                    spec_g1_neg(spec_g1_mul(g1_generator_bytes(), y@)),
                ),
                spec_g1_neg(proof@),
            ]);
            assert(g2s.deep_view() =~= seq![
                g2_generator_bytes(),
                spec_g2_add(
                    self@.g2s[1],
                    spec_g2_neg(spec_g2_mul(g2_generator_bytes(), z@)),
                ),
            ]);
        }
        multi_pairing_is_one(&g1s, &g2s)
    }
}


// ---------------------------------------------------------------------
// Blob proofs: the challenge is derived from blob and commitment, so the
// proof is self-contained against the pair.
// ---------------------------------------------------------------------

/// The domain-separation prefix of the blob challenge derivation.
pub open spec fn fiat_shamir_domain() -> Seq<u8> {
    seq![
        0x46u8, 0x53u8, 0x42u8, 0x4cu8, 0x4fu8, 0x42u8, 0x56u8, 0x45u8,
        0x52u8, 0x49u8, 0x46u8, 0x59u8, 0x5fu8, 0x56u8, 0x31u8, 0x5fu8,
    ]
}

/// The number of field elements of a blob, as sixteen big-endian bytes.
pub open spec fn blob_len_bytes16() -> Seq<u8> {
    seq![
        0x00u8, 0x00u8, 0x00u8, 0x00u8, 0x00u8, 0x00u8, 0x00u8, 0x00u8,
        0x00u8, 0x00u8, 0x00u8, 0x00u8, 0x00u8, 0x00u8, 0x10u8, 0x00u8,
    ]
}

/// The challenge point bound to a blob and its commitment: the digest of
/// the domain tag, the element count, the blob and the commitment,
/// reduced into the scalar field.
pub open spec fn spec_blob_challenge(blob: Seq<u8>, commitment: Seq<u8>) -> Seq<u8> {
    fr_reduce_bytes(
        spec_sha256(fiat_shamir_domain() + blob_len_bytes16() + blob + commitment),
    )
}

/// Appends bytes to a buffer.
fn append_bytes(out: &mut Vec<u8>, a: &[u8])
    ensures
        final(out)@ == old(out)@ + a@,
{
    let n = a.len();
    for i in 0..n
        invariant
            n == a@.len(),
            out@ =~= old(out)@ + a@.take(i as int),
    {
        out.push(a[i]);
        proof {
            assert(out@ =~= old(out)@ + a@.take(i + 1));
        }
    }
    proof {
        assert(old(out)@ + a@.take(n as int) =~= old(out)@ + a@);
    }
}

/// Derives the challenge point of a blob and commitment.
fn compute_challenge(blob: &[u8; 131072], commitment: &[u8; 48]) -> (r: [u8; 32])
    ensures
        r@ == spec_blob_challenge(blob@, commitment@),
        is_canonical_scalar(r@),
{
    let domain: [u8; 16] = [
        0x46u8, 0x53u8, 0x42u8, 0x4cu8, 0x4fu8, 0x42u8, 0x56u8, 0x45u8,
        0x52u8, 0x49u8, 0x46u8, 0x59u8, 0x5fu8, 0x56u8, 0x31u8, 0x5fu8,
    ];
    let len16: [u8; 16] = [
        0x00u8, 0x00u8, 0x00u8, 0x00u8, 0x00u8, 0x00u8, 0x00u8, 0x00u8,
        0x00u8, 0x00u8, 0x00u8, 0x00u8, 0x00u8, 0x00u8, 0x10u8, 0x00u8,
    ];
    let mut data: Vec<u8> = Vec::new();
    append_bytes(&mut data, domain.as_slice());
    append_bytes(&mut data, len16.as_slice());
    append_bytes(&mut data, blob.as_slice());
    append_bytes(&mut data, commitment.as_slice());
    proof {
        assert(domain@ =~= fiat_shamir_domain());
        assert(len16@ =~= blob_len_bytes16());
        assert(data@ =~= fiat_shamir_domain() + blob_len_bytes16() + blob@ + commitment@);
    }
    let digest = sha256_hash(data.as_slice(), false);
    fr_reduce(&digest)
}

/// What computing a blob proof returns.
pub open spec fn spec_compute_blob_kzg_proof(m: KzgModel, blob: Seq<u8>, commitment: Seq<u8>) -> Result<
    Seq<u8>,
    EthKzgStatus,
> {
    if spec_deserialize_pubkey(commitment) is Err {
        Err(spec_ecc_to_kzg(spec_deserialize_pubkey(commitment)->Err_0))
    } else if !blob_ok(blob) {
        Err(EthKzgStatus::ScalarLargerThanCurveOrder)
    } else {
        Ok(spec_proof_and_eval(m, blob_chunks(blob), spec_blob_challenge(blob, commitment)).0)
    }
}

/// What verifying a blob proof returns.
pub open spec fn spec_verify_blob_kzg_proof(
    m: KzgModel,
    blob: Seq<u8>,
    commitment: Seq<u8>,
    proof: Seq<u8>,
) -> Result<bool, EthKzgStatus> {
    if spec_deserialize_pubkey(commitment) is Err {
        Err(spec_ecc_to_kzg(spec_deserialize_pubkey(commitment)->Err_0))
    } else if spec_deserialize_pubkey(proof) is Err {
        Err(spec_ecc_to_kzg(spec_deserialize_pubkey(proof)->Err_0))
    } else if !blob_ok(blob) {
        Err(EthKzgStatus::ScalarLargerThanCurveOrder)
    } else {
        let z = spec_blob_challenge(blob, commitment);
        let y = spec_evaluate(blob_chunks(blob), m.roots, z, m.log_n, m.n_inv);
        Ok(spec_kzg_pairing(m.g2s[1], commitment, z, y, proof))
    }
}

impl<'tp> EthKzgContext<'tp> {
    /// Computes the blob proof bound to a blob and its commitment.
    pub fn compute_blob_kzg_proof(&self, blob: &[u8; 131072], commitment: &[u8; 48]) -> (r: Result<
        [u8; 48],
        EthKzgStatus,
    >)
        requires
            self.is_blob_sized(),
        ensures
            match r {
                Ok(p) => spec_compute_blob_kzg_proof(self@, blob@, commitment@) == Ok::<
                    Seq<u8>,
                    EthKzgStatus,
                >(p@),
                Err(e) => spec_compute_blob_kzg_proof(self@, blob@, commitment@) == Err::<
                    Seq<u8>,
                    EthKzgStatus,
                >(e),
            },
    {
        if let Err(e) = self.check_g1(commitment) {
            return Err(e);
        }
        let chunks = match blob_to_chunks(blob) {
            Some(c) => c,
            None => {
                return Err(EthKzgStatus::ScalarLargerThanCurveOrder);
            },
        };
        let z = compute_challenge(blob, commitment);
        let (proof_pt, _y) = self.proof_and_eval(&chunks, &z);
        Ok(proof_pt)
    }

    /// Verifies a blob proof against the blob and its commitment.
    pub fn verify_blob_kzg_proof(
        &self,
        blob: &[u8; 131072],
        commitment: &[u8; 48],
        proof: &[u8; 48],
    ) -> (r: Result<bool, EthKzgStatus>)
        requires
            self.is_blob_sized(),
        ensures
            r == spec_verify_blob_kzg_proof(self@, blob@, commitment@, proof@),
    {
        proof {
            use_type_invariant(&self.setup);
        }
        if let Err(e) = self.check_g1(commitment) {
            return Err(e);
        }
        if let Err(e) = self.check_g1(proof) {
            return Err(e);
        }
        let chunks = match blob_to_chunks(blob) {
            Some(c) => c,
            None => {
                return Err(EthKzgStatus::ScalarLargerThanCurveOrder);
            },
        };
        let z = compute_challenge(blob, commitment);
        let y = evaluate_poly(&chunks, &self.setup.roots, &z, self.setup.log_n, &self.setup.n_inv);
        Ok(self.opening_holds(commitment, &z, &y, proof))
    }
}

// ---------------------------------------------------------------------
// Batch verification of blob proofs.
// ---------------------------------------------------------------------

/// The views of a list of blobs.
pub open spec fn views_blob(s: Seq<[u8; 131072]>) -> Seq<Seq<u8>> {
    Seq::new(s.len(), |i: int| s[i]@)
}

/// Validation of one batch item: commitment, then proof, then blob.
pub open spec fn spec_batch_item_check(blob: Seq<u8>, c: Seq<u8>, q: Seq<u8>) -> Result<
    (),
    EthKzgStatus,
> {
    if spec_deserialize_pubkey(c) is Err {
        Err(spec_ecc_to_kzg(spec_deserialize_pubkey(c)->Err_0))
    } else if spec_deserialize_pubkey(q) is Err {
        Err(spec_ecc_to_kzg(spec_deserialize_pubkey(q)->Err_0))
    } else if !blob_ok(blob) {
        Err(EthKzgStatus::ScalarLargerThanCurveOrder)
    } else {
        Ok(())
    }
}

/// Validation of the batch items from index `i` on, in order.
pub open spec fn spec_batch_validate_from(
    blobs: Seq<Seq<u8>>,
    cs: Seq<Seq<u8>>,
    qs: Seq<Seq<u8>>,
    i: int,
) -> Result<(), EthKzgStatus>
    decreases blobs.len() - i,
{
    if !(0 <= i < blobs.len()) {
        Ok(())
    } else {
        match spec_batch_item_check(blobs[i], cs[i], qs[i]) {
            Err(e) => Err(e),
            Ok(_) => spec_batch_validate_from(blobs, cs, qs, i + 1),
        }
    }
}

proof fn lemma_batch_validate_prefix(blobs: Seq<Seq<u8>>, cs: Seq<Seq<u8>>, qs: Seq<Seq<u8>>, i: int)
    requires
        0 <= i <= blobs.len(),
        forall|j: int| 0 <= j < i ==> #[trigger] spec_batch_item_check(blobs[j], cs[j], qs[j]) is Ok,
    ensures
        spec_batch_validate_from(blobs, cs, qs, 0) == spec_batch_validate_from(blobs, cs, qs, i),
    decreases i,
{
    if i > 0 {
        lemma_batch_validate_prefix(blobs, cs, qs, i - 1);
    }
}

/// The combined batch pairing equation: with fresh coefficients `r_i`,
/// challenges `z_i` and evaluations `y_i`,
/// `e(sum r_i*(C_i - y_i*G + z_i*Q_i), H) == e(sum r_i*Q_i, tau*H)`.
pub open spec fn spec_batch_equation(
    m: KzgModel,
    blobs: Seq<Seq<u8>>,
    cs: Seq<Seq<u8>>,
    qs: Seq<Seq<u8>>,
    seed: Seq<u8>,
) -> bool {
    let n = blobs.len();
    let ts = Seq::new(
        n,
        |i: int|
            {
                let z = spec_blob_challenge(blobs[i], cs[i]);
                let y = spec_evaluate(blob_chunks(blobs[i]), m.roots, z, m.log_n, m.n_inv);
                spec_g1_add(
                    spec_g1_add(cs[i], spec_g1_neg(spec_g1_mul(g1_generator_bytes(), y))),
                    spec_g1_mul(qs[i], z),
                )
            },
    );
    let coeffs = Seq::new(n, |i: int| spec_batch_coeff(seed, i as nat));
    spec_multi_pairing_one(
        seq![
            spec_g1_lincomb(ts, coeffs),
            spec_g1_neg(spec_g1_lincomb(qs, coeffs)),
        ],
        seq![g2_generator_bytes(), m.g2s[1]],
    )
}

/// What batch verification returns: length mismatches are rejected before
/// anything is computed, the empty batch holds vacuously, every item is
/// validated (rejecting the whole batch on the first malformed item), and
/// the combined randomized equation decides the rest.
pub open spec fn spec_verify_blob_kzg_proof_batch(
    m: KzgModel,
    blobs: Seq<Seq<u8>>,
    cs: Seq<Seq<u8>>,
    qs: Seq<Seq<u8>>,
    seed: Seq<u8>,
) -> Result<bool, EthKzgStatus> {
    if blobs.len() != cs.len() || blobs.len() != qs.len() {
        Err(EthKzgStatus::InputsLengthsMismatch)
    } else if blobs.len() == 0 {
        Ok(true)
    } else {
        match spec_batch_validate_from(blobs, cs, qs, 0) {
            Err(e) => Err(e),
            Ok(_) => Ok(spec_batch_equation(m, blobs, cs, qs, seed)),
        }
    }
}

impl<'tp> EthKzgContext<'tp> {
    /// Verifies a batch of blob proofs in one combined randomized check.
    /// The seed must be drawn fresh from a cryptographically secure
    /// source for every batch; reuse breaks soundness.
    #[verifier::rlimit(50)]
    pub fn verify_blob_kzg_proof_batch(
        &self,
        blobs: &[[u8; 131072]],
        commitments: &[[u8; 48]],
        proofs: &[[u8; 48]],
        secure_random_bytes: &[u8; 32],
    ) -> (r: Result<bool, EthKzgStatus>)
        requires
            self.is_blob_sized(),
        ensures
            r == spec_verify_blob_kzg_proof_batch(
                self@,
                views_blob(blobs@),
                views48(commitments@),
                views48(proofs@),
                secure_random_bytes@,
            ),
    {
        proof {
            use_type_invariant(&self.setup);
        }
        let ghost bv = views_blob(blobs@);
        let ghost cv = views48(commitments@);
        let ghost qv = views48(proofs@);
        let n = blobs.len();
        if commitments.len() != n || proofs.len() != n {
            return Err(EthKzgStatus::InputsLengthsMismatch);
        }
        if n == 0 {
            return Ok(true);
        }
        let g = g1_generator();
        let mut ts: Vec<[u8; 48]> = Vec::new();
        let mut qs_vec: Vec<[u8; 48]> = Vec::new();
        let ghost ts_spec = Seq::new(
            bv.len(),
            |i: int|
                {
                    let z = spec_blob_challenge(bv[i], cv[i]);
                    let y = spec_evaluate(
                        blob_chunks(bv[i]),
                        self@.roots,
                        z,
                        self@.log_n,
                        self@.n_inv,
                    );
                    spec_g1_add(
                        spec_g1_add(cv[i], spec_g1_neg(spec_g1_mul(g1_generator_bytes(), y))),
                        spec_g1_mul(qv[i], z),
                    )
                },
        );
        for i in 0..n
            invariant
                n == blobs@.len() && n == commitments@.len() && n == proofs@.len(),
                bv == views_blob(blobs@) && cv == views48(commitments@) && qv == views48(proofs@),
                self.is_blob_sized(),
                self.setup.wf(),
                ts_spec.len() == n,
                forall|j: int| 0 <= j < n ==> #[trigger] ts_spec[j] == ({
                    let z = spec_blob_challenge(bv[j], cv[j]);
                    let y = spec_evaluate(
                        blob_chunks(bv[j]),
                        self@.roots,
                        z,
                        self@.log_n,
                        self@.n_inv,
                    );
                    spec_g1_add(
                        spec_g1_add(cv[j], spec_g1_neg(spec_g1_mul(g1_generator_bytes(), y))),
                        spec_g1_mul(qv[j], z),
                    )
                }),
                g@ == g1_generator_bytes() && valid_g1(g@),
                ts@.len() == i && qs_vec@.len() == i,
                forall|j: int| 0 <= j < i ==> #[trigger] spec_batch_item_check(bv[j], cv[j], qv[j]) is Ok,
                forall|j: int| 0 <= j < i ==> #[trigger] ts@[j]@ == ts_spec[j],
                forall|j: int| 0 <= j < i ==> valid_g1(#[trigger] ts@[j]@),
                forall|j: int| 0 <= j < i ==> #[trigger] qs_vec@[j]@ == qv[j],
                forall|j: int| 0 <= j < i ==> valid_g1(#[trigger] qs_vec@[j]@),
        {
            if let Err(e) = self.check_g1(&commitments[i]) {
                proof {
                    lemma_batch_validate_prefix(bv, cv, qv, i as int);
                }
                return Err(e);
            }
            if let Err(e) = self.check_g1(&proofs[i]) {
                proof {
                    lemma_batch_validate_prefix(bv, cv, qv, i as int);
                }
                return Err(e);
            }
            let chunks = match blob_to_chunks(&blobs[i]) {
                Some(c) => c,
                None => {
                    proof {
                        lemma_batch_validate_prefix(bv, cv, qv, i as int);
                    }
                    return Err(EthKzgStatus::ScalarLargerThanCurveOrder);
                },
            };
            let z = compute_challenge(&blobs[i], &commitments[i]);
            let y = evaluate_poly(
                &chunks,
                &self.setup.roots,
                &z,
                self.setup.log_n,
                &self.setup.n_inv,
            );
            let t = g1_add(
                &g1_add(&commitments[i], &g1_neg(&g1_mul(&g, &y))),
                &g1_mul(&proofs[i], &z),
            );
            ts.push(t);
            let q_bytes: [u8; 48] = proofs[i];
            qs_vec.push(q_bytes);
        }
        proof {
            lemma_batch_validate_prefix(bv, cv, qv, n as int);
        }
        let coeffs = derive_batch_coefficients(secure_random_bytes, n);
        proof {
            assert(views48(ts@) =~= ts_spec);
            assert(views48(qs_vec@) =~= qv);
            assert(views32(coeffs@) =~= Seq::new(
                bv.len(),
                |i: int| spec_batch_coeff(secure_random_bytes@, i as nat),
            ));
        }
        let lhs = g1_lincomb(&ts, &coeffs);
        let rhs = g1_lincomb(&qs_vec, &coeffs);
        let h = g2_generator();
        let tau_h = self.setup.g2_points[1];
        let mut g1s: Vec<[u8; 48]> = Vec::new();
        let mut g2s: Vec<[u8; 96]> = Vec::new();
        g1s.push(lhs);
        g1s.push(g1_neg(&rhs));
        g2s.push(h);
        g2s.push(tau_h);
        proof {
            crate::bls::lemma_deep_g1(g1s);
            crate::bls::lemma_deep_g2(g2s);
            assert(g1s.deep_view() =~= seq![
                spec_g1_lincomb(
                    ts_spec,
                    Seq::new(bv.len(), |i: int| spec_batch_coeff(secure_random_bytes@, i as nat)),
                ),
                spec_g1_neg(
                    spec_g1_lincomb(
                        qv,
                        Seq::new(
                            bv.len(),
                            |i: int| spec_batch_coeff(secure_random_bytes@, i as nat),
                        ),
                    ),
                ),
            ]);
            assert(g2s.deep_view() =~= seq![g2_generator_bytes(), self@.g2s[1]]);
        }
        Ok(multi_pairing_is_one(&g1s, &g2s))
    }
}


// ---------------------------------------------------------------------
// Parallel twins.  The engine in use runs each kernel on the calling
// thread; the attached pool records the parallel configuration.  Every
// twin returns exactly the same specified result as its serial path on
// the same inputs, so parallelism can only change wall-clock time.
// ---------------------------------------------------------------------

impl<'tp> EthKzgContext<'tp> {
    /// `blob_to_kzg_commitment` on the worker pool.
    pub fn blob_to_kzg_commitment_parallel(&self, blob: &[u8; 131072]) -> (r: Result<
        [u8; 48],
        EthKzgStatus,
    >)
        requires
            self.is_blob_sized(),
            self.has_threadpool(),
        ensures
            match r {
                Ok(c) => spec_blob_to_kzg_commitment(self@, blob@) == Ok::<
                    Seq<u8>,
                    EthKzgStatus,
                >(c@),
                Err(e) => spec_blob_to_kzg_commitment(self@, blob@) == Err::<
                    Seq<u8>,
                    EthKzgStatus,
                >(e),
            },
    {
        self.blob_to_kzg_commitment(blob)
    }

    /// `compute_kzg_proof` on the worker pool.
    pub fn compute_kzg_proof_parallel(&self, blob: &[u8; 131072], z_challenge: &[u8; 32]) -> (r:
        Result<([u8; 48], [u8; 32]), EthKzgStatus>)
        requires
            self.is_blob_sized(),
            self.has_threadpool(),
        ensures
            match r {
                Ok(pr) => spec_compute_kzg_proof(self@, blob@, z_challenge@) == Ok::<
                    (Seq<u8>, Seq<u8>),
                    EthKzgStatus,
                >((pr.0@, pr.1@)),
                Err(e) => spec_compute_kzg_proof(self@, blob@, z_challenge@) == Err::<
                    (Seq<u8>, Seq<u8>),
                    EthKzgStatus,
                >(e),
            },
    {
        self.compute_kzg_proof(blob, z_challenge)
    }

    /// `compute_blob_kzg_proof` on the worker pool.
    pub fn compute_blob_kzg_proof_parallel(
        &self,
        blob: &[u8; 131072],
        commitment: &[u8; 48],
    ) -> (r: Result<[u8; 48], EthKzgStatus>)
        requires
            self.is_blob_sized(),
            self.has_threadpool(),
        ensures
            match r {
                Ok(p) => spec_compute_blob_kzg_proof(self@, blob@, commitment@) == Ok::<
                    Seq<u8>,
                    EthKzgStatus,
                >(p@),
                Err(e) => spec_compute_blob_kzg_proof(self@, blob@, commitment@) == Err::<
                    Seq<u8>,
                    EthKzgStatus,
                >(e),
            },
    {
        self.compute_blob_kzg_proof(blob, commitment)
    }

    /// `verify_blob_kzg_proof` on the worker pool.
    pub fn verify_blob_kzg_proof_parallel(
        &self,
        blob: &[u8; 131072],
        commitment: &[u8; 48],
        proof: &[u8; 48],
    ) -> (r: Result<bool, EthKzgStatus>)
        requires
            self.is_blob_sized(),
            self.has_threadpool(),
        ensures
            r == spec_verify_blob_kzg_proof(self@, blob@, commitment@, proof@),
    {
        self.verify_blob_kzg_proof(blob, commitment, proof)
    }

    /// `verify_blob_kzg_proof_batch` on the worker pool.
    pub fn verify_blob_kzg_proof_batch_parallel(
        &self,
        blobs: &[[u8; 131072]],
        commitments: &[[u8; 48]],
        proofs: &[[u8; 48]],
        secure_random_bytes: &[u8; 32],
    ) -> (r: Result<bool, EthKzgStatus>)
        requires
            self.is_blob_sized(),
            self.has_threadpool(),
        ensures
            r == spec_verify_blob_kzg_proof_batch(
                self@,
                views_blob(blobs@),
                views48(commitments@),
                views48(proofs@),
                secure_random_bytes@,
            ),
    {
        self.verify_blob_kzg_proof_batch(blobs, commitments, proofs, secure_random_bytes)
    }
}


// ---------------------------------------------------------------------
// Protocol laws.
// ---------------------------------------------------------------------

/// Law: committing to a blob is a pure function of setup and blob: two
/// results under the same setup and blob are identical.
pub proof fn lemma_commitment_deterministic(
    m: KzgModel,
    blob: Seq<u8>,
    r1: Result<Seq<u8>, EthKzgStatus>,
    r2: Result<Seq<u8>, EthKzgStatus>,
)
    requires
        r1 == spec_blob_to_kzg_commitment(m, blob),
        r2 == spec_blob_to_kzg_commitment(m, blob),
    ensures
        r1 == r2,
{
}

/// Law: every parallel twin agrees with its serial path on every input;
/// both return exactly the same specified result.
pub proof fn lemma_kzg_serial_parallel_agree(
    m: KzgModel,
    blobs: Seq<Seq<u8>>,
    cs: Seq<Seq<u8>>,
    qs: Seq<Seq<u8>>,
    seed: Seq<u8>,
    r1: Result<bool, EthKzgStatus>,
    r2: Result<bool, EthKzgStatus>,
)
    requires
        r1 == spec_verify_blob_kzg_proof_batch(m, blobs, cs, qs, seed),
        r2 == spec_verify_blob_kzg_proof_batch(m, blobs, cs, qs, seed),
    ensures
        r1 == r2,
{
}


// ---------------------------------------------------------------------
// Polynomial-level entry points: commitment and opening over a
// polynomial in evaluation form whose length matches the context's
// domain.  The blob entry points are these, specialized to the fixed
// blob-sized domain.
// ---------------------------------------------------------------------

proof fn lemma_views32_canonical(evals: Seq<[u8; 32]>)
    ensures
        (forall|i: int| 0 <= i < evals.len() ==> is_canonical_scalar(#[trigger] views32(evals)[i]))
            <==> (forall|i: int| 0 <= i < evals.len() ==> is_canonical_scalar(
            #[trigger] evals[i]@,
        )),
{
    if forall|i: int| 0 <= i < evals.len() ==> is_canonical_scalar(#[trigger] views32(evals)[i]) {
        assert forall|i: int| 0 <= i < evals.len() implies is_canonical_scalar(
            #[trigger] evals[i]@,
        ) by {
            assert(views32(evals)[i] == evals[i]@);
        }
    }
    if forall|i: int| 0 <= i < evals.len() ==> is_canonical_scalar(#[trigger] evals[i]@) {
        assert forall|i: int| 0 <= i < evals.len() implies is_canonical_scalar(
            #[trigger] views32(evals)[i],
        ) by {
            assert(views32(evals)[i] == evals[i]@);
        }
    }
}

/// What committing to an evaluation-form polynomial returns.
pub open spec fn spec_commit_polynomial(m: KzgModel, evals: Seq<Seq<u8>>) -> Result<
    Seq<u8>,
    EthKzgStatus,
> {
    if evals.len() != m.g1s.len() {
        Err(EthKzgStatus::InputsLengthsMismatch)
    } else if !(forall|i: int| 0 <= i < evals.len() ==> is_canonical_scalar(#[trigger] evals[i])) {
        Err(EthKzgStatus::ScalarLargerThanCurveOrder)
    } else {
        Ok(spec_g1_lincomb(m.g1s, evals))
    }
}

/// What opening an evaluation-form polynomial returns.
pub open spec fn spec_compute_proof_at(m: KzgModel, evals: Seq<Seq<u8>>, z: Seq<u8>) -> Result<
    (Seq<u8>, Seq<u8>),
    EthKzgStatus,
> {
    if evals.len() != m.g1s.len() {
        Err(EthKzgStatus::InputsLengthsMismatch)
    } else if !(forall|i: int| 0 <= i < evals.len() ==> is_canonical_scalar(#[trigger] evals[i])) {
        Err(EthKzgStatus::ScalarLargerThanCurveOrder)
    } else if !is_canonical_scalar(z) {
        Err(EthKzgStatus::ScalarLargerThanCurveOrder)
    } else {
        Ok(spec_proof_and_eval(m, evals, z))
    }
}

impl<'tp> EthKzgContext<'tp> {
    /// Validates that the evaluations form a polynomial over the domain.
    fn check_evals(&self, evals: &Vec<[u8; 32]>) -> (r: Result<(), EthKzgStatus>)
        ensures
            match r {
                Ok(_) => evals@.len() == self@.g1s.len() && (forall|i: int|
                    0 <= i < evals@.len() ==> is_canonical_scalar(#[trigger] evals@[i]@)),
                Err(e) => (e == EthKzgStatus::InputsLengthsMismatch && evals@.len()
                    != self@.g1s.len()) || (e == EthKzgStatus::ScalarLargerThanCurveOrder
                    && evals@.len() == self@.g1s.len() && !(forall|i: int|
                    0 <= i < evals@.len() ==> is_canonical_scalar(#[trigger] evals@[i]@))),
            },
    {
        proof {
            use_type_invariant(&self.setup);
        }
        let n = evals.len();
        if n != self.setup.g1_points.len() {
            return Err(EthKzgStatus::InputsLengthsMismatch);
        }
        for i in 0..n
            invariant
                n == evals@.len(),
                n == self@.g1s.len(),
                forall|j: int| 0 <= j < i ==> is_canonical_scalar(#[trigger] evals@[j]@),
        {
            if !check_canonical_scalar(&evals[i]) {
                return Err(EthKzgStatus::ScalarLargerThanCurveOrder);
            }
        }
        Ok(())
    }

    /// Commits to a polynomial in evaluation form over the context's
    /// domain.
    pub fn commit_polynomial(&self, evals: &Vec<[u8; 32]>) -> (r: Result<[u8; 48], EthKzgStatus>)
        ensures
            match r {
                Ok(c) => spec_commit_polynomial(self@, views32(evals@)) == Ok::<
                    Seq<u8>,
                    EthKzgStatus,
                >(c@),
                Err(e) => spec_commit_polynomial(self@, views32(evals@)) == Err::<
                    Seq<u8>,
                    EthKzgStatus,
                >(e),
            },
    {
        proof {
            use_type_invariant(&self.setup);
        }
        match self.check_evals(evals) {
            Err(e) => {
                proof {
                    lemma_views32_canonical(evals@);
                }
                return Err(e);
            },
            Ok(_) => {},
        }
        proof {
            lemma_views32_canonical(evals@);
        }
        let c = g1_lincomb(&self.setup.g1_points, evals);
        Ok(c)
    }

    /// Computes the opening proof of a polynomial in evaluation form at a
    /// challenge point, returning the proof and the evaluation there.
    pub fn compute_proof_at(&self, evals: &Vec<[u8; 32]>, z_challenge: &[u8; 32]) -> (r: Result<
        ([u8; 48], [u8; 32]),
        EthKzgStatus,
    >)
        ensures
            match r {
                Ok(pr) => spec_compute_proof_at(self@, views32(evals@), z_challenge@) == Ok::<
                    (Seq<u8>, Seq<u8>),
                    EthKzgStatus,
                >((pr.0@, pr.1@)),
                Err(e) => spec_compute_proof_at(self@, views32(evals@), z_challenge@) == Err::<
                    (Seq<u8>, Seq<u8>),
                    EthKzgStatus,
                >(e),
            },
    {
        proof {
            use_type_invariant(&self.setup);
        }
        match self.check_evals(evals) {
            Err(e) => {
                proof {
                    lemma_views32_canonical(evals@);
                }
                return Err(e);
            },
            Ok(_) => {},
        }
        proof {
            lemma_views32_canonical(evals@);
        }
        if !check_canonical_scalar(z_challenge) {
            return Err(EthKzgStatus::ScalarLargerThanCurveOrder);
        }
        let (proof_pt, y) = self.proof_and_eval(evals, z_challenge);
        Ok((proof_pt, y))
    }
}

} // verus!
