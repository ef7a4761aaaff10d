//! Trusted boundary to the arithmetic engine (the `bls12_381` crate).
//!
//! The engine supplies field arithmetic in the scalar field, the group law
//! on the two curve groups, hash-to-curve, and pairing evaluation.  Points
//! cross this boundary only as their canonical compressed encodings
//! (48 bytes for the first group, 96 for the second), scalars as canonical
//! 32-byte big-endian encodings, so every contract here speaks of plain
//! byte strings.  Results that only the curve arithmetic can determine are
//! given names (`spec_g1_add`, ...); results that a few lines of modular
//! arithmetic can state exactly are stated exactly (`fr_add_bytes`, ...).

use vstd::prelude::*;
use sha2::Digest;
use bls12_381::hash_to_curve::{ExpandMsgXmd, HashToCurve, MapToCurve};
use halo2curves::CurveAffine;
use halo2curves::bn256;
use halo2curves::ff::FromUniformBytes;
use halo2curves::group::{Group, GroupEncoding, UncompressedEncoding};
use halo2curves::group::cofactor::CofactorGroup;
use halo2curves::pairing::MillerLoopResult;
use crate::encoding::{
    be_nat, nat_to_be, rev32, bls_r, bls_p, bn_p, is_canonical_scalar,
    lemma_be_nat_bound, lemma_be_nat_of_nat_to_be, lemma_nat_to_be_len, lemma_be_nat_split,
};
use vstd::arithmetic::power::{pow, lemma_pow_increases, lemma_pow1, lemma_pow_adds};
use vstd::arithmetic::div_mod::lemma_mod_bound;

verus! {

// ---------------------------------------------------------------------
// Byte-level shape of compressed point encodings (ZCash convention):
// byte 0 carries three flag bits (compressed, infinity, sign), the rest
// of the x-coordinate follows in big-endian order.
// ---------------------------------------------------------------------

/// The canonical encoding of the identity of the 48-byte group.
pub open spec fn is_g1_infinity(s: Seq<u8>) -> bool {
    s.len() == 48 && s[0] == 0xc0u8 && (forall|i: int| 1 <= i < 48 ==> s[i] == 0u8)
}

/// The canonical encoding of the identity of the 96-byte group.
pub open spec fn is_g2_infinity(s: Seq<u8>) -> bool {
    s.len() == 96 && s[0] == 0xc0u8 && (forall|i: int| 1 <= i < 96 ==> s[i] == 0u8)
}

/// The x-coordinate bytes of a 48-byte encoding, flag bits masked away.
pub open spec fn g1_masked_x(s: Seq<u8>) -> Seq<u8> {
    seq![(s[0] & 0x1fu8)] + s.subrange(1, 48)
}

/// Flag bits and coordinate range of a non-identity 48-byte encoding:
/// compressed bit set, infinity bit clear, x below the field modulus.
pub open spec fn g1_bytes_pre(s: Seq<u8>) -> bool {
    &&& s.len() == 48
    &&& s[0] & 0x80u8 == 0x80u8
    &&& s[0] & 0x40u8 != 0x40u8
    &&& be_nat(g1_masked_x(s)) < bls_p()
}

/// First half of the x-coordinate of a 96-byte encoding, flags masked.
pub open spec fn g2_masked_x1(s: Seq<u8>) -> Seq<u8> {
    seq![(s[0] & 0x1fu8)] + s.subrange(1, 48)
}

/// Second half of the x-coordinate of a 96-byte encoding.
pub open spec fn g2_x0(s: Seq<u8>) -> Seq<u8> {
    s.subrange(48, 96)
}

/// Flag bits and coordinate range of a non-identity 96-byte encoding.
pub open spec fn g2_bytes_pre(s: Seq<u8>) -> bool {
    &&& s.len() == 96
    &&& s[0] & 0x80u8 == 0x80u8
    &&& s[0] & 0x40u8 != 0x40u8
    &&& be_nat(g2_masked_x1(s)) < bls_p()
    &&& be_nat(g2_x0(s)) < bls_p()
}

// ---------------------------------------------------------------------
// Named engine results.  Each name stands for what one engine function
// returns on the given encodings; the same bytes always name the same
// value, which holds because the engine's functions are deterministic
// functions of their arguments.
// ---------------------------------------------------------------------

/// Whether a well-formed non-identity 48-byte encoding lies on the curve,
/// i.e. whether `G1Affine::from_compressed_unchecked` succeeds on it.
pub uninterp spec fn spec_g1_on_curve(s: Seq<u8>) -> bool;

/// Whether a decodable 48-byte encoding lies in the prime-order subgroup,
/// i.e. what `G1Affine::is_torsion_free` returns on the decoded point.
pub uninterp spec fn spec_g1_in_subgroup(s: Seq<u8>) -> bool;

/// The compressed sum of two decodable 48-byte points.
pub uninterp spec fn spec_g1_add(a: Seq<u8>, b: Seq<u8>) -> Seq<u8>;

/// The compressed negation of a decodable 48-byte point.
pub uninterp spec fn spec_g1_neg(a: Seq<u8>) -> Seq<u8>;

/// The compressed scalar multiple of a decodable 48-byte point by a
/// canonical scalar.
pub uninterp spec fn spec_g1_mul(p: Seq<u8>, k: Seq<u8>) -> Seq<u8>;

/// Whether a well-formed non-identity 96-byte encoding lies on the curve.
pub uninterp spec fn spec_g2_on_curve(s: Seq<u8>) -> bool;

/// Whether a decodable 96-byte encoding lies in the prime-order subgroup.
pub uninterp spec fn spec_g2_in_subgroup(s: Seq<u8>) -> bool;

/// The compressed sum of two decodable 96-byte points.
pub uninterp spec fn spec_g2_add(a: Seq<u8>, b: Seq<u8>) -> Seq<u8>;

/// The compressed negation of a decodable 96-byte point.
pub uninterp spec fn spec_g2_neg(a: Seq<u8>) -> Seq<u8>;

/// The compressed scalar multiple of a decodable 96-byte point.
pub uninterp spec fn spec_g2_mul(p: Seq<u8>, k: Seq<u8>) -> Seq<u8>;

/// The compressed point that the Ethereum proof-of-possession ciphersuite
/// hash-to-curve (`BLS_SIG_BLS12381G2_XMD:SHA-256_SSWU_RO_POP_`) maps a
/// message to.
pub uninterp spec fn spec_hash_to_g2(msg: Seq<u8>) -> Seq<u8>;

/// The SHA-256 digest of a byte string.
pub uninterp spec fn spec_sha256(msg: Seq<u8>) -> Seq<u8>;

/// The canonical encoding of the multiplicative inverse of a nonzero
/// canonical scalar.
pub uninterp spec fn spec_fr_inv(a: Seq<u8>) -> Seq<u8>;


/// Whether 96 bytes of affine coordinates (x then y, both below the
/// field modulus) lie on the first curve, i.e. whether
/// `G1Affine::from_uncompressed` accepts them up to the subgroup check.
pub uninterp spec fn spec_g1u_on_curve(s: Seq<u8>) -> bool;

/// The compressed encoding of the point with those coordinates.
pub uninterp spec fn spec_g1u_compress(s: Seq<u8>) -> Seq<u8>;

/// The affine coordinates (x then y) of a non-identity compressed point
/// of the first group.
pub uninterp spec fn spec_g1_uncompress(s: Seq<u8>) -> Seq<u8>;

/// Whether 192 bytes of affine coordinates of the second curve (in the
/// engine's layout: both x halves, then both y halves) lie on it.
pub uninterp spec fn spec_g2u_on_curve(s: Seq<u8>) -> bool;

/// The compressed encoding of the second-group point with those
/// coordinates.
pub uninterp spec fn spec_g2u_compress(s: Seq<u8>) -> Seq<u8>;

/// The affine coordinates of a non-identity compressed point of the
/// second group, in the engine's layout.
pub uninterp spec fn spec_g2_uncompress(s: Seq<u8>) -> Seq<u8>;

/// The subgroup point that the simplified map sends a base-field element
/// to (the map-to-curve step followed by cofactor clearing).
pub uninterp spec fn spec_map_fp_to_g1(s: Seq<u8>) -> Seq<u8>;

/// The subgroup point that the simplified map sends an extension-field
/// element (real half then imaginary half) to.
pub uninterp spec fn spec_map_fp2_to_g2(s: Seq<u8>) -> Seq<u8>;


/// Whether a 32-byte big-endian value encodes a handle the proving-curve
/// engine's point decoder accepts (the engine's own compressed form).
pub uninterp spec fn spec_bn_g1_valid(s: Seq<u8>) -> bool;

/// Whether 64 bytes of proving-curve affine coordinates (x then y,
/// little-endian, both below that curve's field modulus) lie on it.
pub uninterp spec fn spec_bn_g1_on_curve(s: Seq<u8>) -> bool;

/// The engine's compressed encoding of the proving-curve point with
/// those coordinates.
pub uninterp spec fn spec_bn_g1_compress(s: Seq<u8>) -> Seq<u8>;

/// The sum of two proving-curve points, as engine handles.
pub uninterp spec fn spec_bn_g1_add(a: Seq<u8>, b: Seq<u8>) -> Seq<u8>;

/// The proving-curve point times the residue of a 32-byte big-endian
/// scalar modulo that curve's group order.
pub uninterp spec fn spec_bn_g1_mul(p: Seq<u8>, k: Seq<u8>) -> Seq<u8>;

/// The 64-byte big-endian affine coordinates of a proving-curve point;
/// the identity renders as zero words, the precompile convention.
pub uninterp spec fn spec_bn_g1_coords(h: Seq<u8>) -> Seq<u8>;

/// The second-group analogues on the proving curve (128 coordinate
/// bytes, little-endian, each coordinate's real half first).
pub uninterp spec fn spec_bn_g2_valid(s: Seq<u8>) -> bool;

pub uninterp spec fn spec_bn_g2_on_curve(s: Seq<u8>) -> bool;

pub uninterp spec fn spec_bn_g2_compress(s: Seq<u8>) -> Seq<u8>;

/// Membership of a proving-curve second-group point in the prime-order
/// subgroup.
pub uninterp spec fn spec_bn_g2_in_subgroup(s: Seq<u8>) -> bool;

/// Whether the product of the proving-curve pairings of the paired-up
/// points is the identity of the target group.
pub uninterp spec fn spec_bn_pairing_one(g1s: Seq<Seq<u8>>, g2s: Seq<Seq<u8>>) -> bool;

/// Whether the product of the pairings of the paired-up points is the
/// identity of the pairing target group.
pub uninterp spec fn spec_multi_pairing_one(g1s: Seq<Seq<u8>>, g2s: Seq<Seq<u8>>) -> bool;

// ---------------------------------------------------------------------
// Validity of an encoding: the identity encoding, or well-formed bytes
// that decode to a curve point.  This is exactly the set of encodings
// that the engine's `from_compressed_unchecked` accepts.
// ---------------------------------------------------------------------

pub open spec fn valid_g1(s: Seq<u8>) -> bool {
    is_g1_infinity(s) || (g1_bytes_pre(s) && spec_g1_on_curve(s))
}

pub open spec fn valid_g2(s: Seq<u8>) -> bool {
    is_g2_infinity(s) || (g2_bytes_pre(s) && spec_g2_on_curve(s))
}

// ---------------------------------------------------------------------
// Exact byte encodings of the two group generators (the standard
// BLS12-381 generators; these are their documented canonical compressed
// encodings).
// ---------------------------------------------------------------------

pub open spec fn g1_generator_bytes() -> Seq<u8> {
    seq![
        0x97u8, 0xf1u8, 0xd3u8, 0xa7u8, 0x31u8, 0x97u8, 0xd7u8, 0x94u8,
        0x26u8, 0x95u8, 0x63u8, 0x8cu8, 0x4fu8, 0xa9u8, 0xacu8, 0x0fu8,
        0xc3u8, 0x68u8, 0x8cu8, 0x4fu8, 0x97u8, 0x74u8, 0xb9u8, 0x05u8,
        0xa1u8, 0x4eu8, 0x3au8, 0x3fu8, 0x17u8, 0x1bu8, 0xacu8, 0x58u8,
        0x6cu8, 0x55u8, 0xe8u8, 0x3fu8, 0xf9u8, 0x7au8, 0x1au8, 0xefu8,
        0xfbu8, 0x3au8, 0xf0u8, 0x0au8, 0xdbu8, 0x22u8, 0xc6u8, 0xbbu8,
    ]
}

pub open spec fn g2_generator_bytes() -> Seq<u8> {
    seq![
        0x93u8, 0xe0u8, 0x2bu8, 0x60u8, 0x52u8, 0x71u8, 0x9fu8, 0x60u8,
        0x7du8, 0xacu8, 0xd3u8, 0xa0u8, 0x88u8, 0x27u8, 0x4fu8, 0x65u8,
        0x59u8, 0x6bu8, 0xd0u8, 0xd0u8, 0x99u8, 0x20u8, 0xb6u8, 0x1au8,
        0xb5u8, 0xdau8, 0x61u8, 0xbbu8, 0xdcu8, 0x7fu8, 0x50u8, 0x49u8,
        0x33u8, 0x4cu8, 0xf1u8, 0x12u8, 0x13u8, 0x94u8, 0x5du8, 0x57u8,
        0xe5u8, 0xacu8, 0x7du8, 0x05u8, 0x5du8, 0x04u8, 0x2bu8, 0x7eu8,
        0x02u8, 0x4au8, 0xa2u8, 0xb2u8, 0xf0u8, 0x8fu8, 0x0au8, 0x91u8,
        0x26u8, 0x08u8, 0x05u8, 0x27u8, 0x2du8, 0xc5u8, 0x10u8, 0x51u8,
        0xc6u8, 0xe4u8, 0x7au8, 0xd4u8, 0xfau8, 0x40u8, 0x3bu8, 0x02u8,
        0xb4u8, 0x51u8, 0x0bu8, 0x64u8, 0x7au8, 0xe3u8, 0xd1u8, 0x77u8,
        0x0bu8, 0xacu8, 0x03u8, 0x26u8, 0xa8u8, 0x05u8, 0xbbu8, 0xefu8,
        0xd4u8, 0x80u8, 0x56u8, 0xc8u8, 0xc1u8, 0x21u8, 0xbdu8, 0xb8u8,
    ]
}

// ---------------------------------------------------------------------
// Exact byte-level specifications of the scalar-field operations.
// ---------------------------------------------------------------------

pub open spec fn fr_add_bytes(a: Seq<u8>, b: Seq<u8>) -> Seq<u8> {
    nat_to_be((be_nat(a) + be_nat(b)) % bls_r(), 32)
}

pub open spec fn fr_sub_bytes(a: Seq<u8>, b: Seq<u8>) -> Seq<u8> {
    nat_to_be((((be_nat(a) + bls_r()) - be_nat(b)) as nat) % bls_r(), 32)
}

pub open spec fn fr_mul_bytes(a: Seq<u8>, b: Seq<u8>) -> Seq<u8> {
    nat_to_be((be_nat(a) * be_nat(b)) % bls_r(), 32)
}

pub open spec fn fr_reduce_bytes(a: Seq<u8>) -> Seq<u8> {
    nat_to_be(be_nat(a) % bls_r(), 32)
}

/// The group order is large: above 256^31 (so above 2^248), and in
/// particular above 2^16.
pub proof fn lemma_r_large()
    ensures
        bls_r() > pow(256, 31),
        bls_r() > 65536,
        bls_r() < pow(256, 32),
{
    let s = crate::encoding::bls_r_bytes();
    lemma_be_nat_split(s, 1);
    assert(s.take(1).drop_last() =~= Seq::<u8>::empty());
    assert(be_nat(Seq::<u8>::empty()) == 0);
    assert(s.take(1).last() == 0x73u8);
    assert(be_nat(s.take(1)) == 0x73);
    lemma_pow1(256);
    lemma_pow_adds(256, 1, 1);
    lemma_pow_increases(256, 2, 31);
    assert(bls_r() >= 0x73 * pow(256, 31));
    assert(0x73 * pow(256, 31) > pow(256, 31)) by (nonlinear_arith)
        requires
            pow(256, 31) >= 65536,
    ;
    lemma_be_nat_bound(s);
}

/// A value reduced modulo the group order encodes to a canonical scalar
/// whose value it is.
pub proof fn lemma_mod_r_canonical(n: nat)
    ensures
        is_canonical_scalar(nat_to_be(n % bls_r(), 32)),
        be_nat(nat_to_be(n % bls_r(), 32)) == n % bls_r(),
{
    lemma_r_large();
    lemma_mod_bound(n as int, bls_r() as int);
    lemma_nat_to_be_len(n % bls_r(), 32);
    lemma_be_nat_of_nat_to_be(n % bls_r(), 32);
}

// ---------------------------------------------------------------------
// Trusted wrappers.  Verus believes their contracts; their bodies make
// one engine call each, plus conversions between byte encodings and the
// engine's point and scalar types.
// ---------------------------------------------------------------------

/// Relies on `sha2::Sha256`: the 32-byte SHA-256 digest of the message.
/// The `clear_memory` request is an engine-side hardening knob and does
/// not change the digest.
#[verifier::external_body]
pub fn sha256_hash(message: &[u8], clear_memory: bool) -> (r: [u8; 32])
    ensures
        r@ == spec_sha256(message@),
{
    let _ = clear_memory;
    let digest = sha2::Sha256::digest(message);
    let mut out = [0u8; 32];
    out.copy_from_slice(&digest);
    out
}

/// Relies on `bls12_381::Scalar`'s `Add`: addition modulo the group order.
#[verifier::external_body]
pub(crate) fn fr_add(a: &[u8; 32], b: &[u8; 32]) -> (r: [u8; 32])
    requires
        is_canonical_scalar(a@),
        is_canonical_scalar(b@),
    ensures
        r@ == fr_add_bytes(a@, b@),
        is_canonical_scalar(r@),
{
    let (mut la, mut lb) = (*a, *b);
    la.reverse();
    lb.reverse();
    let s = bls12_381::Scalar::from_bytes(&la).unwrap() + bls12_381::Scalar::from_bytes(&lb).unwrap();
    let mut out = s.to_bytes();
    out.reverse();
    out
}

/// Relies on `bls12_381::Scalar`'s `Sub`: subtraction modulo the group order.
#[verifier::external_body]
pub(crate) fn fr_sub(a: &[u8; 32], b: &[u8; 32]) -> (r: [u8; 32])
    requires
        is_canonical_scalar(a@),
        is_canonical_scalar(b@),
    ensures
        r@ == fr_sub_bytes(a@, b@),
        is_canonical_scalar(r@),
{
    let (mut la, mut lb) = (*a, *b);
    la.reverse();
    lb.reverse();
    let s = bls12_381::Scalar::from_bytes(&la).unwrap() - bls12_381::Scalar::from_bytes(&lb).unwrap();
    let mut out = s.to_bytes();
    out.reverse();
    out
}

/// Relies on `bls12_381::Scalar`'s `Mul`: multiplication modulo the group order.
#[verifier::external_body]
pub(crate) fn fr_mul(a: &[u8; 32], b: &[u8; 32]) -> (r: [u8; 32])
    requires
        is_canonical_scalar(a@),
        is_canonical_scalar(b@),
    ensures
        r@ == fr_mul_bytes(a@, b@),
        is_canonical_scalar(r@),
{
    let (mut la, mut lb) = (*a, *b);
    la.reverse();
    lb.reverse();
    let s = bls12_381::Scalar::from_bytes(&la).unwrap() * bls12_381::Scalar::from_bytes(&lb).unwrap();
    let mut out = s.to_bytes();
    out.reverse();
    out
}

/// Relies on `bls12_381::Scalar::invert`: the multiplicative inverse of a
/// nonzero scalar, so multiplying back gives one.  Zero has no inverse;
/// this returns zero for it, totalizing the operation.
#[verifier::external_body]
pub(crate) fn fr_inv(a: &[u8; 32]) -> (r: [u8; 32])
    requires
        is_canonical_scalar(a@),
    ensures
        r@ == spec_fr_inv(a@),
        is_canonical_scalar(r@),
        be_nat(a@) != 0 ==> (be_nat(r@) * be_nat(a@)) % bls_r() == 1,
        be_nat(a@) == 0 ==> be_nat(r@) == 0,
{
    let mut la = *a;
    la.reverse();
    let inv = bls12_381::Scalar::from_bytes(&la).unwrap().invert();
    let s = if inv.is_some().into() {
        inv.unwrap()
    } else {
        bls12_381::Scalar::zero()
    };
    let mut out = s.to_bytes();
    out.reverse();
    out
}

/// Relies on `bls12_381::Scalar::from_bytes_wide`: reduction of a 256-bit
/// integer modulo the group order.
#[verifier::external_body]
pub(crate) fn fr_reduce(a: &[u8; 32]) -> (r: [u8; 32])
    ensures
        r@ == fr_reduce_bytes(a@),
        is_canonical_scalar(r@),
{
    let mut le = *a;
    le.reverse();
    let mut wide = [0u8; 64];
    wide[..32].copy_from_slice(&le);
    let mut out = bls12_381::Scalar::from_bytes_wide(&wide).to_bytes();
    out.reverse();
    out
}

/// Relies on `bls12_381::G1Affine::from_compressed_unchecked`: on bytes
/// whose flags and coordinate range were already checked, it succeeds
/// exactly when the x-coordinate has a matching curve point.
#[verifier::external_body]
pub(crate) fn g1_check_on_curve(b: &[u8; 48]) -> (r: bool)
    requires
        g1_bytes_pre(b@),
    ensures
        r == spec_g1_on_curve(b@),
{
    bls12_381::G1Affine::from_compressed_unchecked(b).is_some().into()
}

/// Relies on `bls12_381::G1Affine::is_torsion_free`: membership of the
/// decoded point in the prime-order subgroup.
#[verifier::external_body]
pub(crate) fn g1_check_subgroup(b: &[u8; 48]) -> (r: bool)
    requires
        valid_g1(b@),
    ensures
        r == spec_g1_in_subgroup(b@),
{
    let p = bls12_381::G1Affine::from_compressed_unchecked(b).unwrap();
    p.is_torsion_free().into()
}

/// Relies on `bls12_381::G2Affine::from_compressed_unchecked`, as for the
/// 48-byte group.
#[verifier::external_body]
pub(crate) fn g2_check_on_curve(b: &[u8; 96]) -> (r: bool)
    requires
        g2_bytes_pre(b@),
    ensures
        r == spec_g2_on_curve(b@),
{
    bls12_381::G2Affine::from_compressed_unchecked(b).is_some().into()
}

/// Relies on `bls12_381::G2Affine::is_torsion_free`.
#[verifier::external_body]
pub(crate) fn g2_check_subgroup(b: &[u8; 96]) -> (r: bool)
    requires
        valid_g2(b@),
    ensures
        r == spec_g2_in_subgroup(b@),
{
    let p = bls12_381::G2Affine::from_compressed_unchecked(b).unwrap();
    p.is_torsion_free().into()
}

/// Relies on the group law of `bls12_381::G1Projective` (`Add`) and the
/// canonical compressed serialization `G1Affine::to_compressed`.  The
/// prime-order subgroup is closed under addition.
#[verifier::external_body]
pub(crate) fn g1_add(a: &[u8; 48], b: &[u8; 48]) -> (r: [u8; 48])
    requires
        valid_g1(a@),
        valid_g1(b@),
    ensures
        r@ == spec_g1_add(a@, b@),
        valid_g1(r@),
        spec_g1_in_subgroup(a@) && spec_g1_in_subgroup(b@) ==> spec_g1_in_subgroup(r@),
{
    let pa = bls12_381::G1Affine::from_compressed_unchecked(a).unwrap();
    let pb = bls12_381::G1Affine::from_compressed_unchecked(b).unwrap();
    let p = bls12_381::G1Projective::from(pa) + bls12_381::G1Projective::from(pb);
    bls12_381::G1Affine::from(p).to_compressed()
}

/// Relies on `bls12_381::G1Projective`'s `Neg`.  Negation stays in the
/// prime-order subgroup and sends the identity exactly to itself.
#[verifier::external_body]
pub(crate) fn g1_neg(a: &[u8; 48]) -> (r: [u8; 48])
    requires
        valid_g1(a@),
    ensures
        r@ == spec_g1_neg(a@),
        valid_g1(r@),
        spec_g1_in_subgroup(a@) ==> spec_g1_in_subgroup(r@),
        is_g1_infinity(r@) == is_g1_infinity(a@),
{
    let pa = bls12_381::G1Affine::from_compressed_unchecked(a).unwrap();
    (-pa).to_compressed()
}

/// Relies on `bls12_381::G1Projective`'s scalar `Mul`.  Scalar multiples
/// of subgroup points stay in the subgroup, and because the subgroup's
/// order is the scalar-field order (a prime), a multiple of a non-identity
/// subgroup point by a nonzero canonical scalar is not the identity.
#[verifier::external_body]
pub(crate) fn g1_mul(p: &[u8; 48], k: &[u8; 32]) -> (r: [u8; 48])
    requires
        valid_g1(p@),
        is_canonical_scalar(k@),
    ensures
        r@ == spec_g1_mul(p@, k@),
        valid_g1(r@),
        spec_g1_in_subgroup(p@) ==> spec_g1_in_subgroup(r@),
        spec_g1_in_subgroup(p@) && !is_g1_infinity(p@) && be_nat(k@) != 0 ==> !is_g1_infinity(
            r@,
        ),
{
    let pp = bls12_381::G1Affine::from_compressed_unchecked(p).unwrap();
    let mut lk = *k;
    lk.reverse();
    let q = bls12_381::G1Projective::from(pp) * bls12_381::Scalar::from_bytes(&lk).unwrap();
    bls12_381::G1Affine::from(q).to_compressed()
}

/// Relies on `bls12_381::G1Affine::generator` and `to_compressed`: the
/// engine's generator serializes to the documented canonical encoding,
/// a valid point of the prime-order subgroup.
#[verifier::external_body]
pub(crate) fn g1_generator() -> (r: [u8; 48])
    ensures
        r@ == g1_generator_bytes(),
        valid_g1(r@),
        !is_g1_infinity(r@),
        spec_g1_in_subgroup(r@),
{
    bls12_381::G1Affine::generator().to_compressed()
}

/// Relies on the group law of `bls12_381::G2Projective` (`Add`).  The
/// prime-order subgroup is closed under addition.
#[verifier::external_body]
pub(crate) fn g2_add(a: &[u8; 96], b: &[u8; 96]) -> (r: [u8; 96])
    requires
        valid_g2(a@),
        valid_g2(b@),
    ensures
        r@ == spec_g2_add(a@, b@),
        valid_g2(r@),
        spec_g2_in_subgroup(a@) && spec_g2_in_subgroup(b@) ==> spec_g2_in_subgroup(r@),
{
    let pa = bls12_381::G2Affine::from_compressed_unchecked(a).unwrap();
    let pb = bls12_381::G2Affine::from_compressed_unchecked(b).unwrap();
    let p = bls12_381::G2Projective::from(pa) + bls12_381::G2Projective::from(pb);
    bls12_381::G2Affine::from(p).to_compressed()
}

/// Relies on `bls12_381::G2Projective`'s `Neg`.  Negation stays in the
/// prime-order subgroup and sends the identity exactly to itself.
#[verifier::external_body]
pub(crate) fn g2_neg(a: &[u8; 96]) -> (r: [u8; 96])
    requires
        valid_g2(a@),
    ensures
        r@ == spec_g2_neg(a@),
        valid_g2(r@),
        spec_g2_in_subgroup(a@) ==> spec_g2_in_subgroup(r@),
        is_g2_infinity(r@) == is_g2_infinity(a@),
{
    let pa = bls12_381::G2Affine::from_compressed_unchecked(a).unwrap();
    (-pa).to_compressed()
}

/// Relies on `bls12_381::G2Projective`'s scalar `Mul`, with the same
/// subgroup and non-identity facts as for the first group.
#[verifier::external_body]
pub(crate) fn g2_mul(p: &[u8; 96], k: &[u8; 32]) -> (r: [u8; 96])
    requires
        valid_g2(p@),
        is_canonical_scalar(k@),
    ensures
        r@ == spec_g2_mul(p@, k@),
        valid_g2(r@),
        spec_g2_in_subgroup(p@) ==> spec_g2_in_subgroup(r@),
        spec_g2_in_subgroup(p@) && !is_g2_infinity(p@) && be_nat(k@) != 0 ==> !is_g2_infinity(
            r@,
        ),
{
    let pp = bls12_381::G2Affine::from_compressed_unchecked(p).unwrap();
    let mut lk = *k;
    lk.reverse();
    let q = bls12_381::G2Projective::from(pp) * bls12_381::Scalar::from_bytes(&lk).unwrap();
    bls12_381::G2Affine::from(q).to_compressed()
}

/// Relies on `bls12_381::G2Affine::generator` and `to_compressed`.
#[verifier::external_body]
pub(crate) fn g2_generator() -> (r: [u8; 96])
    ensures
        r@ == g2_generator_bytes(),
        valid_g2(r@),
        !is_g2_infinity(r@),
        spec_g2_in_subgroup(r@),
{
    bls12_381::G2Affine::generator().to_compressed()
}

/// Relies on `bls12_381::hash_to_curve::HashToCurve` for `G2Projective`
/// with `ExpandMsgXmd<Sha256>` under the Ethereum proof-of-possession
/// domain separation tag: a deterministic map from messages to valid
/// points of the prime-order subgroup.
#[verifier::external_body]
pub(crate) fn hash_to_g2(msg: &[u8]) -> (r: [u8; 96])
    ensures
        r@ == spec_hash_to_g2(msg@),
        valid_g2(r@),
        spec_g2_in_subgroup(r@),
{
    let p = <bls12_381::G2Projective as HashToCurve<ExpandMsgXmd<sha2::Sha256>>>::hash_to_curve(
        msg,
        b"BLS_SIG_BLS12381G2_XMD:SHA-256_SSWU_RO_POP_",
    );
    bls12_381::G2Affine::from(p).to_compressed()
}


/// Relies on `bls12_381::G1Affine::from_uncompressed_unchecked` and
/// `is_on_curve`: with both coordinates below the field modulus the flag
/// bits are clear and decoding succeeds, so acceptance is decided by
/// curve membership alone; the decoded point carries a clear infinity
/// flag, so its compressed encoding is not the identity encoding.
#[verifier::external_body]
pub(crate) fn g1_uncompressed_decode(b: &[u8; 96]) -> (r: Option<[u8; 48]>)
    requires
        be_nat(b@.subrange(0, 48)) < bls_p(),
        be_nat(b@.subrange(48, 96)) < bls_p(),
    ensures
        (r is Some) == spec_g1u_on_curve(b@),
        r is Some ==> r->0@ == spec_g1u_compress(b@) && valid_g1(r->0@) && !is_g1_infinity(
            r->0@,
        ),
{
    let p = bls12_381::G1Affine::from_uncompressed_unchecked(b).unwrap();
    if p.is_on_curve().into() {
        Some(p.to_compressed())
    } else {
        None
    }
}

/// Relies on `bls12_381::G1Affine::to_uncompressed`: the affine
/// coordinates of a non-identity point, with clear flag bits.
#[verifier::external_body]
pub(crate) fn g1_uncompress(b: &[u8; 48]) -> (r: [u8; 96])
    requires
        valid_g1(b@),
        !is_g1_infinity(b@),
    ensures
        r@ == spec_g1_uncompress(b@),
{
    bls12_381::G1Affine::from_compressed_unchecked(b).unwrap().to_uncompressed()
}

/// Relies on `bls12_381::G2Affine::from_uncompressed_unchecked` and
/// `is_on_curve`, as for the first group.
#[verifier::external_body]
pub(crate) fn g2_uncompressed_decode(b: &[u8; 192]) -> (r: Option<[u8; 96]>)
    requires
        be_nat(b@.subrange(0, 48)) < bls_p(),
        be_nat(b@.subrange(48, 96)) < bls_p(),
        be_nat(b@.subrange(96, 144)) < bls_p(),
        be_nat(b@.subrange(144, 192)) < bls_p(),
    ensures
        (r is Some) == spec_g2u_on_curve(b@),
        r is Some ==> r->0@ == spec_g2u_compress(b@) && valid_g2(r->0@) && !is_g2_infinity(
            r->0@,
        ),
{
    let p = bls12_381::G2Affine::from_uncompressed_unchecked(b).unwrap();
    if p.is_on_curve().into() {
        Some(p.to_compressed())
    } else {
        None
    }
}

/// Relies on `bls12_381::G2Affine::to_uncompressed`.
#[verifier::external_body]
pub(crate) fn g2_uncompress(b: &[u8; 96]) -> (r: [u8; 192])
    requires
        valid_g2(b@),
        !is_g2_infinity(b@),
    ensures
        r@ == spec_g2_uncompress(b@),
{
    bls12_381::G2Affine::from_compressed_unchecked(b).unwrap().to_uncompressed()
}

/// Relies on `bls12_381::hash_to_curve::MapToCurve` for `G1Projective`:
/// the simplified map from a canonical base-field element, with the
/// cofactor cleared, so the result lies in the prime-order subgroup.
#[verifier::external_body]
pub(crate) fn map_fp_to_g1(fp: &[u8; 48]) -> (r: [u8; 48])
    requires
        be_nat(fp@) < bls_p(),
    ensures
        r@ == spec_map_fp_to_g1(fp@),
        valid_g1(r@),
        spec_g1_in_subgroup(r@),
{
    let u = <<bls12_381::G1Projective as MapToCurve>::Field>::from_bytes(fp).unwrap();
    let p = <bls12_381::G1Projective as MapToCurve>::map_to_curve(&u).clear_h();
    bls12_381::G1Affine::from(p).to_compressed()
}

/// Relies on `bls12_381::hash_to_curve::MapToCurve` for `G2Projective`,
/// as for the first group; the argument carries the element's real half
/// then its imaginary half.
#[verifier::external_body]
pub(crate) fn map_fp2_to_g2(fp2: &[u8; 96]) -> (r: [u8; 96])
    requires
        be_nat(fp2@.subrange(0, 48)) < bls_p(),
        be_nat(fp2@.subrange(48, 96)) < bls_p(),
    ensures
        r@ == spec_map_fp2_to_g2(fp2@),
        valid_g2(r@),
        spec_g2_in_subgroup(r@),
{
    let mut c0 = [0u8; 48];
    let mut c1 = [0u8; 48];
    c0.copy_from_slice(&fp2[0..48]);
    c1.copy_from_slice(&fp2[48..96]);
    let mut u = <<bls12_381::G2Projective as MapToCurve>::Field>::default();
    u.c0 = <<bls12_381::G1Projective as MapToCurve>::Field>::from_bytes(&c0).unwrap();
    u.c1 = <<bls12_381::G1Projective as MapToCurve>::Field>::from_bytes(&c1).unwrap();
    let p = <bls12_381::G2Projective as MapToCurve>::map_to_curve(&u).clear_h();
    bls12_381::G2Affine::from(p).to_compressed()
}


/// Relies on `halo2curves::bn256::G1Affine`'s uncompressed decoding: the
/// argument carries the affine x then y coordinate, little-endian; with
/// both below the field modulus the flag bits are clear and acceptance
/// is decided by curve membership.  The curve's first group has cofactor
/// one, so every curve point is a subgroup point.
#[verifier::external_body]
pub(crate) fn bn_g1_decode(b: &[u8; 64]) -> (r: Option<[u8; 32]>)
    requires
        be_nat(rev32(b@.subrange(0, 32))) < bn_p(),
        be_nat(rev32(b@.subrange(32, 64))) < bn_p(),
    ensures
        (r is Some) == spec_bn_g1_on_curve(b@),
        r is Some ==> r->0@ == spec_bn_g1_compress(b@) && spec_bn_g1_valid(r->0@),
{
    let mut u = bn256::G1Uncompressed::default();
    u.as_mut().copy_from_slice(b);
    let p = bn256::G1Affine::from_uncompressed(&u);
    if p.is_some().into() {
        let mut out = [0u8; 32];
        out.copy_from_slice(p.unwrap().to_bytes().as_ref());
        Some(out)
    } else {
        None
    }
}

/// Relies on the proving-curve group identity and its encoding: zero
/// bytes with the infinity bit set in the last one.
#[verifier::external_body]
pub(crate) fn bn_g1_identity() -> (r: [u8; 32])
    ensures
        r@ =~= Seq::new(32, |i: int| if i == 31 { 0x80u8 } else { 0u8 }),
        spec_bn_g1_valid(r@),
{
    let mut out = [0u8; 32];
    out.copy_from_slice(
        bn256::G1Affine::from(bn256::G1::identity())
            .to_bytes()
            .as_ref(),
    );
    out
}

/// Relies on the proving-curve group law (`Add`).
#[verifier::external_body]
pub(crate) fn bn_g1_add(a: &[u8; 32], b: &[u8; 32]) -> (r: [u8; 32])
    requires
        spec_bn_g1_valid(a@),
        spec_bn_g1_valid(b@),
    ensures
        r@ == spec_bn_g1_add(a@, b@),
        spec_bn_g1_valid(r@),
{
    let mut ra = bn256::G1Compressed::default();
    ra.as_mut().copy_from_slice(a);
    let mut rb = bn256::G1Compressed::default();
    rb.as_mut().copy_from_slice(b);
    let pa = bn256::G1Affine::from_bytes(&ra).unwrap();
    let pb = bn256::G1Affine::from_bytes(&rb).unwrap();
    let s = bn256::G1::from(pa) + pb;
    let mut out = [0u8; 32];
    out.copy_from_slice(bn256::G1Affine::from(s).to_bytes().as_ref());
    out
}

/// Relies on the proving-curve scalar multiplication and
/// `Fr::from_uniform_bytes`: the scalar's 256-bit value is reduced into
/// the scalar field, which is also the group's order.
#[verifier::external_body]
pub(crate) fn bn_g1_mul(p: &[u8; 32], k: &[u8; 32]) -> (r: [u8; 32])
    requires
        spec_bn_g1_valid(p@),
    ensures
        r@ == spec_bn_g1_mul(p@, k@),
        spec_bn_g1_valid(r@),
{
    let mut rp = bn256::G1Compressed::default();
    rp.as_mut().copy_from_slice(p);
    let pp = bn256::G1Affine::from_bytes(&rp).unwrap();
    let mut le = *k;
    le.reverse();
    let mut wide = [0u8; 64];
    wide[..32].copy_from_slice(&le);
    let scalar = bn256::Fr::from_uniform_bytes(&wide);
    let s = bn256::G1::from(pp) * scalar;
    let mut out = [0u8; 32];
    out.copy_from_slice(bn256::G1Affine::from(s).to_bytes().as_ref());
    out
}

/// Relies on `CurveAffine::coordinates` and `Fq::to_bytes`: the affine
/// coordinates of a point, big-endian; the identity has none and renders
/// as zero words.
#[verifier::external_body]
pub(crate) fn bn_g1_coords(h: &[u8; 32]) -> (r: [u8; 64])
    requires
        spec_bn_g1_valid(h@),
    ensures
        r@ == spec_bn_g1_coords(h@),
{
    let mut rh = bn256::G1Compressed::default();
    rh.as_mut().copy_from_slice(h);
    let p = bn256::G1Affine::from_bytes(&rh).unwrap();
    let mut out = [0u8; 64];
    let c = p.coordinates();
    if c.is_some().into() {
        let c = c.unwrap();
        let (mut xb, mut yb) = (c.x().to_bytes(), c.y().to_bytes());
        xb.reverse(); yb.reverse();
        out[0..32].copy_from_slice(&xb); out[32..64].copy_from_slice(&yb);
    }
    out
}

/// Relies on `halo2curves::bn256::G2Affine`'s uncompressed decoding: the
/// argument carries the x then y coordinate, each as its real half then
/// its imaginary half, all little-endian; with every half below the
/// field modulus acceptance is decided by curve membership.
#[verifier::external_body]
pub(crate) fn bn_g2_decode(b: &[u8; 128]) -> (r: Option<[u8; 64]>)
    requires
        be_nat(rev32(b@.subrange(0, 32))) < bn_p(),
        be_nat(rev32(b@.subrange(32, 64))) < bn_p(),
        be_nat(rev32(b@.subrange(64, 96))) < bn_p(),
        be_nat(rev32(b@.subrange(96, 128))) < bn_p(),
    ensures
        (r is Some) == spec_bn_g2_on_curve(b@),
        r is Some ==> r->0@ == spec_bn_g2_compress(b@) && spec_bn_g2_valid(r->0@),
{
    let mut u = bn256::G2Uncompressed::default();
    u.as_mut().copy_from_slice(b);
    let p = bn256::G2Affine::from_uncompressed(&u);
    if p.is_some().into() {
        let mut out = [0u8; 64];
        out.copy_from_slice(p.unwrap().to_bytes().as_ref());
        Some(out)
    } else {
        None
    }
}

/// Relies on the proving-curve second-group identity and its encoding:
/// zero bytes with the infinity bit set in the last one.
#[verifier::external_body]
pub(crate) fn bn_g2_identity() -> (r: [u8; 64])
    ensures
        r@ =~= Seq::new(64, |i: int| if i == 63 { 0x80u8 } else { 0u8 }),
        spec_bn_g2_valid(r@),
{
    let mut out = [0u8; 64];
    out.copy_from_slice(
        bn256::G2Affine::from(bn256::G2::identity())
            .to_bytes()
            .as_ref(),
    );
    out
}

/// Relies on `CofactorGroup::is_torsion_free` for the proving curve's
/// second group.
#[verifier::external_body]
pub(crate) fn bn_g2_subgroup_check(h: &[u8; 64]) -> (r: bool)
    requires
        spec_bn_g2_valid(h@),
    ensures
        r == spec_bn_g2_in_subgroup(h@),
{
    let mut rh = bn256::G2Compressed::default();
    rh.as_mut().copy_from_slice(h);
    let p = bn256::G2Affine::from_bytes(&rh).unwrap();
    bn256::G2::from(p).is_torsion_free().into()
}

/// Relies on `bn256::multi_miller_loop` and the final
/// exponentiation: the product of the proving-curve pairings of the
/// paired-up points equals the identity of the target group.
#[verifier::external_body]
pub(crate) fn bn_pairing_is_one(g1s: &Vec<[u8; 32]>, g2s: &Vec<[u8; 64]>) -> (r: bool)
    requires
        g1s@.len() == g2s@.len(),
        forall|i: int| 0 <= i < g1s@.len() ==> spec_bn_g1_valid(#[trigger] g1s@[i]@),
        forall|i: int| 0 <= i < g2s@.len() ==> spec_bn_g2_valid(#[trigger] g2s@[i]@),
    ensures
        r == spec_bn_pairing_one(g1s.deep_view(), g2s.deep_view()),
{
    let lhs: Vec<_> = g1s.iter().map(
        |b| { let mut r = bn256::G1Compressed::default(); r.as_mut().copy_from_slice(b); bn256::G1Affine::from_bytes(&r).unwrap() },
    ).collect();
    let rhs: Vec<bn256::G2Prepared> = g2s.iter().map(
        |b| { let mut r = bn256::G2Compressed::default(); r.as_mut().copy_from_slice(b); bn256::G2Affine::from_bytes(&r).unwrap().into() },
    ).collect();
    let terms: Vec<_> = lhs.iter().zip(rhs.iter()).collect();
    bn256::multi_miller_loop(&terms).final_exponentiation() == bn256::Gt::identity()
}

/// Relies on `bls12_381::multi_miller_loop` and
/// `MillerLoopResult::final_exponentiation`: the product of the pairings
/// of the paired-up points equals the identity of the target group.
#[verifier::external_body]
pub(crate) fn multi_pairing_is_one(g1s: &Vec<[u8; 48]>, g2s: &Vec<[u8; 96]>) -> (r: bool)
    requires
        g1s@.len() == g2s@.len(),
        forall|i: int| 0 <= i < g1s@.len() ==> valid_g1(g1s@[i]@),
        forall|i: int| 0 <= i < g2s@.len() ==> valid_g2(g2s@[i]@),
    ensures
        r == spec_multi_pairing_one(g1s.deep_view(), g2s.deep_view()),
{
    let lhs: Vec<bls12_381::G1Affine> =
        g1s.iter().map(|b| bls12_381::G1Affine::from_compressed_unchecked(b).unwrap()).collect();
    let rhs: Vec<bls12_381::G2Prepared> = g2s
        .iter()
        .map(|b| bls12_381::G2Prepared::from(bls12_381::G2Affine::from_compressed_unchecked(b).unwrap()))
        .collect();
    let terms: Vec<(&bls12_381::G1Affine, &bls12_381::G2Prepared)> =
        lhs.iter().zip(rhs.iter()).collect();
    let gt = bls12_381::multi_miller_loop(&terms).final_exponentiation();
    gt == bls12_381::Gt::identity()
}

} // verus!
