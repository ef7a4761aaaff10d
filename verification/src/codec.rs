//! Codec layer: conversion between fixed-width byte encodings and
//! validated in-memory keys and signatures.
//!
//! Secret keys are 32-byte big-endian scalars, public keys 48-byte
//! compressed points, signatures 96-byte compressed points.  A value of
//! one of the three types always holds the canonical encoding it was
//! deserialized from (or that the engine produced), so serialization is
//! the exact inverse of deserialization by construction.

use vstd::prelude::*;
use crate::encoding::{be_nat, is_canonical_scalar, check_canonical_scalar, bls_r, bls_p, bls_p_be, be_lt, be_is_zero};
use crate::engine::{
    is_g1_infinity, is_g2_infinity, g1_masked_x, g2_masked_x1, g2_x0, g1_bytes_pre, g2_bytes_pre,
    spec_g1_on_curve, spec_g1_in_subgroup, spec_g2_on_curve, spec_g2_in_subgroup,
    valid_g1, valid_g2, g1_check_on_curve, g1_check_subgroup, g2_check_on_curve, g2_check_subgroup,
};

verus! {

/// Status of decoding a scalar (secret-key) encoding.
#[derive(Clone, Copy, Debug, PartialEq, Eq, Structural)]
pub enum ScalarCodecStatus {
    Zero,
    ScalarLargerThanCurveOrder,
}

/// Status of decoding an elliptic-curve point encoding.
#[derive(Clone, Copy, Debug, PartialEq, Eq, Structural)]
pub enum EccCodecStatus {
    InvalidEncoding,
    CoordinateGreaterThanOrEqualModulus,
    PointNotOnCurve,
    PointNotInSubgroup,
    PointAtInfinity,
}

/// A validated secret key: a nonzero scalar below the group order.
#[derive(Clone, Copy, Debug)]
pub struct EthBlsSecKey {
    bytes: [u8; 32],
}

impl View for EthBlsSecKey {
    type V = Seq<u8>;

    closed spec fn view(&self) -> Seq<u8> {
        self.bytes@
    }
}

impl EthBlsSecKey {
    #[verifier::type_invariant]
    spec fn wf(self) -> bool {
        is_canonical_scalar(self.bytes@) && be_nat(self.bytes@) != 0
    }
}

/// A public key: a point of the 48-byte group, held as its canonical
/// compressed encoding.  The identity encoding is representable (it is a
/// valid encoding); the verification layer rejects it.
#[derive(Clone, Copy, Debug)]
pub struct EthBlsPubKey {
    bytes: [u8; 48],
}

impl View for EthBlsPubKey {
    type V = Seq<u8>;

    closed spec fn view(&self) -> Seq<u8> {
        self.bytes@
    }
}

impl EthBlsPubKey {
    #[verifier::type_invariant]
    spec fn wf(self) -> bool {
        valid_g1(self.bytes@)
    }
}

/// A signature: a point of the 96-byte group, held as its canonical
/// compressed encoding.
#[derive(Clone, Copy, Debug)]
pub struct EthBlsSignature {
    bytes: [u8; 96],
}

impl View for EthBlsSignature {
    type V = Seq<u8>;

    closed spec fn view(&self) -> Seq<u8> {
        self.bytes@
    }
}

impl EthBlsSignature {
    #[verifier::type_invariant]
    spec fn wf(self) -> bool {
        valid_g2(self.bytes@)
    }
}

// ---------------------------------------------------------------------
// Spec-level decoding decisions.
// ---------------------------------------------------------------------

/// Decision taken on a 48-byte encoding before any subgroup check:
/// `Ok(true)` is the identity encoding, `Ok(false)` a curve point.
pub open spec fn g1_codec_result(s: Seq<u8>) -> Result<bool, EccCodecStatus> {
    if s[0] & 0x80u8 != 0x80u8 {
        Err(EccCodecStatus::InvalidEncoding)
    } else if s[0] & 0x40u8 == 0x40u8 {
        if is_g1_infinity(s) {
            Ok(true)
        } else {
            Err(EccCodecStatus::InvalidEncoding)
        }
    } else if be_nat(g1_masked_x(s)) >= bls_p() {
        Err(EccCodecStatus::CoordinateGreaterThanOrEqualModulus)
    } else if !spec_g1_on_curve(s) {
        Err(EccCodecStatus::PointNotOnCurve)
    } else {
        Ok(false)
    }
}

/// Decision taken on a 96-byte encoding before any subgroup check.
pub open spec fn g2_codec_result(s: Seq<u8>) -> Result<bool, EccCodecStatus> {
    if s[0] & 0x80u8 != 0x80u8 {
        Err(EccCodecStatus::InvalidEncoding)
    } else if s[0] & 0x40u8 == 0x40u8 {
        if is_g2_infinity(s) {
            Ok(true)
        } else {
            Err(EccCodecStatus::InvalidEncoding)
        }
    } else if be_nat(g2_masked_x1(s)) >= bls_p() || be_nat(g2_x0(s)) >= bls_p() {
        Err(EccCodecStatus::CoordinateGreaterThanOrEqualModulus)
    } else if !spec_g2_on_curve(s) {
        Err(EccCodecStatus::PointNotOnCurve)
    } else {
        Ok(false)
    }
}

/// What deserializing a secret key returns: the bytes, or the exact error.
pub open spec fn spec_deserialize_seckey(s: Seq<u8>) -> Result<Seq<u8>, ScalarCodecStatus> {
    if be_nat(s) == 0 {
        Err(ScalarCodecStatus::Zero)
    } else if be_nat(s) >= bls_r() {
        Err(ScalarCodecStatus::ScalarLargerThanCurveOrder)
    } else {
        Ok(s)
    }
}

/// What checked public-key deserialization returns.
pub open spec fn spec_deserialize_pubkey(s: Seq<u8>) -> Result<Seq<u8>, EccCodecStatus> {
    match g1_codec_result(s) {
        Err(e) => Err(e),
        Ok(true) => Ok(s),
        Ok(false) => if spec_g1_in_subgroup(s) {
            Ok(s)
        } else {
            Err(EccCodecStatus::PointNotInSubgroup)
        },
    }
}

/// What unchecked public-key deserialization returns (subgroup not checked).
pub open spec fn spec_deserialize_pubkey_unchecked(s: Seq<u8>) -> Result<Seq<u8>, EccCodecStatus> {
    match g1_codec_result(s) {
        Err(e) => Err(e),
        Ok(_) => Ok(s),
    }
}

/// What checked signature deserialization returns.
pub open spec fn spec_deserialize_signature(s: Seq<u8>) -> Result<Seq<u8>, EccCodecStatus> {
    match g2_codec_result(s) {
        Err(e) => Err(e),
        Ok(true) => Ok(s),
        Ok(false) => if spec_g2_in_subgroup(s) {
            Ok(s)
        } else {
            Err(EccCodecStatus::PointNotInSubgroup)
        },
    }
}

/// What unchecked signature deserialization returns.
pub open spec fn spec_deserialize_signature_unchecked(s: Seq<u8>) -> Result<Seq<u8>, EccCodecStatus> {
    match g2_codec_result(s) {
        Err(e) => Err(e),
        Ok(_) => Ok(s),
    }
}

// ---------------------------------------------------------------------
// Executable decoding.
// ---------------------------------------------------------------------

/// Constant bit facts about the flag byte of the identity encoding.
proof fn lemma_infinity_flag_bits()
    ensures
        0xc0u8 & 0x80u8 == 0x80u8,
        0xc0u8 & 0x40u8 == 0x40u8,
{
    assert(0xc0u8 & 0x80u8 == 0x80u8) by (bit_vector);
    assert(0xc0u8 & 0x40u8 == 0x40u8) by (bit_vector);
}

/// Byte-level and on-curve checks of a 48-byte encoding; `Ok(true)` means
/// the identity encoding.
fn g1_decode_check(src: &[u8; 48]) -> (r: Result<bool, EccCodecStatus>)
    ensures
        r == g1_codec_result(src@),
        r is Ok ==> valid_g1(src@),
        r == Ok::<bool, EccCodecStatus>(true) <==> is_g1_infinity(src@),
{
    proof {
        lemma_infinity_flag_bits();
    }
    if src[0] & 0x80u8 != 0x80u8 {
        return Err(EccCodecStatus::InvalidEncoding);
    }
    if src[0] & 0x40u8 == 0x40u8 {
        if src[0] != 0xc0u8 {
            return Err(EccCodecStatus::InvalidEncoding);
        }
        for i in 1..48usize
            invariant
                src@[0] == 0xc0u8,
                forall|j: int| 1 <= j < i ==> src@[j] == 0u8,
        {
            proof {
                lemma_infinity_flag_bits();
            }
            if src[i] != 0u8 {
                return Err(EccCodecStatus::InvalidEncoding);
            }
        }
        return Ok(true);
    }
    let mut x = *src;
    x[0] = x[0] & 0x1fu8;
    proof {
        assert(x@ =~= g1_masked_x(src@));
    }
    let p = bls_p_be();
    if !be_lt(x.as_slice(), p.as_slice()) {
        return Err(EccCodecStatus::CoordinateGreaterThanOrEqualModulus);
    }
    if !g1_check_on_curve(src) {
        return Err(EccCodecStatus::PointNotOnCurve);
    }
    Ok(false)
}

/// Byte-level and on-curve checks of a 96-byte encoding.
fn g2_decode_check(src: &[u8; 96]) -> (r: Result<bool, EccCodecStatus>)
    ensures
        r == g2_codec_result(src@),
        r is Ok ==> valid_g2(src@),
        r == Ok::<bool, EccCodecStatus>(true) <==> is_g2_infinity(src@),
{
    proof {
        lemma_infinity_flag_bits();
    }
    if src[0] & 0x80u8 != 0x80u8 {
        return Err(EccCodecStatus::InvalidEncoding);
    }
    if src[0] & 0x40u8 == 0x40u8 {
        if src[0] != 0xc0u8 {
            return Err(EccCodecStatus::InvalidEncoding);
        }
        for i in 1..96usize
            invariant
                src@[0] == 0xc0u8,
                forall|j: int| 1 <= j < i ==> src@[j] == 0u8,
        {
            proof {
                lemma_infinity_flag_bits();
            }
            if src[i] != 0u8 {
                return Err(EccCodecStatus::InvalidEncoding);
            }
        }
        return Ok(true);
    }
    let mut x1 = [0u8; 48];
    let mut x0 = [0u8; 48];
    for i in 0..48usize
        invariant
            forall|j: int| 0 <= j < i ==> x1@[j] == src@[j],
            forall|j: int| 0 <= j < i ==> x0@[j] == src@[48 + j],
    {
        x1[i] = src[i];
        x0[i] = src[48 + i];
    }
    x1[0] = x1[0] & 0x1fu8;
    proof {
        assert(x1@ =~= g2_masked_x1(src@));
        assert(x0@ =~= g2_x0(src@));
    }
    let p = bls_p_be();
    if !be_lt(x1.as_slice(), p.as_slice()) {
        return Err(EccCodecStatus::CoordinateGreaterThanOrEqualModulus);
    }
    if !be_lt(x0.as_slice(), p.as_slice()) {
        return Err(EccCodecStatus::CoordinateGreaterThanOrEqualModulus);
    }
    if !g2_check_on_curve(src) {
        return Err(EccCodecStatus::PointNotOnCurve);
    }
    Ok(false)
}

/// Deserializes a secret key: fails on zero and on values at or above the
/// group order.
#[must_use]
pub fn deserialize_seckey(src: &[u8; 32]) -> (r: Result<EthBlsSecKey, ScalarCodecStatus>)
    ensures
        match r {
            Ok(k) => spec_deserialize_seckey(src@) == Ok::<Seq<u8>, ScalarCodecStatus>(k@) && k@
                == src@,
            Err(e) => spec_deserialize_seckey(src@) == Err::<Seq<u8>, ScalarCodecStatus>(e),
        },
{
    if be_is_zero(src.as_slice()) {
        return Err(ScalarCodecStatus::Zero);
    }
    if !check_canonical_scalar(src) {
        return Err(ScalarCodecStatus::ScalarLargerThanCurveOrder);
    }
    Ok(EthBlsSecKey { bytes: *src })
}

/// Serializes a secret key back to its canonical 32-byte encoding.
#[must_use]
pub fn serialize_seckey(sec: &EthBlsSecKey) -> (r: Result<[u8; 32], ScalarCodecStatus>)
    ensures
        r is Ok && r->Ok_0@ == sec@,
{
    Ok(sec.bytes)
}

/// Deserializes a public key with the full subgroup check.
#[must_use]
pub fn deserialize_pubkey_compressed(src: &[u8; 48]) -> (r: Result<EthBlsPubKey, EccCodecStatus>)
    ensures
        match r {
            Ok(pk) => spec_deserialize_pubkey(src@) == Ok::<Seq<u8>, EccCodecStatus>(pk@) && pk@
                == src@,
            Err(e) => spec_deserialize_pubkey(src@) == Err::<Seq<u8>, EccCodecStatus>(e),
        },
{
    match g1_decode_check(src) {
        Err(e) => Err(e),
        Ok(true) => Ok(EthBlsPubKey { bytes: *src }),
        Ok(false) => {
            if g1_check_subgroup(src) {
                Ok(EthBlsPubKey { bytes: *src })
            } else {
                Err(EccCodecStatus::PointNotInSubgroup)
            }
        },
    }
}

/// Deserializes a public key without the subgroup check: the fast path for
/// caller-trusted input.
#[must_use]
pub fn deserialize_pubkey_compressed_unchecked(src: &[u8; 48]) -> (r: Result<
    EthBlsPubKey,
    EccCodecStatus,
>)
    ensures
        match r {
            Ok(pk) => spec_deserialize_pubkey_unchecked(src@) == Ok::<Seq<u8>, EccCodecStatus>(pk@)
                && pk@ == src@,
            Err(e) => spec_deserialize_pubkey_unchecked(src@) == Err::<Seq<u8>, EccCodecStatus>(e),
        },
{
    match g1_decode_check(src) {
        Err(e) => Err(e),
        Ok(_) => Ok(EthBlsPubKey { bytes: *src }),
    }
}

/// Serializes a public key back to its canonical compressed encoding.
#[must_use]
pub fn serialize_pubkey_compressed(pkey: &EthBlsPubKey) -> (r: Result<[u8; 48], EccCodecStatus>)
    ensures
        r is Ok && r->Ok_0@ == pkey@,
{
    Ok(pkey.bytes)
}

/// Deserializes a signature with the full subgroup check.
#[must_use]
pub fn deserialize_signature_compressed(src: &[u8; 96]) -> (r: Result<
    EthBlsSignature,
    EccCodecStatus,
>)
    ensures
        match r {
            Ok(sig) => spec_deserialize_signature(src@) == Ok::<Seq<u8>, EccCodecStatus>(sig@)
                && sig@ == src@,
            Err(e) => spec_deserialize_signature(src@) == Err::<Seq<u8>, EccCodecStatus>(e),
        },
{
    match g2_decode_check(src) {
        Err(e) => Err(e),
        Ok(true) => Ok(EthBlsSignature { bytes: *src }),
        Ok(false) => {
            if g2_check_subgroup(src) {
                Ok(EthBlsSignature { bytes: *src })
            } else {
                Err(EccCodecStatus::PointNotInSubgroup)
            }
        },
    }
}

/// Deserializes a signature without the subgroup check.
#[must_use]
pub fn deserialize_signature_compressed_unchecked(src: &[u8; 96]) -> (r: Result<
    EthBlsSignature,
    EccCodecStatus,
>)
    ensures
        match r {
            Ok(sig) => spec_deserialize_signature_unchecked(src@) == Ok::<
                Seq<u8>,
                EccCodecStatus,
            >(sig@) && sig@ == src@,
            Err(e) => spec_deserialize_signature_unchecked(src@) == Err::<
                Seq<u8>,
                EccCodecStatus,
            >(e),
        },
{
    match g2_decode_check(src) {
        Err(e) => Err(e),
        Ok(_) => Ok(EthBlsSignature { bytes: *src }),
    }
}

/// Serializes a signature back to its canonical compressed encoding.
#[must_use]
pub fn serialize_signature_compressed(sig: &EthBlsSignature) -> (r: Result<
    [u8; 96],
    EccCodecStatus,
>)
    ensures
        r is Ok && r->Ok_0@ == sig@,
{
    Ok(sig.bytes)
}

/// Validates a secret key.  Keys of this type are validated on
/// construction, so this always succeeds.
#[must_use]
pub fn validate_seckey(sec: &EthBlsSecKey) -> (r: Result<(), ScalarCodecStatus>)
    ensures
        r is Ok,
        is_canonical_scalar(sec@) && be_nat(sec@) != 0,
{
    proof {
        use_type_invariant(sec);
    }
    Ok(())
}

/// Validates a public key for use in signature verification: it must not
/// be the identity and must lie in the prime-order subgroup.
#[must_use]
pub fn validate_pubkey(pkey: &EthBlsPubKey) -> (r: Result<(), EccCodecStatus>)
    ensures
        r == (if is_g1_infinity(pkey@) {
            Err::<(), EccCodecStatus>(EccCodecStatus::PointAtInfinity)
        } else if !spec_g1_in_subgroup(pkey@) {
            Err::<(), EccCodecStatus>(EccCodecStatus::PointNotInSubgroup)
        } else {
            Ok::<(), EccCodecStatus>(())
        }),
{
    proof {
        use_type_invariant(pkey);
    }
    if is_infinity_pubkey(pkey) {
        return Err(EccCodecStatus::PointAtInfinity);
    }
    if !g1_check_subgroup(&pkey.bytes) {
        return Err(EccCodecStatus::PointNotInSubgroup);
    }
    Ok(())
}

/// Validates a signature in the same way.
#[must_use]
pub fn validate_signature(sig: &EthBlsSignature) -> (r: Result<(), EccCodecStatus>)
    ensures
        r == (if is_g2_infinity(sig@) {
            Err::<(), EccCodecStatus>(EccCodecStatus::PointAtInfinity)
        } else if !spec_g2_in_subgroup(sig@) {
            Err::<(), EccCodecStatus>(EccCodecStatus::PointNotInSubgroup)
        } else {
            Ok::<(), EccCodecStatus>(())
        }),
{
    proof {
        use_type_invariant(sig);
    }
    if is_infinity_signature(sig) {
        return Err(EccCodecStatus::PointAtInfinity);
    }
    if !g2_check_subgroup(&sig.bytes) {
        return Err(EccCodecStatus::PointNotInSubgroup);
    }
    Ok(())
}

/// Whether a public key is the identity encoding.
pub fn is_infinity_pubkey(pkey: &EthBlsPubKey) -> (r: bool)
    ensures
        r == is_g1_infinity(pkey@),
{
    if pkey.bytes[0] != 0xc0u8 {
        return false;
    }
    for i in 1..48usize
        invariant
            pkey@[0] == 0xc0u8,
            pkey@.len() == 48,
            forall|j: int| 1 <= j < i ==> pkey@[j] == 0u8,
    {
        if pkey.bytes[i] != 0u8 {
            return false;
        }
    }
    true
}

/// Whether a signature is the identity encoding.
pub fn is_infinity_signature(sig: &EthBlsSignature) -> (r: bool)
    ensures
        r == is_g2_infinity(sig@),
{
    if sig.bytes[0] != 0xc0u8 {
        return false;
    }
    for i in 1..96usize
        invariant
            sig@[0] == 0xc0u8,
            sig@.len() == 96,
            forall|j: int| 1 <= j < i ==> sig@[j] == 0u8,
    {
        if sig.bytes[i] != 0u8 {
            return false;
        }
    }
    true
}

// ---------------------------------------------------------------------
// Construction from engine-produced bytes (used by the protocol layer).
// ---------------------------------------------------------------------

impl EthBlsSecKey {
    /// The key's canonical encoding.
    pub(crate) fn bytes(&self) -> (r: &[u8; 32])
        ensures
            r@ == self@,
            is_canonical_scalar(self@),
            be_nat(self@) != 0,
    {
        proof {
            use_type_invariant(self);
        }
        &self.bytes
    }
}

impl EthBlsPubKey {
    /// The key's canonical encoding; always a valid encoding.
    pub(crate) fn bytes(&self) -> (r: &[u8; 48])
        ensures
            r@ == self@,
            valid_g1(self@),
    {
        proof {
            use_type_invariant(self);
        }
        &self.bytes
    }

    /// Wraps engine-produced bytes of a valid point.
    pub(crate) fn from_valid_bytes(b: [u8; 48]) -> (r: EthBlsPubKey)
        requires
            valid_g1(b@),
        ensures
            r@ == b@,
    {
        EthBlsPubKey { bytes: b }
    }
}

impl EthBlsSignature {
    /// The signature's canonical encoding; always a valid encoding.
    pub(crate) fn bytes(&self) -> (r: &[u8; 96])
        ensures
            r@ == self@,
            valid_g2(self@),
    {
        proof {
            use_type_invariant(self);
        }
        &self.bytes
    }

    /// Wraps engine-produced bytes of a valid point.
    pub(crate) fn from_valid_bytes(b: [u8; 96]) -> (r: EthBlsSignature)
        requires
            valid_g2(b@),
        ensures
            r@ == b@,
    {
        EthBlsSignature { bytes: b }
    }
}

// ---------------------------------------------------------------------
// Round-trip laws: serialization inverts deserialization.  Values carry
// their canonical encoding, so a deserialized value serializes back to
// exactly the input bytes.
// ---------------------------------------------------------------------

/// For every accepted secret-key encoding, the deserialized key
/// serializes back to the same bytes: `serialize_seckey` returns exactly
/// the view of its argument, which deserialization pinned to the input.
pub proof fn lemma_seckey_round_trip(src: Seq<u8>, k: EthBlsSecKey)
    requires
        spec_deserialize_seckey(src) == Ok::<Seq<u8>, ScalarCodecStatus>(k@),
    ensures
        k@ == src,
{
}

/// For every accepted public-key encoding, the deserialized key
/// serializes back to the same bytes.
pub proof fn lemma_pubkey_round_trip(src: Seq<u8>, pk: EthBlsPubKey)
    requires
        spec_deserialize_pubkey(src) == Ok::<Seq<u8>, EccCodecStatus>(pk@) || spec_deserialize_pubkey_unchecked(src) == Ok::<Seq<u8>, EccCodecStatus>(pk@),
    ensures
        pk@ == src,
{
}

/// For every accepted signature encoding, the deserialized signature
/// serializes back to the same bytes.
pub proof fn lemma_signature_round_trip(src: Seq<u8>, sig: EthBlsSignature)
    requires
        spec_deserialize_signature(src) == Ok::<Seq<u8>, EccCodecStatus>(sig@) || spec_deserialize_signature_unchecked(src) == Ok::<Seq<u8>, EccCodecStatus>(sig@),
    ensures
        sig@ == src,
{
}

} // verus!
