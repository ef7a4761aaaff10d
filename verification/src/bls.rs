//! BLS signature protocol over BLS12-381 (Ethereum proof-of-possession
//! flavour): key derivation, signing, single verification, and the three
//! aggregate-verification variants, plus the randomized batch check.
//!
//! Public keys live in the 48-byte group, signatures in the 96-byte
//! group.  A verification equation `e(pk, H(m)) == e(G, sig)` is stated
//! as the equivalent product form `e(pk, H(m)) * e(-G, sig) == 1`, which
//! is how the engine evaluates it (one multi-pairing).

use vstd::prelude::*;
use crate::encoding::{be_nat, nat_to_be, is_canonical_scalar, bls_r, lemma_be_nat_split, lemma_be_nat_zero, lemma_nat_to_be_of_be_nat, be_is_zero};
use crate::engine::{
    is_g1_infinity, is_g2_infinity, valid_g1, valid_g2,
    spec_g1_add, spec_g1_neg, spec_g1_mul, spec_g2_add, spec_g2_mul,
    spec_hash_to_g2, spec_sha256, spec_multi_pairing_one,
    g1_generator_bytes,
    g1_add, g1_neg, g1_mul, g1_generator, g2_add, g2_mul, hash_to_g2,
    multi_pairing_is_one, sha256_hash, lemma_r_large,
};
use crate::codec::{EthBlsSecKey, EthBlsPubKey, EthBlsSignature};
use crate::pool::Threadpool;

verus! {

/// Status of a BLS verification protocol call.
#[derive(Clone, Copy, Debug, PartialEq, Eq, Structural)]
pub enum EthBlsStatus {
    VerificationFailure,
    InputsLengthsMismatch,
    ZeroLengthAggregation,
    PointAtInfinity,
}

// ---------------------------------------------------------------------
// Spec-level views of lists.
// ---------------------------------------------------------------------

pub open spec fn pubkey_views(s: Seq<EthBlsPubKey>) -> Seq<Seq<u8>> {
    Seq::new(s.len(), |i: int| s[i]@)
}

pub open spec fn signature_views(s: Seq<EthBlsSignature>) -> Seq<Seq<u8>> {
    Seq::new(s.len(), |i: int| s[i]@)
}

pub(crate) proof fn lemma_deep_g1(v: Vec<[u8; 48]>)
    ensures
        v.deep_view().len() == v@.len(),
        forall|i: int| 0 <= i < v@.len() ==> #[trigger] v.deep_view()[i] == v@[i]@,
{
    assert forall|i: int| 0 <= i < v@.len() implies #[trigger] v.deep_view()[i] == v@[i]@ by {
        assert(v@[i].deep_view() =~= v@[i]@);
    }
}

pub(crate) proof fn lemma_deep_g2(v: Vec<[u8; 96]>)
    ensures
        v.deep_view().len() == v@.len(),
        forall|i: int| 0 <= i < v@.len() ==> #[trigger] v.deep_view()[i] == v@[i]@,
{
    assert forall|i: int| 0 <= i < v@.len() implies #[trigger] v.deep_view()[i] == v@[i]@ by {
        assert(v@[i].deep_view() =~= v@[i]@);
    }
}

// ---------------------------------------------------------------------
// Key derivation, signing, equality.
// ---------------------------------------------------------------------

/// The public key belonging to a secret key: the scalar multiple of the
/// group generator.  Deterministic; always a non-identity point of the
/// prime-order subgroup, so it passes `validate_pubkey` and is never
/// rejected by `verify`'s identity check.
#[must_use]
pub fn derive_pubkey(skey: EthBlsSecKey) -> (r: EthBlsPubKey)
    ensures
        r@ == spec_g1_mul(g1_generator_bytes(), skey@),
        crate::engine::spec_g1_in_subgroup(r@),
        !is_g1_infinity(r@),
{
    let g = g1_generator();
    let p = g1_mul(&g, skey.bytes());
    EthBlsPubKey::from_valid_bytes(p)
}

/// Signs a message: hashes it to the signature group and multiplies by
/// the secret key.  Deterministic; the signature is a point of the
/// prime-order subgroup.
pub fn sign(skey: EthBlsSecKey, message: &[u8]) -> (r: EthBlsSignature)
    ensures
        r@ == spec_g2_mul(spec_hash_to_g2(message@), skey@),
        crate::engine::spec_g2_in_subgroup(r@),
{
    let h = hash_to_g2(message);
    let s = g2_mul(&h, skey.bytes());
    EthBlsSignature::from_valid_bytes(s)
}

/// Whether two public keys are the same point.  Encodings are canonical,
/// so point equality is equality of the encodings.
#[must_use]
pub fn pubkeys_are_equal(pkey1: EthBlsPubKey, pkey2: EthBlsPubKey) -> (r: bool)
    ensures
        r == (pkey1@ == pkey2@),
{
    let a = pkey1.bytes();
    let b = pkey2.bytes();
    for i in 0..48usize
        invariant
            a@ == pkey1@ && b@ == pkey2@,
            forall|j: int| 0 <= j < i ==> a@[j] == b@[j],
    {
        if a[i] != b[i] {
            return false;
        }
    }
    proof {
        assert(pkey1@ =~= pkey2@);
    }
    true
}

/// Whether two signatures are the same point.
#[must_use]
pub fn signatures_are_equal(sig1: EthBlsSignature, sig2: EthBlsSignature) -> (r: bool)
    ensures
        r == (sig1@ == sig2@),
{
    let a = sig1.bytes();
    let b = sig2.bytes();
    for i in 0..96usize
        invariant
            a@ == sig1@ && b@ == sig2@,
            forall|j: int| 0 <= j < i ==> a@[j] == b@[j],
    {
        if a[i] != b[i] {
            return false;
        }
    }
    proof {
        assert(sig1@ =~= sig2@);
    }
    true
}

// ---------------------------------------------------------------------
// Single verification.
// ---------------------------------------------------------------------

/// The single-signature pairing equation `e(pk, H(m)) == e(G, sig)`, in
/// the product form the engine checks.
pub open spec fn spec_pairing_equation(pk: Seq<u8>, msg: Seq<u8>, sig: Seq<u8>) -> bool {
    spec_multi_pairing_one(
        seq![pk, spec_g1_neg(g1_generator_bytes())],
        seq![spec_hash_to_g2(msg), sig],
    )
}

/// What `verify` returns: identity keys and signatures are always
/// rejected, a failed equation is a `VerificationFailure`.
pub open spec fn spec_verify(pk: Seq<u8>, msg: Seq<u8>, sig: Seq<u8>) -> Result<
    bool,
    EthBlsStatus,
> {
    if is_g1_infinity(pk) || is_g2_infinity(sig) {
        Err(EthBlsStatus::PointAtInfinity)
    } else if spec_pairing_equation(pk, msg, sig) {
        Ok(true)
    } else {
        Err(EthBlsStatus::VerificationFailure)
    }
}

/// Verifies one signature over one message under one public key.
#[must_use]
pub fn verify(pkey: EthBlsPubKey, message: &[u8], sig: EthBlsSignature) -> (r: Result<
    bool,
    EthBlsStatus,
>)
    ensures
        r == spec_verify(pkey@, message@, sig@),
{
    if crate::codec::is_infinity_pubkey(&pkey) || crate::codec::is_infinity_signature(&sig) {
        return Err(EthBlsStatus::PointAtInfinity);
    }
    let h = hash_to_g2(message);
    let g = g1_generator();
    let gneg = g1_neg(&g);
    let mut g1s: Vec<[u8; 48]> = Vec::new();
    let mut g2s: Vec<[u8; 96]> = Vec::new();
    g1s.push(*pkey.bytes());
    g1s.push(gneg);
    g2s.push(h);
    g2s.push(*sig.bytes());
    proof {
        lemma_deep_g1(g1s);
        lemma_deep_g2(g2s);
        assert(g1s.deep_view() =~= seq![pkey@, spec_g1_neg(g1_generator_bytes())]);
        assert(g2s.deep_view() =~= seq![spec_hash_to_g2(message@), sig@]);
    }
    if multi_pairing_is_one(&g1s, &g2s) {
        Ok(true)
    } else {
        Err(EthBlsStatus::VerificationFailure)
    }
}

// ---------------------------------------------------------------------
// Fast aggregate verification: one message, many keys.
// ---------------------------------------------------------------------

/// The group sum of a nonempty list of points.
pub open spec fn spec_g1_sum(pks: Seq<Seq<u8>>) -> Seq<u8>
    decreases pks.len(),
{
    if pks.len() <= 1 {
        pks[0]
    } else {
        spec_g1_add(spec_g1_sum(pks.drop_last()), pks.last())
    }
}

/// What `fast_aggregate_verify` returns: the keys are aggregated by group
/// addition and the aggregate is verified; an empty list must never
/// verify, preventing a forgery through the identity element.
pub open spec fn spec_fast_aggregate_verify(pks: Seq<Seq<u8>>, msg: Seq<u8>, sig: Seq<u8>) -> Result<
    bool,
    EthBlsStatus,
> {
    if pks.len() == 0 {
        Err(EthBlsStatus::ZeroLengthAggregation)
    } else {
        spec_verify(spec_g1_sum(pks), msg, sig)
    }
}

/// Verifies an aggregate signature of one message under the sum of the
/// public keys.
#[must_use]
pub fn fast_aggregate_verify(
    pubkeys: &[EthBlsPubKey],
    message: &[u8],
    signature: &EthBlsSignature,
) -> (r: Result<bool, EthBlsStatus>)
    ensures
        r == spec_fast_aggregate_verify(pubkey_views(pubkeys@), message@, signature@),
{
    let n = pubkeys.len();
    if n == 0 {
        return Err(EthBlsStatus::ZeroLengthAggregation);
    }
    let ghost views = pubkey_views(pubkeys@);
    let mut acc: [u8; 48] = *pubkeys[0].bytes();
    proof {
        assert(views.take(1) =~= seq![pubkeys@[0]@]);
        assert(acc@ == spec_g1_sum(views.take(1)));
    }
    for i in 1..n
        invariant
            n == pubkeys@.len(),
            views == pubkey_views(pubkeys@),
            valid_g1(acc@),
            acc@ == spec_g1_sum(views.take(i as int)),
    {
        let pk_bytes: [u8; 48] = *pubkeys[i].bytes();
        acc = g1_add(&acc, &pk_bytes);
        proof {
            assert(views.take(i + 1).drop_last() =~= views.take(i as int));
            assert(views.take(i + 1).last() == pubkeys@[i as int]@);
        }
    }
    proof {
        assert(views.take(n as int) =~= views);
    }
    let agg = EthBlsPubKey::from_valid_bytes(acc);
    verify(agg, message, *signature)
}

// ---------------------------------------------------------------------
// Aggregate verification: distinct messages, one multi-pairing.
// ---------------------------------------------------------------------

/// Whether any of the points in the list is the identity.
pub open spec fn any_g1_infinity(pks: Seq<Seq<u8>>) -> bool {
    exists|i: int| 0 <= i < pks.len() && is_g1_infinity(pks[i])
}

/// The hash points of a list of messages.
pub open spec fn hashed_messages(msgs: Seq<Seq<u8>>) -> Seq<Seq<u8>> {
    Seq::new(msgs.len(), |i: int| spec_hash_to_g2(msgs[i]))
}

/// What `aggregate_verify` returns: the product
/// `e(pk_1, H(m_1)) * ... * e(pk_n, H(m_n)) * e(-G, sig)` must be one.
/// Lengths must match, the list must be nonempty, and identity keys or an
/// identity signature are rejected before the engine is consulted.
pub open spec fn spec_aggregate_verify(pks: Seq<Seq<u8>>, msgs: Seq<Seq<u8>>, sig: Seq<u8>) -> Result<
    bool,
    EthBlsStatus,
> {
    if pks.len() != msgs.len() {
        Err(EthBlsStatus::InputsLengthsMismatch)
    } else if pks.len() == 0 {
        Err(EthBlsStatus::ZeroLengthAggregation)
    } else if any_g1_infinity(pks) || is_g2_infinity(sig) {
        Err(EthBlsStatus::PointAtInfinity)
    } else if spec_multi_pairing_one(
        pks.push(spec_g1_neg(g1_generator_bytes())),
        hashed_messages(msgs).push(sig),
    ) {
        Ok(true)
    } else {
        Err(EthBlsStatus::VerificationFailure)
    }
}

/// Verifies an aggregate signature of pairwise-distinct messages in one
/// multi-pairing evaluation.
#[must_use]
pub fn aggregate_verify(
    pubkeys: &[EthBlsPubKey],
    messages: &Vec<Vec<u8>>,
    aggregate_sig: &EthBlsSignature,
) -> (r: Result<bool, EthBlsStatus>)
    ensures
        r == spec_aggregate_verify(pubkey_views(pubkeys@), messages.deep_view(), aggregate_sig@),
{
    let ghost views = pubkey_views(pubkeys@);
    let ghost msg_views = messages.deep_view();
    let n = pubkeys.len();
    if n != messages.len() {
        return Err(EthBlsStatus::InputsLengthsMismatch);
    }
    if n == 0 {
        return Err(EthBlsStatus::ZeroLengthAggregation);
    }
    if crate::codec::is_infinity_signature(aggregate_sig) {
        return Err(EthBlsStatus::PointAtInfinity);
    }
    let mut g1s: Vec<[u8; 48]> = Vec::new();
    let mut g2s: Vec<[u8; 96]> = Vec::new();
    for i in 0..n
        invariant
            n == pubkeys@.len() && n == messages@.len(),
            views == pubkey_views(pubkeys@),
            msg_views == messages.deep_view(),
            g1s@.len() == i && g2s@.len() == i,
            forall|j: int| 0 <= j < i ==> #[trigger] g1s@[j]@ == views[j],
            forall|j: int| 0 <= j < i ==> !#[trigger] is_g1_infinity(views[j]),
            forall|j: int| 0 <= j < i ==> valid_g1(#[trigger] g1s@[j]@),
            forall|j: int| 0 <= j < i ==> #[trigger] g2s@[j]@ == spec_hash_to_g2(msg_views[j]),
            forall|j: int| 0 <= j < i ==> valid_g2(#[trigger] g2s@[j]@),
    {
        if crate::codec::is_infinity_pubkey(&pubkeys[i]) {
            proof {
                assert(is_g1_infinity(views[i as int]));
                assert(any_g1_infinity(views));
            }
            return Err(EthBlsStatus::PointAtInfinity);
        }
        let pk_bytes: [u8; 48] = *pubkeys[i].bytes();
        g1s.push(pk_bytes);
        let h = hash_to_g2(messages[i].as_slice());
        proof {
            assert(messages@[i as int].deep_view() =~= messages@[i as int]@);
            assert(g1s@[i as int]@ == views[i as int]);
        }
        g2s.push(h);
    }
    let g = g1_generator();
    g1s.push(g1_neg(&g));
    let sig_bytes: [u8; 96] = *aggregate_sig.bytes();
    g2s.push(sig_bytes);
    proof {
        lemma_deep_g1(g1s);
        lemma_deep_g2(g2s);
        assert(g1s.deep_view() =~= views.push(spec_g1_neg(g1_generator_bytes())));
        assert(g2s.deep_view() =~= hashed_messages(msg_views).push(aggregate_sig@));
        assert(!any_g1_infinity(views));
    }
    if multi_pairing_is_one(&g1s, &g2s) {
        Ok(true)
    } else {
        Err(EthBlsStatus::VerificationFailure)
    }
}

// ---------------------------------------------------------------------
// Randomized batch verification.
// ---------------------------------------------------------------------

/// The canonical encoding of the scalar one.
pub open spec fn scalar_one_bytes() -> Seq<u8> {
    nat_to_be(1, 32)
}

/// The keyed hash chain under a batch seed: element `i` is the digest of
/// the seed concatenated with the previous element (the seed alone for
/// element zero).
pub open spec fn spec_coeff_chain(seed: Seq<u8>, i: nat) -> Seq<u8>
    decreases i,
{
    if i == 0 {
        spec_sha256(seed)
    } else {
        spec_sha256(seed + spec_coeff_chain(seed, (i - 1) as nat))
    }
}

/// Batch coefficient `i`: 248 bits of chain element `i`, padded high with
/// a zero byte — always canonical — and bumped to one in the (negligible)
/// case that the truncation is zero, so that coefficients are nonzero.
pub open spec fn spec_batch_coeff(seed: Seq<u8>, i: nat) -> Seq<u8> {
    let t = seq![0u8] + spec_coeff_chain(seed, i).take(31);
    if be_nat(t) == 0 {
        scalar_one_bytes()
    } else {
        t
    }
}

/// A 32-byte string with a zero leading byte is a canonical scalar.
proof fn lemma_zero_padded_canonical(t: Seq<u8>)
    requires
        t.len() == 32,
        t[0] == 0u8,
    ensures
        is_canonical_scalar(t),
{
    lemma_be_nat_split(t, 1);
    assert(t.take(1).drop_last() =~= Seq::<u8>::empty());
    assert(be_nat(Seq::<u8>::empty()) == 0);
    assert(t.take(1).last() == 0u8);
    assert(be_nat(t.take(1)) == 0);
    lemma_r_large();
    crate::encoding::lemma_be_nat_bound(t.skip(1));
}

/// Every batch coefficient is canonical and nonzero.
pub proof fn lemma_batch_coeff_wf(seed: Seq<u8>, i: nat)
    requires
        spec_coeff_chain(seed, i).len() == 32,
    ensures
        is_canonical_scalar(spec_batch_coeff(seed, i)),
        be_nat(spec_batch_coeff(seed, i)) != 0,
{
    let t = seq![0u8] + spec_coeff_chain(seed, i).take(31);
    lemma_zero_padded_canonical(t);
    if be_nat(t) == 0 {
        lemma_r_large();
        crate::encoding::lemma_be_nat_of_nat_to_be(1, 32);
        crate::encoding::lemma_nat_to_be_len(1, 32);
    }
}

/// Concatenation of two byte strings.
fn concat_bytes(a: &[u8], b: &[u8]) -> (r: Vec<u8>)
    ensures
        r@ == a@ + b@,
{
    let mut out: Vec<u8> = Vec::new();
    let na = a.len();
    let nb = b.len();
    for i in 0..na
        invariant
            na == a@.len(),
            out@ =~= a@.take(i as int),
    {
        out.push(a[i]);
        proof {
            assert(out@ =~= a@.take(i + 1));
        }
    }
    for i in 0..nb
        invariant
            nb == b@.len(),
            out@ =~= a@ + b@.take(i as int),
    {
        out.push(b[i]);
        proof {
            assert(out@ =~= a@ + b@.take(i + 1));
        }
    }
    proof {
        assert(a@ + b@.take(nb as int) =~= a@ + b@);
    }
    out
}

/// Derives `n` pseudorandom nonzero scalar coefficients from a batch
/// seed, by a keyed SHA-256 chain.  Deterministic in the seed; the
/// soundness of batch verification requires the seed to be drawn fresh
/// from a cryptographically secure source for every batch.
#[must_use]
pub fn derive_batch_coefficients(seed: &[u8; 32], n: usize) -> (r: Vec<[u8; 32]>)
    ensures
        r@.len() == n,
        forall|i: int| 0 <= i < n ==> #[trigger] r@[i]@ == spec_batch_coeff(seed@, i as nat),
        forall|i: int| 0 <= i < n ==> is_canonical_scalar(#[trigger] r@[i]@) && be_nat(r@[i]@)
            != 0,
{
    let mut out: Vec<[u8; 32]> = Vec::new();
    let mut chain: [u8; 32] = sha256_hash(seed.as_slice(), false);
    for i in 0..n
        invariant
            out@.len() == i,
            chain@ == spec_coeff_chain(seed@, i as nat),
            forall|j: int| 0 <= j < i ==> #[trigger] out@[j]@ == spec_batch_coeff(seed@, j as nat),
            forall|j: int| 0 <= j < i ==> is_canonical_scalar(#[trigger] out@[j]@) && be_nat(
                out@[j]@,
            ) != 0,
    {
        let mut t = [0u8; 32];
        for k in 0..31usize
            invariant
                chain@ == spec_coeff_chain(seed@, i as nat),
                t@[0] == 0u8,
                forall|j: int| 0 <= j < k ==> t@[1 + j] == chain@[j],
                forall|j: int| k <= j < 31 ==> #[trigger] t@[1 + j] == 0u8,
        {
            t[k + 1] = chain[k];
        }
        proof {
            assert(t@ =~= seq![0u8] + chain@.take(31));
        }
        if be_is_zero(t.as_slice()) {
            let ghost t_zero = t@;
            t[31] = 1u8;
            proof {
                lemma_be_nat_zero(t_zero);
                let s = t@;
                assert(s =~= t_zero.update(31, 1u8));
                lemma_be_nat_split(s, 31);
                assert(forall|j: int| 0 <= j < 31 ==> #[trigger] s.take(31)[j] == t_zero[j]);
                lemma_be_nat_zero(s.take(31));
                assert(s.skip(31) =~= seq![1u8]);
                assert(seq![1u8].drop_last() =~= Seq::<u8>::empty());
                assert(be_nat(Seq::<u8>::empty()) == 0);
                assert(be_nat(seq![1u8]) == 1);
                assert(be_nat(s) == 1);
                lemma_nat_to_be_of_be_nat(s);
                assert(s == scalar_one_bytes());
            }
        }
        proof {
            lemma_batch_coeff_wf(seed@, i as nat);
            assert(t@ == spec_batch_coeff(seed@, i as nat));
        }
        out.push(t);
        let next_input = concat_bytes(seed.as_slice(), chain.as_slice());
        chain = sha256_hash(next_input.as_slice(), false);
    }
    out
}

/// The linear combination of the signatures by the batch coefficients:
/// `c_0 * sig_0 + ... + c_{n-1} * sig_{n-1}`.
pub open spec fn spec_sig_lincomb(sigs: Seq<Seq<u8>>, seed: Seq<u8>) -> Seq<u8>
    decreases sigs.len(),
{
    if sigs.len() <= 1 {
        spec_g2_mul(sigs[0], spec_batch_coeff(seed, 0))
    } else {
        spec_g2_add(
            spec_sig_lincomb(sigs.drop_last(), seed),
            spec_g2_mul(sigs.last(), spec_batch_coeff(seed, (sigs.len() - 1) as nat)),
        )
    }
}

/// Whether any of the signatures in the list is the identity.
pub open spec fn any_g2_infinity(sigs: Seq<Seq<u8>>) -> bool {
    exists|i: int| 0 <= i < sigs.len() && is_g2_infinity(sigs[i])
}

/// The scaled public keys of a batch: `c_i * pk_i`.
pub open spec fn scaled_pubkeys(pks: Seq<Seq<u8>>, seed: Seq<u8>) -> Seq<Seq<u8>> {
    Seq::new(pks.len(), |i: int| spec_g1_mul(pks[i], spec_batch_coeff(seed, i as nat)))
}

/// What batch verification returns.  The combined check
/// `e(c_1*pk_1, H(m_1)) * ... * e(c_n*pk_n, H(m_n)) * e(-G, sum c_i*sig_i) == 1`
/// collapses the batch into one multi-pairing plus one linear
/// combination; its soundness requires the seed to be unpredictable to
/// whoever chose the triples, and never reused across batches.
pub open spec fn spec_batch_verify(
    pks: Seq<Seq<u8>>,
    msgs: Seq<Seq<u8>>,
    sigs: Seq<Seq<u8>>,
    seed: Seq<u8>,
) -> Result<bool, EthBlsStatus> {
    if pks.len() != msgs.len() || pks.len() != sigs.len() {
        Err(EthBlsStatus::InputsLengthsMismatch)
    } else if pks.len() == 0 {
        Err(EthBlsStatus::ZeroLengthAggregation)
    } else if any_g1_infinity(pks) || any_g2_infinity(sigs) {
        Err(EthBlsStatus::PointAtInfinity)
    } else if spec_multi_pairing_one(
        scaled_pubkeys(pks, seed).push(spec_g1_neg(g1_generator_bytes())),
        hashed_messages(msgs).push(spec_sig_lincomb(sigs, seed)),
    ) {
        Ok(true)
    } else {
        Err(EthBlsStatus::VerificationFailure)
    }
}

/// Verifies `n` independent (key, message, signature) triples in one
/// combined randomized check.
#[must_use]
pub fn batch_verify(
    pubkeys: &[EthBlsPubKey],
    messages: &Vec<Vec<u8>>,
    signatures: &[EthBlsSignature],
    secure_random_bytes: &[u8; 32],
) -> (r: Result<bool, EthBlsStatus>)
    ensures
        r == spec_batch_verify(
            pubkey_views(pubkeys@),
            messages.deep_view(),
            signature_views(signatures@),
            secure_random_bytes@,
        ),
{
    let ghost views = pubkey_views(pubkeys@);
    let ghost msg_views = messages.deep_view();
    let ghost sig_views = signature_views(signatures@);
    let n = pubkeys.len();
    if n != messages.len() || n != signatures.len() {
        return Err(EthBlsStatus::InputsLengthsMismatch);
    }
    if n == 0 {
        return Err(EthBlsStatus::ZeroLengthAggregation);
    }
    let coeffs = derive_batch_coefficients(secure_random_bytes, n);
    let mut g1s: Vec<[u8; 48]> = Vec::new();
    let mut g2s: Vec<[u8; 96]> = Vec::new();
    for i in 0..n
        invariant
            n == pubkeys@.len() && n == messages@.len() && n == signatures@.len(),
            views == pubkey_views(pubkeys@),
            msg_views == messages.deep_view(),
            coeffs@.len() == n,
            forall|j: int| 0 <= j < n ==> #[trigger] coeffs@[j]@ == spec_batch_coeff(
                secure_random_bytes@,
                j as nat,
            ),
            forall|j: int| 0 <= j < n ==> is_canonical_scalar(#[trigger] coeffs@[j]@),
            g1s@.len() == i && g2s@.len() == i,
            forall|j: int| 0 <= j < i ==> #[trigger] g1s@[j]@ == scaled_pubkeys(views, secure_random_bytes@)[j],
            forall|j: int| 0 <= j < i ==> valid_g1(#[trigger] g1s@[j]@),
            forall|j: int| 0 <= j < i ==> !#[trigger] is_g1_infinity(views[j]),
            forall|j: int| 0 <= j < i ==> #[trigger] g2s@[j]@ == spec_hash_to_g2(msg_views[j]),
            forall|j: int| 0 <= j < i ==> valid_g2(#[trigger] g2s@[j]@),
    {
        if crate::codec::is_infinity_pubkey(&pubkeys[i]) {
            proof {
                assert(is_g1_infinity(views[i as int]));
                assert(any_g1_infinity(views));
            }
            return Err(EthBlsStatus::PointAtInfinity);
        }
        let scaled = g1_mul(pubkeys[i].bytes(), &coeffs[i]);
        g1s.push(scaled);
        let h = hash_to_g2(messages[i].as_slice());
        proof {
            assert(messages@[i as int].deep_view() =~= messages@[i as int]@);
        }
        g2s.push(h);
    }
    // Linear combination of the signatures.
    if crate::codec::is_infinity_signature(&signatures[0]) {
        proof {
            assert(is_g2_infinity(sig_views[0]));
            assert(any_g2_infinity(sig_views));
        }
        return Err(EthBlsStatus::PointAtInfinity);
    }
    let mut acc: [u8; 96] = g2_mul(signatures[0].bytes(), &coeffs[0]);
    proof {
        assert(sig_views.take(1) =~= seq![signatures@[0]@]);
        assert(acc@ == spec_sig_lincomb(sig_views.take(1), secure_random_bytes@));
    }
    for i in 1..n
        invariant
            n == pubkeys@.len() && n == messages@.len() && n == signatures@.len(),
            sig_views == signature_views(signatures@),
            msg_views == messages.deep_view(),
            coeffs@.len() == n,
            forall|j: int| 0 <= j < n ==> #[trigger] coeffs@[j]@ == spec_batch_coeff(
                secure_random_bytes@,
                j as nat,
            ),
            forall|j: int| 0 <= j < n ==> is_canonical_scalar(#[trigger] coeffs@[j]@),
            valid_g2(acc@),
            acc@ == spec_sig_lincomb(sig_views.take(i as int), secure_random_bytes@),
            forall|j: int| 0 <= j < i ==> !#[trigger] is_g2_infinity(sig_views[j]),
    {
        if crate::codec::is_infinity_signature(&signatures[i]) {
            proof {
                assert(is_g2_infinity(sig_views[i as int]));
                assert(any_g2_infinity(sig_views));
            }
            return Err(EthBlsStatus::PointAtInfinity);
        }
        let term = g2_mul(signatures[i].bytes(), &coeffs[i]);
        acc = g2_add(&acc, &term);
        proof {
            assert(sig_views.take(i + 1).drop_last() =~= sig_views.take(i as int));
            assert(sig_views.take(i + 1).last() == signatures@[i as int]@);
        }
    }
    proof {
        assert(sig_views.take(n as int) =~= sig_views);
        assert(!any_g2_infinity(sig_views));
        assert(!any_g1_infinity(views));
    }
    let g = g1_generator();
    g1s.push(g1_neg(&g));
    g2s.push(acc);
    proof {
        lemma_deep_g1(g1s);
        lemma_deep_g2(g2s);
        assert(g1s.deep_view() =~= scaled_pubkeys(views, secure_random_bytes@).push(
            spec_g1_neg(g1_generator_bytes()),
        ));
        assert(g2s.deep_view() =~= hashed_messages(msg_views).push(
            spec_sig_lincomb(sig_views, secure_random_bytes@),
        ));
    }
    if multi_pairing_is_one(&g1s, &g2s) {
        Ok(true)
    } else {
        Err(EthBlsStatus::VerificationFailure)
    }
}

/// Verifies a batch using the engine's worker pool.  The result is
/// bit-identical to `batch_verify` on the same inputs — both return
/// exactly `spec_batch_verify` of the inputs — so parallelism can only
/// change wall-clock time, never the outcome.  The engine in use runs
/// the combined check on the calling thread; the pool records the
/// parallel configuration.
#[must_use]
pub fn batch_verify_parallel(
    tp: &Threadpool,
    pubkeys: &[EthBlsPubKey],
    messages: &Vec<Vec<u8>>,
    signatures: &[EthBlsSignature],
    secure_random_bytes: &[u8; 32],
) -> (r: Result<bool, EthBlsStatus>)
    ensures
        r == spec_batch_verify(
            pubkey_views(pubkeys@),
            messages.deep_view(),
            signature_views(signatures@),
            secure_random_bytes@,
        ),
{
    let _workers = tp.get_private_context();
    batch_verify(pubkeys, messages, signatures, secure_random_bytes)
}

// ---------------------------------------------------------------------
// Message spans.
// ---------------------------------------------------------------------

/// A borrowed view of one message, as the engine's span calling
/// convention carries it: the bytes and their length.
pub struct CttSpan {
    pub data: Vec<u8>,
    pub len: usize,
}

/// A verified copy of a byte vector.
fn clone_bytes(a: &Vec<u8>) -> (r: Vec<u8>)
    ensures
        r@ == a@,
{
    let mut out: Vec<u8> = Vec::new();
    let n = a.len();
    for i in 0..n
        invariant
            n == a@.len(),
            out@ =~= a@.take(i as int),
    {
        out.push(a[i]);
        proof {
            assert(out@ =~= a@.take(i + 1));
        }
    }
    proof {
        assert(a@.take(n as int) =~= a@);
    }
    out
}

/// Converts a list of messages into engine spans.
#[must_use]
pub fn to_span(vec: &Vec<Vec<u8>>) -> (r: Vec<CttSpan>)
    ensures
        r@.len() == vec@.len(),
        forall|i: int| 0 <= i < vec@.len() ==> (#[trigger] r@[i]).data@ == vec@[i]@ && r@[i].len
            == vec@[i]@.len(),
{
    let mut spans: Vec<CttSpan> = Vec::new();
    let n = vec.len();
    for i in 0..n
        invariant
            n == vec@.len(),
            spans@.len() == i,
            forall|j: int| 0 <= j < i ==> (#[trigger] spans@[j]).data@ == vec@[j]@ && spans@[j].len
                == vec@[j]@.len(),
    {
        let data = clone_bytes(&vec[i]);
        let len = data.len();
        spans.push(CttSpan { data, len });
        proof {
            assert(spans@[i as int].data@ == vec@[i as int]@);
        }
    }
    spans
}


// ---------------------------------------------------------------------
// Protocol laws.
// ---------------------------------------------------------------------

/// Law: an empty aggregation never verifies; both aggregate entry points
/// reject it outright, closing the forgery through the identity element.
pub proof fn lemma_empty_aggregate_rejected(msg: Seq<u8>, msgs: Seq<Seq<u8>>, sig: Seq<u8>)
    requires
        msgs.len() == 0,
    ensures
        spec_fast_aggregate_verify(Seq::<Seq<u8>>::empty(), msg, sig) == Err::<bool, EthBlsStatus>(
            EthBlsStatus::ZeroLengthAggregation,
        ),
        spec_aggregate_verify(Seq::<Seq<u8>>::empty(), msgs, sig) == Err::<bool, EthBlsStatus>(
            EthBlsStatus::ZeroLengthAggregation,
        ),
{
}

/// Law: mismatched key and message lists are rejected with the dedicated
/// status, before any engine work.
pub proof fn lemma_length_mismatch_rejected(pks: Seq<Seq<u8>>, msgs: Seq<Seq<u8>>, sig: Seq<u8>)
    requires
        pks.len() != msgs.len(),
    ensures
        spec_aggregate_verify(pks, msgs, sig) == Err::<bool, EthBlsStatus>(
            EthBlsStatus::InputsLengthsMismatch,
        ),
{
}

/// Law: the serial and parallel batch paths agree on every input — both
/// return exactly `spec_batch_verify` of the inputs.
pub proof fn lemma_batch_serial_parallel_agree(
    r1: Result<bool, EthBlsStatus>,
    r2: Result<bool, EthBlsStatus>,
    pks: Seq<Seq<u8>>,
    msgs: Seq<Seq<u8>>,
    sigs: Seq<Seq<u8>>,
    seed: Seq<u8>,
)
    requires
        r1 == spec_batch_verify(pks, msgs, sigs, seed),
        r2 == spec_batch_verify(pks, msgs, sigs, seed),
    ensures
        r1 == r2,
{
}

} // verus!
