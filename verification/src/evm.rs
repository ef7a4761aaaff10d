//! Precompile-style helpers: stateless byte-buffer entry points.
//!
//! The hashing precompile computes here; for modular exponentiation the
//! pre-pass that sizes the result buffer from the input header is
//! computed and verified here (the exponentiation itself belongs to the
//! arithmetic engine).

use vstd::prelude::*;
use crate::encoding::{
    be_nat, nat_to_be, rev32, bls_p, bls_p_bytes, bls_p_be, bn_p, bn_p_be, be_lt, be_is_zero,
    is_canonical_scalar, lemma_be_nat_split, lemma_be_nat_zero, lemma_be_nat_bound,
};
use crate::engine::{
    spec_sha256, sha256_hash, valid_g1, valid_g2, is_g1_infinity, is_g2_infinity,
    spec_g1_add, spec_g1_mul, spec_g2_add, spec_g2_mul, spec_g1_in_subgroup, spec_g2_in_subgroup,
    spec_g1u_on_curve, spec_g1u_compress, spec_g1_uncompress,
    spec_g2u_on_curve, spec_g2u_compress, spec_g2_uncompress,
    spec_map_fp_to_g1, spec_map_fp2_to_g2, spec_multi_pairing_one,
    fr_reduce_bytes, fr_reduce,
    g1_add, g1_mul, g2_add, g2_mul, g1_check_subgroup, g2_check_subgroup,
    g1_uncompressed_decode, g1_uncompress, g2_uncompressed_decode, g2_uncompress,
    map_fp_to_g1, map_fp2_to_g2, multi_pairing_is_one,
    spec_bn_g1_valid, spec_bn_g1_on_curve, spec_bn_g1_compress, spec_bn_g1_add, spec_bn_g1_mul,
    spec_bn_g1_coords, spec_bn_g2_valid, spec_bn_g2_on_curve, spec_bn_g2_compress,
    spec_bn_g2_in_subgroup, spec_bn_pairing_one,
    bn_g1_decode, bn_g1_identity, bn_g1_add, bn_g1_mul, bn_g1_coords,
    bn_g2_decode, bn_g2_identity, bn_g2_subgroup_check, bn_pairing_is_one,
};
use crate::kzg::{g1_identity_bytes, g1_identity};
use vstd::arithmetic::power::pow;

verus! {

/// Status of a precompile call.
#[derive(Clone, Copy, Debug, PartialEq, Eq, Structural)]
pub enum EvmStatus {
    InvalidInputSize,
    InvalidOutputSize,
    IntLargerThanModulus,
    PointNotOnCurve,
    PointNotInSubgroup,
}

/// The hashing precompile: the 32-byte digest of the input.
pub fn evm_sha256(message: &[u8]) -> (r: Result<[u8; 32], EvmStatus>)
    ensures
        r matches Ok(d) && d@ == spec_sha256(message@),
{
    Ok(sha256_hash(message, false))
}

/// The input header of the modular-exponentiation precompile, implicitly
/// zero-padded to its fixed 96-byte width.
pub open spec fn modexp_padded_header(inputs: Seq<u8>) -> Seq<u8> {
    Seq::new(96, |i: int| if i < inputs.len() { inputs[i] } else { 0u8 })
}

/// The length of the modulus field of a modular-exponentiation call: the
/// third big-endian word of its header.  The result buffer has exactly
/// this size.
pub open spec fn modexp_mod_len(inputs: Seq<u8>) -> nat {
    be_nat(modexp_padded_header(inputs).subrange(64, 96))
}

/// Sizes the result buffer of a modular-exponentiation call from the
/// input header: the result is exactly as long as the modulus.  Fails on
/// a modulus length field that does not fit 32 bits.
pub fn evm_modexp_result_size(inputs: &[u8]) -> (r: Result<u64, EvmStatus>)
    ensures
        modexp_mod_len(inputs@) < 4294967296 ==> r == Ok::<u64, EvmStatus>(
            modexp_mod_len(inputs@) as u64,
        ),
        modexp_mod_len(inputs@) >= 4294967296 ==> r == Err::<u64, EvmStatus>(
            EvmStatus::InvalidInputSize,
        ),
{
    let ghost word = modexp_padded_header(inputs@).subrange(64, 96);
    // Materialize the padded modulus-length word.
    let mut w = [0u8; 32];
    let n = inputs.len();
    for k in 0..32usize
        invariant
            n == inputs@.len(),
            forall|j: int| 0 <= j < k ==> w@[j] == modexp_padded_header(inputs@).subrange(64, 96)[j],
    {
        if 64 + k < n {
            w[k] = inputs[64 + k];
        } else {
            w[k] = 0u8;
        }
    }
    proof {
        assert(w@ =~= word);
    }
    // The field fits 32 bits exactly when its first 28 bytes are zero.
    for k in 0..28usize
        invariant
            word == modexp_padded_header(inputs@).subrange(64, 96),
            w@ == word,
            forall|j: int| 0 <= j < k ==> w@[j] == 0u8,
    {
        if w[k] != 0u8 {
            proof {
                lemma_be_nat_split(word, 28);
                lemma_be_nat_zero(word.take(28));
                assert(word.take(28)[k as int] != 0);
                crate::encoding::lemma_be_nat_bound(word.skip(28));
                vstd::arithmetic::power::lemma_pow_positive(256, 4);
                assert(be_nat(word.take(28)) >= 1);
                assert(be_nat(word) >= pow(256, 4)) by (nonlinear_arith)
                    requires
                        be_nat(word) == be_nat(word.take(28)) * pow(256, 4) + be_nat(word.skip(28)),
                        be_nat(word.take(28)) >= 1,
                        pow(256, 4) > 0,
                ;
                reveal_with_fuel(pow, 5);
                assert(pow(256, 4) == 4294967296);
            }
            return Err(EvmStatus::InvalidInputSize);
        }
    }
    let size: u64 = ((w[28] as u64) << 24) | ((w[29] as u64) << 16) | ((w[30] as u64) << 8) | (
    w[31] as u64);
    proof {
        lemma_be_nat_split(word, 28);
        lemma_be_nat_zero(word.take(28));
        let t = word.skip(28);
        assert(t.len() == 4);
        assert(seq![t[0]].drop_last() =~= Seq::<u8>::empty());
        assert(seq![t[0], t[1]].drop_last() =~= seq![t[0]]);
        assert(seq![t[0], t[1], t[2]].drop_last() =~= seq![t[0], t[1]]);
        assert(t.drop_last() =~= seq![t[0], t[1], t[2]]);
        assert(be_nat(Seq::<u8>::empty()) == 0);
        assert(be_nat(seq![t[0]]) == t[0]);
        assert(be_nat(seq![t[0], t[1]]) == t[0] as nat * 256 + t[1] as nat);
        assert(be_nat(seq![t[0], t[1], t[2]]) == (t[0] as nat * 256 + t[1] as nat) * 256
            + t[2] as nat);
        assert(be_nat(t) == ((t[0] as nat * 256 + t[1] as nat) * 256 + t[2] as nat) * 256
            + t[3] as nat);
        assert(t[0] == w@[28] && t[1] == w@[29] && t[2] == w@[30] && t[3] == w@[31]);
        let (a, b, c, d) = (w@[28], w@[29], w@[30], w@[31]);
        assert(((a as u64) << 24) | ((b as u64) << 16) | ((c as u64) << 8) | (d as u64) == ((
        a as u64) * 16777216 + (b as u64) * 65536 + (c as u64) * 256 + (d as u64))) by (bit_vector);
        assert(be_nat(word) == be_nat(t));
        reveal_with_fuel(pow, 5);
        assert(pow(256, 4) == 4294967296);
        crate::encoding::lemma_be_nat_bound(t);
    }
    Ok(size)
}


// ---------------------------------------------------------------------
// Modular exponentiation.
// ---------------------------------------------------------------------

/// A field of a modular-exponentiation call: `len` bytes from offset
/// `off`, the input implicitly zero-padded without bound.
pub open spec fn modexp_field(s: Seq<u8>, off: int, len: nat) -> Seq<u8> {
    Seq::new(len, |j: int| if off + j < s.len() { s[off + j] } else { 0u8 })
}

/// The base length field: the first big-endian header word.
pub open spec fn modexp_base_len(inputs: Seq<u8>) -> nat {
    be_nat(modexp_padded_header(inputs).subrange(0, 32))
}

/// The exponent length field: the second big-endian header word.
pub open spec fn modexp_exp_len(inputs: Seq<u8>) -> nat {
    be_nat(modexp_padded_header(inputs).subrange(32, 64))
}

/// What the modular-exponentiation precompile returns: with lengths that
/// fit 32 bits, the base raised to the exponent modulo the modulus, in
/// exactly the modulus's width; a zero modulus gives a zero-filled
/// result of that width.
pub open spec fn spec_evm_modexp(s: Seq<u8>) -> Result<Seq<u8>, EvmStatus> {
    let bl = modexp_base_len(s);
    let el = modexp_exp_len(s);
    let ml = modexp_mod_len(s);
    if bl >= 4294967296 || el >= 4294967296 || ml >= 4294967296 {
        Err(EvmStatus::InvalidInputSize)
    } else {
        let base = modexp_field(s, 96, bl);
        let exp = modexp_field(s, 96 + bl as int, el);
        let modulus = modexp_field(s, 96 + bl as int + el as int, ml);
        if be_nat(modulus) == 0 {
            Ok(Seq::new(ml, |j: int| 0u8))
        } else {
            Ok(
                nat_to_be(
                    (pow(be_nat(base) as int, be_nat(exp)) % (be_nat(modulus) as int)) as nat,
                    ml,
                ),
            )
        }
    }
}

/// Relies on `num_bigint::BigUint::modpow` and its big-endian byte
/// conversions: the base raised to the exponent modulo a nonzero
/// modulus, left-padded to the modulus's width (the value is below the
/// modulus, so it fits).
#[verifier::external_body]
fn modexp_bytes(base: &Vec<u8>, exp: &Vec<u8>, modulus: &Vec<u8>) -> (r: Vec<u8>)
    requires
        be_nat(modulus@) != 0,
    ensures
        r@ == nat_to_be(
            (pow(be_nat(base@) as int, be_nat(exp@)) % (be_nat(modulus@) as int)) as nat,
            modulus@.len(),
        ),
{
    let b = num_bigint::BigUint::from_bytes_be(base);
    let e = num_bigint::BigUint::from_bytes_be(exp);
    let m = num_bigint::BigUint::from_bytes_be(modulus);
    let out = b.modpow(&e, &m).to_bytes_be();
    let pad = modulus.len() - out.len();
    let mut r = vec![0u8; pad];
    r.extend_from_slice(&out);
    r
}

/// Reads one header length word; fails exactly when it does not fit 32
/// bits.
fn modexp_length_word(inputs: &[u8], off: usize) -> (r: Option<usize>)
    requires
        off + 32 <= 96,
    ensures
        (r is Some) == (be_nat(modexp_padded_header(inputs@).subrange(off as int, off + 32))
            < 4294967296),
        r is Some ==> r->0 == be_nat(
            modexp_padded_header(inputs@).subrange(off as int, off + 32),
        ),
{
    let ghost word = modexp_padded_header(inputs@).subrange(off as int, off + 32);
    let mut w = [0u8; 32];
    let n = inputs.len();
    for k in 0..32usize
        invariant
            n == inputs@.len(),
            off + 32 <= 96,
            forall|j: int| 0 <= j < k ==> w@[j] == modexp_padded_header(inputs@).subrange(
                off as int,
                off + 32,
            )[j],
    {
        if off + k < n {
            w[k] = inputs[off + k];
        } else {
            w[k] = 0u8;
        }
    }
    proof {
        assert(w@ =~= word);
    }
    for k in 0..28usize
        invariant
            word == modexp_padded_header(inputs@).subrange(off as int, off + 32),
            w@ == word,
            forall|j: int| 0 <= j < k ==> w@[j] == 0u8,
    {
        if w[k] != 0u8 {
            proof {
                lemma_be_nat_split(word, 28);
                lemma_be_nat_zero(word.take(28));
                assert(word.take(28)[k as int] != 0);
                crate::encoding::lemma_be_nat_bound(word.skip(28));
                vstd::arithmetic::power::lemma_pow_positive(256, 4);
                assert(be_nat(word.take(28)) >= 1);
                assert(be_nat(word) >= pow(256, 4)) by (nonlinear_arith)
                    requires
                        be_nat(word) == be_nat(word.take(28)) * pow(256, 4) + be_nat(
                            word.skip(28),
                        ),
                        be_nat(word.take(28)) >= 1,
                        pow(256, 4) > 0,
                ;
                reveal_with_fuel(pow, 5);
                assert(pow(256, 4) == 4294967296);
            }
            return None;
        }
    }
    let size: usize = ((w[28] as usize) << 24) | ((w[29] as usize) << 16) | ((w[30] as usize) << 8)
        | (w[31] as usize);
    proof {
        lemma_be_nat_split(word, 28);
        lemma_be_nat_zero(word.take(28));
        let t = word.skip(28);
        assert(t.len() == 4);
        assert(seq![t[0]].drop_last() =~= Seq::<u8>::empty());
        assert(seq![t[0], t[1]].drop_last() =~= seq![t[0]]);
        assert(seq![t[0], t[1], t[2]].drop_last() =~= seq![t[0], t[1]]);
        assert(t.drop_last() =~= seq![t[0], t[1], t[2]]);
        assert(be_nat(Seq::<u8>::empty()) == 0);
        assert(be_nat(seq![t[0]]) == t[0]);
        assert(be_nat(seq![t[0], t[1]]) == t[0] as nat * 256 + t[1] as nat);
        assert(be_nat(seq![t[0], t[1], t[2]]) == (t[0] as nat * 256 + t[1] as nat) * 256
            + t[2] as nat);
        assert(be_nat(t) == ((t[0] as nat * 256 + t[1] as nat) * 256 + t[2] as nat) * 256
            + t[3] as nat);
        assert(t[0] == w@[28] && t[1] == w@[29] && t[2] == w@[30] && t[3] == w@[31]);
        let (a, b, c, d) = (w@[28], w@[29], w@[30], w@[31]);
        assert(((a as usize) << 24) | ((b as usize) << 16) | ((c as usize) << 8) | (d as usize)
            == ((a as usize) * 16777216 + (b as usize) * 65536 + (c as usize) * 256 + (
        d as usize))) by (bit_vector);
        assert(be_nat(word) == be_nat(t));
        reveal_with_fuel(pow, 5);
        assert(pow(256, 4) == 4294967296);
        crate::encoding::lemma_be_nat_bound(t);
    }
    Some(size)
}

/// Copies a zero-padded field out of the input.
fn extract_field(inputs: &[u8], off: u64, len: usize) -> (r: Vec<u8>)
    requires
        off + len < 18446744073709551615,
    ensures
        r@ == modexp_field(inputs@, off as int, len as nat),
{
    let mut out: Vec<u8> = Vec::new();
    let n = inputs.len();
    for j in 0..len
        invariant
            n == inputs@.len(),
            off + len < 18446744073709551615,
            out@.len() == j,
            forall|t: int| 0 <= t < j ==> out@[t] == modexp_field(
                inputs@,
                off as int,
                len as nat,
            )[t],
    {
        let idx = off + (j as u64);
        if idx < (n as u64) {
            out.push(inputs[idx as usize]);
        } else {
            out.push(0u8);
        }
    }
    proof {
        assert(out@ =~= modexp_field(inputs@, off as int, len as nat));
    }
    out
}

/// The modular-exponentiation precompile: the header is parsed and the
/// result buffer sized here; the exponentiation itself is the
/// big-integer engine's.
pub fn evm_modexp(inputs: &[u8]) -> (r: Result<Vec<u8>, EvmStatus>)
    ensures
        match r {
            Ok(out) => spec_evm_modexp(inputs@) == Ok::<Seq<u8>, EvmStatus>(out@),
            Err(e) => spec_evm_modexp(inputs@) == Err::<Seq<u8>, EvmStatus>(e),
        },
{
    let base_len = match modexp_length_word(inputs, 0) {
        Some(v) => v,
        None => {
            return Err(EvmStatus::InvalidInputSize);
        },
    };
    let exp_len = match modexp_length_word(inputs, 32) {
        Some(v) => v,
        None => {
            return Err(EvmStatus::InvalidInputSize);
        },
    };
    let mod_len = match modexp_length_word(inputs, 64) {
        Some(v) => v,
        None => {
            return Err(EvmStatus::InvalidInputSize);
        },
    };
    let base = extract_field(inputs, 96, base_len);
    let exp = extract_field(inputs, 96 + (base_len as u64), exp_len);
    let modulus = extract_field(inputs, 96 + (base_len as u64) + (exp_len as u64), mod_len);
    if be_is_zero(modulus.as_slice()) {
        let mut out: Vec<u8> = Vec::new();
        for j in 0..mod_len
            invariant
                out@.len() == j,
                forall|t: int| 0 <= t < j ==> out@[t] == 0u8,
        {
            out.push(0u8);
        }
        proof {
            assert(out@ =~= Seq::new(mod_len as nat, |j: int| 0u8));
        }
        return Ok(out);
    }
    Ok(modexp_bytes(&base, &exp, &modulus))
}

// ---------------------------------------------------------------------
// Curve precompiles over the pairing-friendly curve.  Field elements
// travel in 64-byte slots (sixteen zero bytes, then the 48 coordinate
// bytes); a point of the first group is two such slots, of the second
// group four; the identity is the all-zero point encoding.
// ---------------------------------------------------------------------

/// The canonical compressed encoding of the identity of the second group.
pub open spec fn g2_identity_bytes() -> Seq<u8> {
    Seq::new(96, |i: int| if i == 0 { 0xc0u8 } else { 0u8 })
}

fn g2_identity() -> (r: [u8; 96])
    ensures
        r@ == g2_identity_bytes(),
        valid_g2(r@),
        is_g2_infinity(r@),
{
    let mut r = [0u8; 96];
    r[0] = 0xc0u8;
    proof {
        assert(r@ =~= g2_identity_bytes());
    }
    r
}

fn is_inf48(b: &[u8; 48]) -> (r: bool)
    ensures
        r == is_g1_infinity(b@),
{
    if b[0] != 0xc0u8 {
        return false;
    }
    for i in 1..48usize
        invariant
            b@[0] == 0xc0u8,
            forall|j: int| 1 <= j < i ==> b@[j] == 0u8,
    {
        if b[i] != 0u8 {
            return false;
        }
    }
    true
}

fn is_inf96(b: &[u8; 96]) -> (r: bool)
    ensures
        r == is_g2_infinity(b@),
{
    if b[0] != 0xc0u8 {
        return false;
    }
    for i in 1..96usize
        invariant
            b@[0] == 0xc0u8,
            forall|j: int| 1 <= j < i ==> b@[j] == 0u8,
    {
        if b[i] != 0u8 {
            return false;
        }
    }
    true
}

/// A 64-byte field slot holds a value below the field modulus exactly
/// when its sixteen pad bytes are zero and its coordinate bytes are.
proof fn lemma_fp_slot(s: Seq<u8>, off: int)
    requires
        0 <= off,
        off + 64 <= s.len(),
    ensures
        (be_nat(s.subrange(off, off + 64)) < bls_p()) <==> ((forall|j: int|
            off <= j < off + 16 ==> s[j] == 0u8) && be_nat(s.subrange(off + 16, off + 64))
            < bls_p()),
{
    let w = s.subrange(off, off + 64);
    lemma_be_nat_split(w, 16);
    assert(w.take(16) =~= s.subrange(off, off + 16));
    assert(w.skip(16) =~= s.subrange(off + 16, off + 64));
    lemma_be_nat_bound(bls_p_bytes());
    lemma_be_nat_zero(w.take(16));
    vstd::arithmetic::power::lemma_pow_positive(256, 48);
    if forall|j: int| off <= j < off + 16 ==> s[j] == 0u8 {
        assert(forall|j: int| 0 <= j < 16 ==> w.take(16)[j] == s[off + j]);
        assert(be_nat(w.take(16)) == 0);
    } else {
        let j = choose|j: int| off <= j < off + 16 && s[j] != 0u8;
        assert(w.take(16)[j - off] != 0u8);
        assert(be_nat(w.take(16)) >= 1);
        assert(be_nat(w) >= pow(256, 48)) by (nonlinear_arith)
            requires
                be_nat(w) == be_nat(w.take(16)) * pow(256, 48) + be_nat(w.skip(16)),
                be_nat(w.take(16)) >= 1,
                pow(256, 48) > 0,
        ;
    }
}

/// Reads one field slot; fails exactly when its 64-byte value is at or
/// above the field modulus.
fn read_fp_slot(inputs: &[u8], off: usize) -> (r: Option<[u8; 48]>)
    requires
        off + 64 <= inputs@.len(),
    ensures
        (r is Some) == (be_nat(inputs@.subrange(off as int, off + 64)) < bls_p()),
        r is Some ==> r->0@ == inputs@.subrange(off + 16, off + 64) && be_nat(r->0@) < bls_p(),
{
    let n = inputs.len();
    proof {
        lemma_fp_slot(inputs@, off as int);
    }
    for i in 0..16usize
        invariant
            n == inputs@.len(),
            off + 64 <= n,
            forall|j: int| off <= j < off + i ==> inputs@[j] == 0u8,
    {
        if inputs[off + i] != 0u8 {
            proof {
                lemma_fp_slot(inputs@, off as int);
            }
            return None;
        }
    }
    let mut x = [0u8; 48];
    for i in 0..48usize
        invariant
            n == inputs@.len(),
            off + 64 <= n,
            forall|j: int| 0 <= j < i ==> x@[j] == inputs@[off + 16 + j],
    {
        x[i] = inputs[off + 16 + i];
    }
    proof {
        assert(x@ =~= inputs@.subrange(off + 16, off + 64));
    }
    let p = bls_p_be();
    if be_lt(x.as_slice(), p.as_slice()) {
        Some(x)
    } else {
        None
    }
}

/// The 96 coordinate bytes of a point slot of the first group.
pub open spec fn evm_g1_coords(s: Seq<u8>, off: int) -> Seq<u8> {
    s.subrange(off + 16, off + 64) + s.subrange(off + 80, off + 128)
}

/// Decoding a 128-byte point slot of the first group: out-of-range field
/// values are rejected, the all-zero point is the identity, anything else
/// must lie on the curve.
pub open spec fn spec_read_evm_g1(s: Seq<u8>, off: int) -> Result<Seq<u8>, EvmStatus> {
    if be_nat(s.subrange(off, off + 64)) >= bls_p() || be_nat(s.subrange(off + 64, off + 128))
        >= bls_p() {
        Err(EvmStatus::IntLargerThanModulus)
    } else if be_nat(s.subrange(off + 16, off + 64)) == 0 && be_nat(
        s.subrange(off + 80, off + 128),
    ) == 0 {
        Ok(g1_identity_bytes())
    } else if !spec_g1u_on_curve(evm_g1_coords(s, off)) {
        Err(EvmStatus::PointNotOnCurve)
    } else {
        Ok(spec_g1u_compress(evm_g1_coords(s, off)))
    }
}

fn read_evm_g1(inputs: &[u8], off: usize) -> (r: Result<[u8; 48], EvmStatus>)
    requires
        off + 128 <= inputs@.len(),
    ensures
        match r {
            Ok(c) => spec_read_evm_g1(inputs@, off as int) == Ok::<Seq<u8>, EvmStatus>(c@)
                && valid_g1(c@),
            Err(e) => spec_read_evm_g1(inputs@, off as int) == Err::<Seq<u8>, EvmStatus>(e),
        },
{
    let n = inputs.len();
    proof {
        assert(off + 128 <= n);
    }
    let x = match read_fp_slot(inputs, off) {
        Some(x) => x,
        None => {
            return Err(EvmStatus::IntLargerThanModulus);
        },
    };
    let y = match read_fp_slot(inputs, off + 64) {
        Some(y) => y,
        None => {
            return Err(EvmStatus::IntLargerThanModulus);
        },
    };
    if be_is_zero(x.as_slice()) && be_is_zero(y.as_slice()) {
        return Ok(g1_identity());
    }
    let mut u = [0u8; 96];
    for i in 0..48usize
        invariant
            forall|j: int| 0 <= j < i ==> u@[j] == x@[j],
            forall|j: int| 0 <= j < i ==> u@[48 + j] == y@[j],
    {
        u[i] = x[i];
        u[48 + i] = y[i];
    }
    proof {
        assert(u@.subrange(0, 48) =~= x@);
        assert(u@.subrange(48, 96) =~= y@);
        assert(u@ =~= evm_g1_coords(inputs@, off as int));
    }
    match g1_uncompressed_decode(&u) {
        Some(c) => Ok(c),
        None => Err(EvmStatus::PointNotOnCurve),
    }
}

/// Decoding with the subgroup requirement of the scalar-multiplication,
/// multi-scalar and pairing entry points.
pub open spec fn spec_read_evm_g1_checked(s: Seq<u8>, off: int) -> Result<Seq<u8>, EvmStatus> {
    match spec_read_evm_g1(s, off) {
        Err(e) => Err(e),
        Ok(c) => if is_g1_infinity(c) || spec_g1_in_subgroup(c) {
            Ok(c)
        } else {
            Err(EvmStatus::PointNotInSubgroup)
        },
    }
}

fn read_evm_g1_checked(inputs: &[u8], off: usize) -> (r: Result<[u8; 48], EvmStatus>)
    requires
        off + 128 <= inputs@.len(),
    ensures
        match r {
            Ok(c) => spec_read_evm_g1_checked(inputs@, off as int) == Ok::<Seq<u8>, EvmStatus>(c@)
                && valid_g1(c@),
            Err(e) => spec_read_evm_g1_checked(inputs@, off as int) == Err::<Seq<u8>, EvmStatus>(
                e,
            ),
        },
{
    let c = read_evm_g1(inputs, off)?;
    if is_inf48(&c) {
        return Ok(c);
    }
    if g1_check_subgroup(&c) {
        Ok(c)
    } else {
        Err(EvmStatus::PointNotInSubgroup)
    }
}

/// The 128-byte answer encoding of a point of the first group.
pub open spec fn spec_evm_g1_out(c: Seq<u8>) -> Seq<u8> {
    if is_g1_infinity(c) {
        Seq::new(128, |i: int| 0u8)
    } else {
        let u = spec_g1_uncompress(c);
        Seq::new(
            128,
            |i: int|
                if i < 16 {
                    0u8
                } else if i < 64 {
                    u[i - 16]
                } else if i < 80 {
                    0u8
                } else {
                    u[i - 32]
                },
        )
    }
}

fn evm_g1_out(c: &[u8; 48]) -> (r: [u8; 128])
    requires
        valid_g1(c@),
    ensures
        r@ == spec_evm_g1_out(c@),
{
    let mut r = [0u8; 128];
    if is_inf48(c) {
        proof {
            assert(r@ =~= spec_evm_g1_out(c@));
        }
        return r;
    }
    let u = g1_uncompress(c);
    for i in 0..48usize
        invariant
            u@ == spec_g1_uncompress(c@),
            !is_g1_infinity(c@),
            forall|j: int| 16 <= j < 16 + i ==> #[trigger] r@[j] == u@[j - 16],
            forall|j: int| 80 <= j < 80 + i ==> #[trigger] r@[j] == u@[j - 32],
            forall|j: int| 0 <= j < 16 ==> r@[j] == 0u8,
            forall|j: int| 64 <= j < 80 ==> r@[j] == 0u8,
    {
        r[16 + i] = u[i];
        r[80 + i] = u[48 + i];
    }
    proof {
        assert(r@ =~= spec_evm_g1_out(c@));
    }
    r
}

/// What point addition in the first group returns: the sum of the two
/// decoded points (no subgroup requirement), as an answer encoding.
pub open spec fn spec_evm_bls12381_g1add(s: Seq<u8>) -> Result<Seq<u8>, EvmStatus> {
    if s.len() != 256 {
        Err(EvmStatus::InvalidInputSize)
    } else {
        match spec_read_evm_g1(s, 0) {
            Err(e) => Err(e),
            Ok(a) => match spec_read_evm_g1(s, 128) {
                Err(e) => Err(e),
                Ok(b) => Ok(spec_evm_g1_out(spec_g1_add(a, b))),
            },
        }
    }
}

/// Point addition in the first group.
pub fn evm_bls12381_g1add(inputs: &[u8]) -> (r: Result<[u8; 128], EvmStatus>)
    ensures
        match r {
            Ok(out) => spec_evm_bls12381_g1add(inputs@) == Ok::<Seq<u8>, EvmStatus>(out@),
            Err(e) => spec_evm_bls12381_g1add(inputs@) == Err::<Seq<u8>, EvmStatus>(e),
        },
{
    if inputs.len() != 256 {
        return Err(EvmStatus::InvalidInputSize);
    }
    let a = read_evm_g1(inputs, 0)?;
    let b = read_evm_g1(inputs, 128)?;
    let c = g1_add(&a, &b);
    Ok(evm_g1_out(&c))
}

/// What scalar multiplication in the first group returns: the decoded
/// point (which must lie in the prime-order subgroup) times the 32-byte
/// scalar reduced into the scalar field — sound because the subgroup's
/// order is the reduction modulus.
pub open spec fn spec_evm_bls12381_g1mul(s: Seq<u8>) -> Result<Seq<u8>, EvmStatus> {
    if s.len() != 160 {
        Err(EvmStatus::InvalidInputSize)
    } else {
        match spec_read_evm_g1_checked(s, 0) {
            Err(e) => Err(e),
            Ok(p) => Ok(
                spec_evm_g1_out(spec_g1_mul(p, fr_reduce_bytes(s.subrange(128, 160)))),
            ),
        }
    }
}

/// Scalar multiplication in the first group.
pub fn evm_bls12381_g1mul(inputs: &[u8]) -> (r: Result<[u8; 128], EvmStatus>)
    ensures
        match r {
            Ok(out) => spec_evm_bls12381_g1mul(inputs@) == Ok::<Seq<u8>, EvmStatus>(out@),
            Err(e) => spec_evm_bls12381_g1mul(inputs@) == Err::<Seq<u8>, EvmStatus>(e),
        },
{
    if inputs.len() != 160 {
        return Err(EvmStatus::InvalidInputSize);
    }
    let p = read_evm_g1_checked(inputs, 0)?;
    let mut sc = [0u8; 32];
    for i in 0..32usize
        invariant
            inputs@.len() == 160,
            forall|j: int| 0 <= j < i ==> sc@[j] == inputs@[128 + j],
    {
        sc[i] = inputs[128 + i];
    }
    proof {
        assert(sc@ =~= inputs@.subrange(128, 160));
    }
    let k = fr_reduce(&sc);
    let c = g1_mul(&p, &k);
    Ok(evm_g1_out(&c))
}

/// The multi-scalar sum of the first `n` items of a multi-scalar call:
/// each item is a subgroup-checked point slot and a scalar, items are
/// validated in order, and the sum starts from the identity.
pub open spec fn spec_g1_msm_sum(s: Seq<u8>, n: int) -> Result<Seq<u8>, EvmStatus>
    decreases n,
{
    if n <= 0 {
        Ok(g1_identity_bytes())
    } else {
        match spec_g1_msm_sum(s, n - 1) {
            Err(e) => Err(e),
            Ok(acc) => match spec_read_evm_g1_checked(s, 160 * (n - 1)) {
                Err(e) => Err(e),
                Ok(p) => Ok(
                    spec_g1_add(
                        acc,
                        spec_g1_mul(
                            p,
                            fr_reduce_bytes(s.subrange(160 * (n - 1) + 128, 160 * n)),
                        ),
                    ),
                ),
            },
        }
    }
}

/// What multi-scalar multiplication in the first group returns.
pub open spec fn spec_evm_bls12381_g1msm(s: Seq<u8>) -> Result<Seq<u8>, EvmStatus> {
    if s.len() == 0 || s.len() % 160 != 0 {
        Err(EvmStatus::InvalidInputSize)
    } else {
        match spec_g1_msm_sum(s, (s.len() / 160) as int) {
            Err(e) => Err(e),
            Ok(c) => Ok(spec_evm_g1_out(c)),
        }
    }
}

/// Multi-scalar multiplication in the first group.
pub fn evm_bls12381_g1msm(inputs: &[u8]) -> (r: Result<[u8; 128], EvmStatus>)
    ensures
        match r {
            Ok(out) => spec_evm_bls12381_g1msm(inputs@) == Ok::<Seq<u8>, EvmStatus>(out@),
            Err(e) => spec_evm_bls12381_g1msm(inputs@) == Err::<Seq<u8>, EvmStatus>(e),
        },
{
    let len = inputs.len();
    if len == 0 || len % 160 != 0 {
        return Err(EvmStatus::InvalidInputSize);
    }
    let k = len / 160;
    let mut acc = g1_identity();
    proof {
        assert(acc@ == spec_g1_msm_sum(inputs@, 0)->Ok_0);
    }
    for i in 0..k
        invariant
            len == inputs@.len() && len == k * 160,
            k >= 1,
            valid_g1(acc@),
            spec_g1_msm_sum(inputs@, i as int) == Ok::<Seq<u8>, EvmStatus>(acc@),
    {
        proof {
            assert(i * 160 + 160 <= k * 160) by (nonlinear_arith)
                requires
                    i < k,
            ;
        }
        let off = i * 160;
        let p = match read_evm_g1_checked(inputs, off) {
            Ok(p) => p,
            Err(e) => {
                proof {
                    lemma_g1_msm_err(inputs@, i as int + 1, k as int);
                }
                return Err(e);
            },
        };
        let mut sc = [0u8; 32];
        for j in 0..32usize
            invariant
                len == inputs@.len(),
                off + 160 <= len,
                forall|t: int| 0 <= t < j ==> sc@[t] == inputs@[off + 128 + t],
        {
            sc[j] = inputs[off + 128 + j];
        }
        proof {
            assert(sc@ =~= inputs@.subrange(off + 128, off as int + 160));
        }
        let term = g1_mul(&p, &fr_reduce(&sc));
        acc = g1_add(&acc, &term);
    }
    Ok(evm_g1_out(&acc))
}

/// A failed item fails every longer multi-scalar prefix.
proof fn lemma_g1_msm_err(s: Seq<u8>, i: int, n: int)
    requires
        0 < i <= n,
        spec_g1_msm_sum(s, i) is Err,
    ensures
        spec_g1_msm_sum(s, n) == spec_g1_msm_sum(s, i),
    decreases n - i,
{
    if i < n {
        lemma_g1_msm_err(s, i + 1, n);
    }
}


/// The 192 coordinate bytes of a point slot of the second group, in the
/// engine's layout (the wire layout carries each coordinate's real half
/// before its imaginary half; the engine expects the opposite).
pub open spec fn evm_g2_coords(s: Seq<u8>, off: int) -> Seq<u8> {
    s.subrange(off + 80, off + 128) + s.subrange(off + 16, off + 64) + s.subrange(
        off + 208,
        off + 256,
    ) + s.subrange(off + 144, off + 192)
}

/// Decoding a 256-byte point slot of the second group.
pub open spec fn spec_read_evm_g2(s: Seq<u8>, off: int) -> Result<Seq<u8>, EvmStatus> {
    if be_nat(s.subrange(off, off + 64)) >= bls_p() || be_nat(s.subrange(off + 64, off + 128))
        >= bls_p() || be_nat(s.subrange(off + 128, off + 192)) >= bls_p() || be_nat(
        s.subrange(off + 192, off + 256),
    ) >= bls_p() {
        Err(EvmStatus::IntLargerThanModulus)
    } else if be_nat(s.subrange(off + 16, off + 64)) == 0 && be_nat(
        s.subrange(off + 80, off + 128),
    ) == 0 && be_nat(s.subrange(off + 144, off + 192)) == 0 && be_nat(
        s.subrange(off + 208, off + 256),
    ) == 0 {
        Ok(g2_identity_bytes())
    } else if !spec_g2u_on_curve(evm_g2_coords(s, off)) {
        Err(EvmStatus::PointNotOnCurve)
    } else {
        Ok(spec_g2u_compress(evm_g2_coords(s, off)))
    }
}

fn read_evm_g2(inputs: &[u8], off: usize) -> (r: Result<[u8; 96], EvmStatus>)
    requires
        off + 256 <= inputs@.len(),
    ensures
        match r {
            Ok(c) => spec_read_evm_g2(inputs@, off as int) == Ok::<Seq<u8>, EvmStatus>(c@)
                && valid_g2(c@),
            Err(e) => spec_read_evm_g2(inputs@, off as int) == Err::<Seq<u8>, EvmStatus>(e),
        },
{
    let n = inputs.len();
    proof {
        assert(off + 256 <= n);
    }
    let xc0 = match read_fp_slot(inputs, off) {
        Some(v) => v,
        None => {
            return Err(EvmStatus::IntLargerThanModulus);
        },
    };
    let xc1 = match read_fp_slot(inputs, off + 64) {
        Some(v) => v,
        None => {
            return Err(EvmStatus::IntLargerThanModulus);
        },
    };
    let yc0 = match read_fp_slot(inputs, off + 128) {
        Some(v) => v,
        None => {
            return Err(EvmStatus::IntLargerThanModulus);
        },
    };
    let yc1 = match read_fp_slot(inputs, off + 192) {
        Some(v) => v,
        None => {
            return Err(EvmStatus::IntLargerThanModulus);
        },
    };
    if be_is_zero(xc0.as_slice()) && be_is_zero(xc1.as_slice()) && be_is_zero(yc0.as_slice())
        && be_is_zero(yc1.as_slice()) {
        return Ok(g2_identity());
    }
    let mut u = [0u8; 192];
    for i in 0..48usize
        invariant
            forall|j: int| 0 <= j < i ==> u@[j] == xc1@[j],
            forall|j: int| 48 <= j < 48 + i ==> #[trigger] u@[j] == xc0@[j - 48],
            forall|j: int| 96 <= j < 96 + i ==> #[trigger] u@[j] == yc1@[j - 96],
            forall|j: int| 144 <= j < 144 + i ==> #[trigger] u@[j] == yc0@[j - 144],
    {
        u[i] = xc1[i];
        u[48 + i] = xc0[i];
        u[96 + i] = yc1[i];
        u[144 + i] = yc0[i];
    }
    proof {
        assert(u@.subrange(0, 48) =~= xc1@);
        assert(u@.subrange(48, 96) =~= xc0@);
        assert(u@.subrange(96, 144) =~= yc1@);
        assert(u@.subrange(144, 192) =~= yc0@);
        assert(u@ =~= evm_g2_coords(inputs@, off as int));
    }
    match g2_uncompressed_decode(&u) {
        Some(c) => Ok(c),
        None => Err(EvmStatus::PointNotOnCurve),
    }
}

/// Decoding with the subgroup requirement.
pub open spec fn spec_read_evm_g2_checked(s: Seq<u8>, off: int) -> Result<Seq<u8>, EvmStatus> {
    match spec_read_evm_g2(s, off) {
        Err(e) => Err(e),
        Ok(c) => if is_g2_infinity(c) || spec_g2_in_subgroup(c) {
            Ok(c)
        } else {
            Err(EvmStatus::PointNotInSubgroup)
        },
    }
}

fn read_evm_g2_checked(inputs: &[u8], off: usize) -> (r: Result<[u8; 96], EvmStatus>)
    requires
        off + 256 <= inputs@.len(),
    ensures
        match r {
            Ok(c) => spec_read_evm_g2_checked(inputs@, off as int) == Ok::<Seq<u8>, EvmStatus>(c@)
                && valid_g2(c@),
            Err(e) => spec_read_evm_g2_checked(inputs@, off as int) == Err::<Seq<u8>, EvmStatus>(
                e,
            ),
        },
{
    let c = read_evm_g2(inputs, off)?;
    if is_inf96(&c) {
        return Ok(c);
    }
    if g2_check_subgroup(&c) {
        Ok(c)
    } else {
        Err(EvmStatus::PointNotInSubgroup)
    }
}

/// The 256-byte answer encoding of a point of the second group.
pub open spec fn spec_evm_g2_out(c: Seq<u8>) -> Seq<u8> {
    if is_g2_infinity(c) {
        Seq::new(256, |i: int| 0u8)
    } else {
        let u = spec_g2_uncompress(c);
        Seq::new(
            256,
            |i: int|
                if i < 16 {
                    0u8
                } else if i < 64 {
                    u[i - 16 + 48]
                } else if i < 80 {
                    0u8
                } else if i < 128 {
                    u[i - 80]
                } else if i < 144 {
                    0u8
                } else if i < 192 {
                    u[i - 144 + 144]
                } else if i < 208 {
                    0u8
                } else {
                    u[i - 208 + 96]
                },
        )
    }
}

fn evm_g2_out(c: &[u8; 96]) -> (r: [u8; 256])
    requires
        valid_g2(c@),
    ensures
        r@ == spec_evm_g2_out(c@),
{
    let mut r = [0u8; 256];
    if is_inf96(c) {
        proof {
            assert(r@ =~= spec_evm_g2_out(c@));
        }
        return r;
    }
    let u = g2_uncompress(c);
    for i in 0..48usize
        invariant
            u@ == spec_g2_uncompress(c@),
            !is_g2_infinity(c@),
            forall|j: int| 16 <= j < 16 + i ==> #[trigger] r@[j] == u@[j - 16 + 48],
            forall|j: int| 80 <= j < 80 + i ==> #[trigger] r@[j] == u@[j - 80],
            forall|j: int| 144 <= j < 144 + i ==> #[trigger] r@[j] == u@[j - 144 + 144],
            forall|j: int| 208 <= j < 208 + i ==> #[trigger] r@[j] == u@[j - 208 + 96],
            forall|j: int| 0 <= j < 16 ==> r@[j] == 0u8,
            forall|j: int| 64 <= j < 80 ==> r@[j] == 0u8,
            forall|j: int| 128 <= j < 144 ==> r@[j] == 0u8,
            forall|j: int| 192 <= j < 208 ==> r@[j] == 0u8,
    {
        r[16 + i] = u[48 + i];
        r[80 + i] = u[i];
        r[144 + i] = u[144 + i];
        r[208 + i] = u[96 + i];
    }
    proof {
        assert(r@ =~= spec_evm_g2_out(c@));
    }
    r
}

/// What point addition in the second group returns.
pub open spec fn spec_evm_bls12381_g2add(s: Seq<u8>) -> Result<Seq<u8>, EvmStatus> {
    if s.len() != 512 {
        Err(EvmStatus::InvalidInputSize)
    } else {
        match spec_read_evm_g2(s, 0) {
            Err(e) => Err(e),
            Ok(a) => match spec_read_evm_g2(s, 256) {
                Err(e) => Err(e),
                Ok(b) => Ok(spec_evm_g2_out(spec_g2_add(a, b))),
            },
        }
    }
}

/// Point addition in the second group.
pub fn evm_bls12381_g2add(inputs: &[u8]) -> (r: Result<[u8; 256], EvmStatus>)
    ensures
        match r {
            Ok(out) => spec_evm_bls12381_g2add(inputs@) == Ok::<Seq<u8>, EvmStatus>(out@),
            Err(e) => spec_evm_bls12381_g2add(inputs@) == Err::<Seq<u8>, EvmStatus>(e),
        },
{
    if inputs.len() != 512 {
        return Err(EvmStatus::InvalidInputSize);
    }
    let a = read_evm_g2(inputs, 0)?;
    let b = read_evm_g2(inputs, 256)?;
    let c = g2_add(&a, &b);
    Ok(evm_g2_out(&c))
}

/// What scalar multiplication in the second group returns, with the same
/// subgroup requirement and scalar reduction as in the first group.
pub open spec fn spec_evm_bls12381_g2mul(s: Seq<u8>) -> Result<Seq<u8>, EvmStatus> {
    if s.len() != 288 {
        Err(EvmStatus::InvalidInputSize)
    } else {
        match spec_read_evm_g2_checked(s, 0) {
            Err(e) => Err(e),
            Ok(p) => Ok(
                spec_evm_g2_out(spec_g2_mul(p, fr_reduce_bytes(s.subrange(256, 288)))),
            ),
        }
    }
}

/// Scalar multiplication in the second group.
pub fn evm_bls12381_g2mul(inputs: &[u8]) -> (r: Result<[u8; 256], EvmStatus>)
    ensures
        match r {
            Ok(out) => spec_evm_bls12381_g2mul(inputs@) == Ok::<Seq<u8>, EvmStatus>(out@),
            Err(e) => spec_evm_bls12381_g2mul(inputs@) == Err::<Seq<u8>, EvmStatus>(e),
        },
{
    if inputs.len() != 288 {
        return Err(EvmStatus::InvalidInputSize);
    }
    let p = read_evm_g2_checked(inputs, 0)?;
    let mut sc = [0u8; 32];
    for i in 0..32usize
        invariant
            inputs@.len() == 288,
            forall|j: int| 0 <= j < i ==> sc@[j] == inputs@[256 + j],
    {
        sc[i] = inputs[256 + i];
    }
    proof {
        assert(sc@ =~= inputs@.subrange(256, 288));
    }
    let k = fr_reduce(&sc);
    let c = g2_mul(&p, &k);
    Ok(evm_g2_out(&c))
}

/// The multi-scalar sum of the first `n` items of a second-group
/// multi-scalar call.
pub open spec fn spec_g2_msm_sum(s: Seq<u8>, n: int) -> Result<Seq<u8>, EvmStatus>
    decreases n,
{
    if n <= 0 {
        Ok(g2_identity_bytes())
    } else {
        match spec_g2_msm_sum(s, n - 1) {
            Err(e) => Err(e),
            Ok(acc) => match spec_read_evm_g2_checked(s, 288 * (n - 1)) {
                Err(e) => Err(e),
                Ok(p) => Ok(
                    spec_g2_add(
                        acc,
                        spec_g2_mul(
                            p,
                            fr_reduce_bytes(s.subrange(288 * (n - 1) + 256, 288 * n)),
                        ),
                    ),
                ),
            },
        }
    }
}

/// What multi-scalar multiplication in the second group returns.
pub open spec fn spec_evm_bls12381_g2msm(s: Seq<u8>) -> Result<Seq<u8>, EvmStatus> {
    if s.len() == 0 || s.len() % 288 != 0 {
        Err(EvmStatus::InvalidInputSize)
    } else {
        match spec_g2_msm_sum(s, (s.len() / 288) as int) {
            Err(e) => Err(e),
            Ok(c) => Ok(spec_evm_g2_out(c)),
        }
    }
}

proof fn lemma_g2_msm_err(s: Seq<u8>, i: int, n: int)
    requires
        0 < i <= n,
        spec_g2_msm_sum(s, i) is Err,
    ensures
        spec_g2_msm_sum(s, n) == spec_g2_msm_sum(s, i),
    decreases n - i,
{
    if i < n {
        lemma_g2_msm_err(s, i + 1, n);
    }
}

/// Multi-scalar multiplication in the second group.
pub fn evm_bls12381_g2msm(inputs: &[u8]) -> (r: Result<[u8; 256], EvmStatus>)
    ensures
        match r {
            Ok(out) => spec_evm_bls12381_g2msm(inputs@) == Ok::<Seq<u8>, EvmStatus>(out@),
            Err(e) => spec_evm_bls12381_g2msm(inputs@) == Err::<Seq<u8>, EvmStatus>(e),
        },
{
    let len = inputs.len();
    if len == 0 || len % 288 != 0 {
        return Err(EvmStatus::InvalidInputSize);
    }
    let k = len / 288;
    let mut acc = g2_identity();
    proof {
        assert(acc@ == spec_g2_msm_sum(inputs@, 0)->Ok_0);
    }
    for i in 0..k
        invariant
            len == inputs@.len() && len == k * 288,
            k >= 1,
            valid_g2(acc@),
            spec_g2_msm_sum(inputs@, i as int) == Ok::<Seq<u8>, EvmStatus>(acc@),
    {
        proof {
            assert(i * 288 + 288 <= k * 288) by (nonlinear_arith)
                requires
                    i < k,
            ;
        }
        let off = i * 288;
        let p = match read_evm_g2_checked(inputs, off) {
            Ok(p) => p,
            Err(e) => {
                proof {
                    lemma_g2_msm_err(inputs@, i as int + 1, k as int);
                }
                return Err(e);
            },
        };
        let mut sc = [0u8; 32];
        for j in 0..32usize
            invariant
                len == inputs@.len(),
                off + 288 <= len,
                forall|t: int| 0 <= t < j ==> sc@[t] == inputs@[off + 256 + t],
        {
            sc[j] = inputs[off + 256 + j];
        }
        proof {
            assert(sc@ =~= inputs@.subrange(off + 256, off as int + 288));
        }
        let term = g2_mul(&p, &fr_reduce(&sc));
        acc = g2_add(&acc, &term);
    }
    Ok(evm_g2_out(&acc))
}

/// Validation of the pairs of a pairing call, in order: each pair is a
/// subgroup-checked point of each group.
pub open spec fn spec_pairing_validate(s: Seq<u8>, n: int) -> Result<(), EvmStatus>
    decreases n,
{
    if n <= 0 {
        Ok(())
    } else {
        match spec_pairing_validate(s, n - 1) {
            Err(e) => Err(e),
            Ok(_) => match spec_read_evm_g1_checked(s, 384 * (n - 1)) {
                Err(e) => Err(e),
                Ok(_) => match spec_read_evm_g2_checked(s, 384 * (n - 1) + 128) {
                    Err(e) => Err(e),
                    Ok(_) => Ok(()),
                },
            },
        }
    }
}

proof fn lemma_pairing_validate_err(s: Seq<u8>, i: int, n: int)
    requires
        0 < i <= n,
        spec_pairing_validate(s, i) is Err,
    ensures
        spec_pairing_validate(s, n) == spec_pairing_validate(s, i),
    decreases n - i,
{
    if i < n {
        lemma_pairing_validate_err(s, i + 1, n);
    }
}

/// What the pairing-check precompile returns: 32 bytes whose last is one
/// exactly when the product of the pairings of the validated pairs is
/// the identity.
pub open spec fn spec_evm_bls12381_pairing_check(s: Seq<u8>) -> Result<Seq<u8>, EvmStatus> {
    if s.len() == 0 || s.len() % 384 != 0 {
        Err(EvmStatus::InvalidInputSize)
    } else {
        let k = s.len() / 384;
        match spec_pairing_validate(s, k as int) {
            Err(e) => Err(e),
            Ok(_) => {
                let holds = spec_multi_pairing_one(
                    Seq::new(k, |i: int| spec_read_evm_g1_checked(s, 384 * i)->Ok_0),
                    Seq::new(k, |i: int| spec_read_evm_g2_checked(s, 384 * i + 128)->Ok_0),
                );
                Ok(Seq::new(32, |i: int| if i == 31 && holds { 1u8 } else { 0u8 }))
            },
        }
    }
}

/// The pairing-check precompile.
pub fn evm_bls12381_pairing_check(inputs: &[u8]) -> (r: Result<[u8; 32], EvmStatus>)
    ensures
        match r {
            Ok(out) => spec_evm_bls12381_pairing_check(inputs@) == Ok::<Seq<u8>, EvmStatus>(out@),
            Err(e) => spec_evm_bls12381_pairing_check(inputs@) == Err::<Seq<u8>, EvmStatus>(e),
        },
{
    let len = inputs.len();
    if len == 0 || len % 384 != 0 {
        return Err(EvmStatus::InvalidInputSize);
    }
    let k = len / 384;
    let ghost g1spec = Seq::new(
        (k as nat),
        |i: int| spec_read_evm_g1_checked(inputs@, 384 * i)->Ok_0,
    );
    let ghost g2spec = Seq::new(
        (k as nat),
        |i: int| spec_read_evm_g2_checked(inputs@, 384 * i + 128)->Ok_0,
    );
    let mut g1s: Vec<[u8; 48]> = Vec::new();
    let mut g2s: Vec<[u8; 96]> = Vec::new();
    for i in 0..k
        invariant
            len == inputs@.len() && len == k * 384,
            k >= 1,
            g1spec == Seq::new(
                (k as nat),
                |t: int| spec_read_evm_g1_checked(inputs@, 384 * t)->Ok_0,
            ),
            g2spec == Seq::new(
                (k as nat),
                |t: int| spec_read_evm_g2_checked(inputs@, 384 * t + 128)->Ok_0,
            ),
            g1s@.len() == i && g2s@.len() == i,
            spec_pairing_validate(inputs@, i as int) is Ok,
            forall|j: int| 0 <= j < i ==> #[trigger] g1s@[j]@ == g1spec[j] && valid_g1(g1s@[j]@),
            forall|j: int| 0 <= j < i ==> #[trigger] g2s@[j]@ == g2spec[j] && valid_g2(g2s@[j]@),
    {
        proof {
            assert(i * 384 + 384 <= k * 384) by (nonlinear_arith)
                requires
                    i < k,
            ;
        }
        let off = i * 384;
        let a = match read_evm_g1_checked(inputs, off) {
            Ok(a) => a,
            Err(e) => {
                proof {
                    lemma_pairing_validate_err(inputs@, i as int + 1, k as int);
                }
                return Err(e);
            },
        };
        let b = match read_evm_g2_checked(inputs, off + 128) {
            Ok(b) => b,
            Err(e) => {
                proof {
                    lemma_pairing_validate_err(inputs@, i as int + 1, k as int);
                }
                return Err(e);
            },
        };
        g1s.push(a);
        g2s.push(b);
    }
    let holds = {
        proof {
            crate::bls::lemma_deep_g1(g1s);
            crate::bls::lemma_deep_g2(g2s);
            assert(g1s.deep_view() =~= g1spec);
            assert(g2s.deep_view() =~= g2spec);
        }
        multi_pairing_is_one(&g1s, &g2s)
    };
    let mut out = [0u8; 32];
    if holds {
        out[31] = 1u8;
    }
    proof {
        assert(out@ =~= spec_evm_bls12381_pairing_check(inputs@)->Ok_0);
    }
    Ok(out)
}

/// What the map-to-first-group precompile returns: the simplified map of
/// one canonical field element, cofactor cleared.
pub open spec fn spec_evm_bls12381_map_fp_to_g1(s: Seq<u8>) -> Result<Seq<u8>, EvmStatus> {
    if s.len() != 64 {
        Err(EvmStatus::InvalidInputSize)
    } else if be_nat(s.subrange(0, 64)) >= bls_p() {
        Err(EvmStatus::IntLargerThanModulus)
    } else {
        Ok(spec_evm_g1_out(spec_map_fp_to_g1(s.subrange(16, 64))))
    }
}

/// The map-to-first-group precompile.
pub fn evm_bls12381_map_fp_to_g1(inputs: &[u8]) -> (r: Result<[u8; 128], EvmStatus>)
    ensures
        match r {
            Ok(out) => spec_evm_bls12381_map_fp_to_g1(inputs@) == Ok::<Seq<u8>, EvmStatus>(out@),
            Err(e) => spec_evm_bls12381_map_fp_to_g1(inputs@) == Err::<Seq<u8>, EvmStatus>(e),
        },
{
    if inputs.len() != 64 {
        return Err(EvmStatus::InvalidInputSize);
    }
    let fp = match read_fp_slot(inputs, 0) {
        Some(v) => v,
        None => {
            return Err(EvmStatus::IntLargerThanModulus);
        },
    };
    let c = map_fp_to_g1(&fp);
    Ok(evm_g1_out(&c))
}

/// What the map-to-second-group precompile returns: the simplified map of
/// one canonical extension-field element (real half, then imaginary
/// half), cofactor cleared.
pub open spec fn spec_evm_bls12381_map_fp2_to_g2(s: Seq<u8>) -> Result<Seq<u8>, EvmStatus> {
    if s.len() != 128 {
        Err(EvmStatus::InvalidInputSize)
    } else if be_nat(s.subrange(0, 64)) >= bls_p() || be_nat(s.subrange(64, 128)) >= bls_p() {
        Err(EvmStatus::IntLargerThanModulus)
    } else {
        Ok(
            spec_evm_g2_out(
                spec_map_fp2_to_g2(s.subrange(16, 64) + s.subrange(80, 128)),
            ),
        )
    }
}

/// The map-to-second-group precompile.
pub fn evm_bls12381_map_fp2_to_g2(inputs: &[u8]) -> (r: Result<[u8; 256], EvmStatus>)
    ensures
        match r {
            Ok(out) => spec_evm_bls12381_map_fp2_to_g2(inputs@) == Ok::<Seq<u8>, EvmStatus>(out@),
            Err(e) => spec_evm_bls12381_map_fp2_to_g2(inputs@) == Err::<Seq<u8>, EvmStatus>(e),
        },
{
    if inputs.len() != 128 {
        return Err(EvmStatus::InvalidInputSize);
    }
    let c0 = match read_fp_slot(inputs, 0) {
        Some(v) => v,
        None => {
            return Err(EvmStatus::IntLargerThanModulus);
        },
    };
    let c1 = match read_fp_slot(inputs, 64) {
        Some(v) => v,
        None => {
            return Err(EvmStatus::IntLargerThanModulus);
        },
    };
    let mut u = [0u8; 96];
    for i in 0..48usize
        invariant
            forall|j: int| 0 <= j < i ==> u@[j] == c0@[j],
            forall|j: int| 48 <= j < 48 + i ==> #[trigger] u@[j] == c1@[j - 48],
    {
        u[i] = c0[i];
        u[48 + i] = c1[i];
    }
    proof {
        assert(u@.subrange(0, 48) =~= c0@);
        assert(u@.subrange(48, 96) =~= c1@);
        assert(u@ =~= inputs@.subrange(16, 64) + inputs@.subrange(80, 128));
    }
    let c = map_fp2_to_g2(&u);
    Ok(evm_g2_out(&c))
}


// ---------------------------------------------------------------------
// Curve precompiles over the proving curve.  These calls take their
// input implicitly zero-padded (point addition and scalar
// multiplication) or in exact 192-byte pairs (the pairing check); field
// elements are unpadded 32-byte big-endian words, points two such words,
// second-group points four with each coordinate's imaginary half first;
// the identity is the all-zero point.
// ---------------------------------------------------------------------

/// One padded 32-byte word of a proving-curve call.
pub open spec fn bn_word(s: Seq<u8>, off: int) -> Seq<u8> {
    modexp_field(s, off, 32)
}

/// The identity's engine encoding: zero bytes with the infinity bit set
/// in the last one.
pub open spec fn bn_identity_handle() -> Seq<u8> {
    Seq::new(32, |i: int| if i == 31 { 0x80u8 } else { 0u8 })
}

pub open spec fn bn_g2_identity_handle() -> Seq<u8> {
    Seq::new(64, |i: int| if i == 63 { 0x80u8 } else { 0u8 })
}

/// Decoding a padded point slot of the proving curve's first group.
pub open spec fn spec_read_bn_g1(s: Seq<u8>, off: int) -> Result<Seq<u8>, EvmStatus> {
    if be_nat(bn_word(s, off)) >= bn_p() || be_nat(bn_word(s, off + 32)) >= bn_p() {
        Err(EvmStatus::IntLargerThanModulus)
    } else if be_nat(bn_word(s, off)) == 0 && be_nat(bn_word(s, off + 32)) == 0 {
        Ok(bn_identity_handle())
    } else if !spec_bn_g1_on_curve(rev32(bn_word(s, off)) + rev32(bn_word(s, off + 32))) {
        Err(EvmStatus::PointNotOnCurve)
    } else {
        Ok(spec_bn_g1_compress(rev32(bn_word(s, off)) + rev32(bn_word(s, off + 32))))
    }
}

/// Copies a padded 32-byte word.
fn read_bn_word(inputs: &[u8], off: usize) -> (r: [u8; 32])
    requires
        off + 32 <= usize::MAX,
    ensures
        r@ == bn_word(inputs@, off as int),
{
    let mut w = [0u8; 32];
    let n = inputs.len();
    for k in 0..32usize
        invariant
            n == inputs@.len(),
            off + 32 <= usize::MAX,
            forall|j: int| 0 <= j < k ==> w@[j] == bn_word(inputs@, off as int)[j],
    {
        if off + k < n {
            w[k] = inputs[off + k];
        } else {
            w[k] = 0u8;
        }
    }
    proof {
        assert(w@ =~= bn_word(inputs@, off as int));
    }
    w
}

fn read_bn_g1(inputs: &[u8], off: usize) -> (r: Result<[u8; 32], EvmStatus>)
    requires
        off + 64 <= usize::MAX,
    ensures
        match r {
            Ok(h) => spec_read_bn_g1(inputs@, off as int) == Ok::<Seq<u8>, EvmStatus>(h@)
                && spec_bn_g1_valid(h@),
            Err(e) => spec_read_bn_g1(inputs@, off as int) == Err::<Seq<u8>, EvmStatus>(e),
        },
{
    let x = read_bn_word(inputs, off);
    let y = read_bn_word(inputs, off + 32);
    let p = bn_p_be();
    if !be_lt(x.as_slice(), p.as_slice()) || !be_lt(y.as_slice(), p.as_slice()) {
        return Err(EvmStatus::IntLargerThanModulus);
    }
    if be_is_zero(x.as_slice()) && be_is_zero(y.as_slice()) {
        let h = bn_g1_identity();
        proof {
            assert(h@ =~= bn_identity_handle());
        }
        return Ok(h);
    }
    let mut u = [0u8; 64];
    for i in 0..32usize
        invariant
            forall|j: int| 0 <= j < i ==> u@[j] == x@[31 - j],
            forall|j: int| 32 <= j < 32 + i ==> #[trigger] u@[j] == y@[63 - j],
    {
        u[i] = x[31 - i];
        u[32 + i] = y[31 - i];
    }
    proof {
        assert(u@.subrange(0, 32) =~= rev32(x@));
        assert(u@.subrange(32, 64) =~= rev32(y@));
        assert(u@ =~= rev32(bn_word(inputs@, off as int)) + rev32(bn_word(inputs@, off + 32)));
        assert(rev32(u@.subrange(0, 32)) =~= x@);
        assert(rev32(u@.subrange(32, 64)) =~= y@);
    }
    match bn_g1_decode(&u) {
        Some(h) => Ok(h),
        None => Err(EvmStatus::PointNotOnCurve),
    }
}

/// The 64-byte answer encoding of a proving-curve point: its affine
/// coordinates, zero words for the identity.
pub open spec fn spec_bn_g1_out(h: Seq<u8>) -> Seq<u8> {
    spec_bn_g1_coords(h)
}

/// What proving-curve point addition returns: the sum of the two points
/// of the zero-padded input.
pub open spec fn spec_evm_bn254_g1add(s: Seq<u8>) -> Result<Seq<u8>, EvmStatus> {
    match spec_read_bn_g1(s, 0) {
        Err(e) => Err(e),
        Ok(a) => match spec_read_bn_g1(s, 64) {
            Err(e) => Err(e),
            Ok(b) => Ok(spec_bn_g1_out(spec_bn_g1_add(a, b))),
        },
    }
}

/// Proving-curve point addition.
pub fn evm_bn254_g1add(inputs: &[u8]) -> (r: Result<[u8; 64], EvmStatus>)
    ensures
        match r {
            Ok(out) => spec_evm_bn254_g1add(inputs@) == Ok::<Seq<u8>, EvmStatus>(out@),
            Err(e) => spec_evm_bn254_g1add(inputs@) == Err::<Seq<u8>, EvmStatus>(e),
        },
{
    let a = read_bn_g1(inputs, 0)?;
    let b = read_bn_g1(inputs, 64)?;
    let c = bn_g1_add(&a, &b);
    Ok(bn_g1_coords(&c))
}

/// What proving-curve scalar multiplication returns: the point of the
/// zero-padded input times the scalar word's residue (the group has a
/// prime order and cofactor one, so every curve point qualifies).
pub open spec fn spec_evm_bn254_g1mul(s: Seq<u8>) -> Result<Seq<u8>, EvmStatus> {
    match spec_read_bn_g1(s, 0) {
        Err(e) => Err(e),
        Ok(p) => Ok(spec_bn_g1_out(spec_bn_g1_mul(p, bn_word(s, 64)))),
    }
}

/// Proving-curve scalar multiplication.
pub fn evm_bn254_g1mul(inputs: &[u8]) -> (r: Result<[u8; 64], EvmStatus>)
    ensures
        match r {
            Ok(out) => spec_evm_bn254_g1mul(inputs@) == Ok::<Seq<u8>, EvmStatus>(out@),
            Err(e) => spec_evm_bn254_g1mul(inputs@) == Err::<Seq<u8>, EvmStatus>(e),
        },
{
    let p = read_bn_g1(inputs, 0)?;
    let k = read_bn_word(inputs, 64);
    let c = bn_g1_mul(&p, &k);
    Ok(bn_g1_coords(&c))
}

/// Decoding a 192-byte pair slot's second-group point, with its subgroup
/// requirement.
pub open spec fn spec_read_bn_g2(s: Seq<u8>, off: int) -> Result<Seq<u8>, EvmStatus> {
    if be_nat(bn_word(s, off)) >= bn_p() || be_nat(bn_word(s, off + 32)) >= bn_p() || be_nat(
        bn_word(s, off + 64),
    ) >= bn_p() || be_nat(bn_word(s, off + 96)) >= bn_p() {
        Err(EvmStatus::IntLargerThanModulus)
    } else if be_nat(bn_word(s, off)) == 0 && be_nat(bn_word(s, off + 32)) == 0 && be_nat(
        bn_word(s, off + 64),
    ) == 0 && be_nat(bn_word(s, off + 96)) == 0 {
        Ok(bn_g2_identity_handle())
    } else if !spec_bn_g2_on_curve(
        rev32(bn_word(s, off + 32)) + rev32(bn_word(s, off)) + rev32(bn_word(s, off + 96)) + rev32(
            bn_word(s, off + 64),
        ),
    ) {
        Err(EvmStatus::PointNotOnCurve)
    } else {
        let h = spec_bn_g2_compress(
            rev32(bn_word(s, off + 32)) + rev32(bn_word(s, off)) + rev32(bn_word(s, off + 96))
                + rev32(bn_word(s, off + 64)),
        );
        if spec_bn_g2_in_subgroup(h) {
            Ok(h)
        } else {
            Err(EvmStatus::PointNotInSubgroup)
        }
    }
}

fn read_bn_g2(inputs: &[u8], off: usize) -> (r: Result<[u8; 64], EvmStatus>)
    requires
        off + 128 <= usize::MAX,
    ensures
        match r {
            Ok(h) => spec_read_bn_g2(inputs@, off as int) == Ok::<Seq<u8>, EvmStatus>(h@)
                && spec_bn_g2_valid(h@),
            Err(e) => spec_read_bn_g2(inputs@, off as int) == Err::<Seq<u8>, EvmStatus>(e),
        },
{
    let w0 = read_bn_word(inputs, off);
    let w1 = read_bn_word(inputs, off + 32);
    let w2 = read_bn_word(inputs, off + 64);
    let w3 = read_bn_word(inputs, off + 96);
    let p = bn_p_be();
    if !be_lt(w0.as_slice(), p.as_slice()) || !be_lt(w1.as_slice(), p.as_slice()) || !be_lt(
        w2.as_slice(),
        p.as_slice(),
    ) || !be_lt(w3.as_slice(), p.as_slice()) {
        return Err(EvmStatus::IntLargerThanModulus);
    }
    if be_is_zero(w0.as_slice()) && be_is_zero(w1.as_slice()) && be_is_zero(w2.as_slice())
        && be_is_zero(w3.as_slice()) {
        let h = bn_g2_identity();
        proof {
            assert(h@ =~= bn_g2_identity_handle());
        }
        return Ok(h);
    }
    let mut u = [0u8; 128];
    for i in 0..32usize
        invariant
            forall|j: int| 0 <= j < i ==> u@[j] == w1@[31 - j],
            forall|j: int| 32 <= j < 32 + i ==> #[trigger] u@[j] == w0@[63 - j],
            forall|j: int| 64 <= j < 64 + i ==> #[trigger] u@[j] == w3@[95 - j],
            forall|j: int| 96 <= j < 96 + i ==> #[trigger] u@[j] == w2@[127 - j],
    {
        u[i] = w1[31 - i];
        u[32 + i] = w0[31 - i];
        u[64 + i] = w3[31 - i];
        u[96 + i] = w2[31 - i];
    }
    proof {
        assert(u@.subrange(0, 32) =~= rev32(w1@));
        assert(u@.subrange(32, 64) =~= rev32(w0@));
        assert(u@.subrange(64, 96) =~= rev32(w3@));
        assert(u@.subrange(96, 128) =~= rev32(w2@));
        assert(u@ =~= rev32(bn_word(inputs@, off + 32)) + rev32(bn_word(inputs@, off as int))
            + rev32(bn_word(inputs@, off + 96)) + rev32(bn_word(inputs@, off + 64)));
        assert(rev32(u@.subrange(0, 32)) =~= w1@);
        assert(rev32(u@.subrange(32, 64)) =~= w0@);
        assert(rev32(u@.subrange(64, 96)) =~= w3@);
        assert(rev32(u@.subrange(96, 128)) =~= w2@);
    }
    let h = match bn_g2_decode(&u) {
        Some(h) => h,
        None => {
            return Err(EvmStatus::PointNotOnCurve);
        },
    };
    if bn_g2_subgroup_check(&h) {
        Ok(h)
    } else {
        Err(EvmStatus::PointNotInSubgroup)
    }
}

/// Validation of the pairs of a proving-curve pairing call, in order.
pub open spec fn spec_bn_pairing_validate(s: Seq<u8>, n: int) -> Result<(), EvmStatus>
    decreases n,
{
    if n <= 0 {
        Ok(())
    } else {
        match spec_bn_pairing_validate(s, n - 1) {
            Err(e) => Err(e),
            Ok(_) => match spec_read_bn_g1(s, 192 * (n - 1)) {
                Err(e) => Err(e),
                Ok(_) => match spec_read_bn_g2(s, 192 * (n - 1) + 64) {
                    Err(e) => Err(e),
                    Ok(_) => Ok(()),
                },
            },
        }
    }
}

proof fn lemma_bn_pairing_validate_err(s: Seq<u8>, i: int, n: int)
    requires
        0 < i <= n,
        spec_bn_pairing_validate(s, i) is Err,
    ensures
        spec_bn_pairing_validate(s, n) == spec_bn_pairing_validate(s, i),
    decreases n - i,
{
    if i < n {
        lemma_bn_pairing_validate_err(s, i + 1, n);
    }
}

/// What the proving-curve pairing-check precompile returns: 32 bytes
/// whose last is one exactly when the product of the pairings of the
/// validated pairs is the identity; the empty input holds vacuously.
pub open spec fn spec_evm_bn254_ec_pairing_check(s: Seq<u8>) -> Result<Seq<u8>, EvmStatus> {
    if s.len() % 192 != 0 {
        Err(EvmStatus::InvalidInputSize)
    } else {
        let k = s.len() / 192;
        match spec_bn_pairing_validate(s, k as int) {
            Err(e) => Err(e),
            Ok(_) => {
                let holds = spec_bn_pairing_one(
                    Seq::new(k, |i: int| spec_read_bn_g1(s, 192 * i)->Ok_0),
                    Seq::new(k, |i: int| spec_read_bn_g2(s, 192 * i + 64)->Ok_0),
                );
                Ok(Seq::new(32, |i: int| if i == 31 && holds { 1u8 } else { 0u8 }))
            },
        }
    }
}

/// The proving-curve pairing-check precompile.
pub fn evm_bn254_ec_pairing_check(inputs: &[u8]) -> (r: Result<[u8; 32], EvmStatus>)
    ensures
        match r {
            Ok(out) => spec_evm_bn254_ec_pairing_check(inputs@) == Ok::<Seq<u8>, EvmStatus>(out@),
            Err(e) => spec_evm_bn254_ec_pairing_check(inputs@) == Err::<Seq<u8>, EvmStatus>(e),
        },
{
    let len = inputs.len();
    if len % 192 != 0 {
        return Err(EvmStatus::InvalidInputSize);
    }
    let k = len / 192;
    let ghost g1spec = Seq::new((k as nat), |i: int| spec_read_bn_g1(inputs@, 192 * i)->Ok_0);
    let ghost g2spec = Seq::new(
        (k as nat),
        |i: int| spec_read_bn_g2(inputs@, 192 * i + 64)->Ok_0,
    );
    let mut g1s: Vec<[u8; 32]> = Vec::new();
    let mut g2s: Vec<[u8; 64]> = Vec::new();
    for i in 0..k
        invariant
            len == inputs@.len() && len == k * 192,
            g1spec == Seq::new((k as nat), |t: int| spec_read_bn_g1(inputs@, 192 * t)->Ok_0),
            g2spec == Seq::new(
                (k as nat),
                |t: int| spec_read_bn_g2(inputs@, 192 * t + 64)->Ok_0,
            ),
            g1s@.len() == i && g2s@.len() == i,
            spec_bn_pairing_validate(inputs@, i as int) is Ok,
            forall|j: int| 0 <= j < i ==> #[trigger] g1s@[j]@ == g1spec[j] && spec_bn_g1_valid(
                g1s@[j]@,
            ),
            forall|j: int| 0 <= j < i ==> #[trigger] g2s@[j]@ == g2spec[j] && spec_bn_g2_valid(
                g2s@[j]@,
            ),
    {
        proof {
            assert(i * 192 + 192 <= k * 192) by (nonlinear_arith)
                requires
                    i < k,
            ;
        }
        let off = i * 192;
        let a = match read_bn_g1(inputs, off) {
            Ok(a) => a,
            Err(e) => {
                proof {
                    lemma_bn_pairing_validate_err(inputs@, i as int + 1, k as int);
                }
                return Err(e);
            },
        };
        let b = match read_bn_g2(inputs, off + 64) {
            Ok(b) => b,
            Err(e) => {
                proof {
                    lemma_bn_pairing_validate_err(inputs@, i as int + 1, k as int);
                }
                return Err(e);
            },
        };
        g1s.push(a);
        g2s.push(b);
    }
    let holds = {
        proof {
            lemma_deep_bn32(g1s);
            lemma_deep_bn64(g2s);
            assert(g1s.deep_view() =~= g1spec);
            assert(g2s.deep_view() =~= g2spec);
        }
        bn_pairing_is_one(&g1s, &g2s)
    };
    let mut out = [0u8; 32];
    if holds {
        out[31] = 1u8;
    }
    proof {
        assert(out@ =~= spec_evm_bn254_ec_pairing_check(inputs@)->Ok_0);
    }
    Ok(out)
}

proof fn lemma_deep_bn32(v: Vec<[u8; 32]>)
    ensures
        v.deep_view().len() == v@.len(),
        forall|i: int| 0 <= i < v@.len() ==> #[trigger] v.deep_view()[i] == v@[i]@,
{
    assert forall|i: int| 0 <= i < v@.len() implies #[trigger] v.deep_view()[i] == v@[i]@ by {
        assert(v@[i].deep_view() =~= v@[i]@);
    }
}

proof fn lemma_deep_bn64(v: Vec<[u8; 64]>)
    ensures
        v.deep_view().len() == v@.len(),
        forall|i: int| 0 <= i < v@.len() ==> #[trigger] v.deep_view()[i] == v@[i]@,
{
    assert forall|i: int| 0 <= i < v@.len() implies #[trigger] v.deep_view()[i] == v@[i]@ by {
        assert(v@[i].deep_view() =~= v@[i]@);
    }
}

} // verus!
