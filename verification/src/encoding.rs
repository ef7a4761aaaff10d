//! Big-endian byte encodings of unsigned integers, and the two field-size
//! constants of BLS12-381 that the codec layer checks encodings against.

use vstd::prelude::*;
use vstd::arithmetic::power::{pow, lemma_pow0, lemma_pow1, lemma_pow_adds, lemma_pow_positive};

verus! {

/// Numeric value of a big-endian byte string.
pub open spec fn be_nat(s: Seq<u8>) -> nat
    decreases s.len(),
{
    if s.len() == 0 {
        0
    } else {
        be_nat(s.drop_last()) * 256 + s.last() as nat
    }
}

/// Big-endian encoding of `n mod 256^len` into exactly `len` bytes.
pub open spec fn nat_to_be(n: nat, len: nat) -> Seq<u8>
    decreases len,
{
    if len == 0 {
        Seq::empty()
    } else {
        nat_to_be(n / 256, (len - 1) as nat).push((n % 256) as u8)
    }
}

pub proof fn lemma_nat_to_be_len(n: nat, len: nat)
    ensures
        nat_to_be(n, len).len() == len,
    decreases len,
{
    if len > 0 {
        lemma_nat_to_be_len(n / 256, (len - 1) as nat);
    }
}

pub proof fn lemma_be_nat_bound(s: Seq<u8>)
    ensures
        be_nat(s) < pow(256, s.len()),
    decreases s.len(),
{
    if s.len() == 0 {
        lemma_pow0(256);
    } else {
        lemma_be_nat_bound(s.drop_last());
        lemma_pow_adds(256, (s.len() - 1) as nat, 1);
        lemma_pow1(256);
        assert(be_nat(s.drop_last()) * 256 + s.last() < pow(256, (s.len() - 1) as nat) * 256) by (nonlinear_arith)
            requires
                be_nat(s.drop_last()) < pow(256, (s.len() - 1) as nat),
                s.last() < 256,
        ;
        assert(pow(256, s.len()) == pow(256, (s.len() - 1) as nat) * 256);
    }
}

pub proof fn lemma_be_nat_of_nat_to_be(n: nat, len: nat)
    requires
        n < pow(256, len),
    ensures
        be_nat(nat_to_be(n, len)) == n,
    decreases len,
{
    if len == 0 {
        lemma_pow0(256);
    } else {
        lemma_nat_to_be_len(n / 256, (len - 1) as nat);
        lemma_pow_adds(256, (len - 1) as nat, 1);
        lemma_pow1(256);
        assert(n / 256 < pow(256, (len - 1) as nat)) by (nonlinear_arith)
            requires
                n < pow(256, (len - 1) as nat) * 256,
        ;
        lemma_be_nat_of_nat_to_be(n / 256, (len - 1) as nat);
        let s = nat_to_be(n, len);
        assert(s.drop_last() =~= nat_to_be(n / 256, (len - 1) as nat));
        assert(s.last() == (n % 256) as u8);
        assert((n / 256) * 256 + n % 256 == n) by (nonlinear_arith);
    }
}

pub proof fn lemma_nat_to_be_of_be_nat(s: Seq<u8>)
    ensures
        nat_to_be(be_nat(s), s.len()) == s,
    decreases s.len(),
{
    if s.len() == 0 {
        assert(nat_to_be(be_nat(s), 0) =~= s);
    } else {
        lemma_nat_to_be_of_be_nat(s.drop_last());
        let n = be_nat(s);
        assert(n == be_nat(s.drop_last()) * 256 + s.last());
        assert(n / 256 == be_nat(s.drop_last()) && n % 256 == s.last()) by (nonlinear_arith)
            requires
                n == be_nat(s.drop_last()) * 256 + s.last(),
                s.last() < 256,
        ;
        assert(nat_to_be(n, s.len()) =~= s);
    }
}

/// Splitting a big-endian string at position `k` splits its value.
pub proof fn lemma_be_nat_split(s: Seq<u8>, k: int)
    requires
        0 <= k <= s.len(),
    ensures
        be_nat(s) == be_nat(s.take(k)) * pow(256, (s.len() - k) as nat) + be_nat(s.skip(k)),
        be_nat(s.skip(k)) < pow(256, (s.len() - k) as nat),
    decreases s.len(),
{
    lemma_be_nat_bound(s.skip(k));
    if k == s.len() {
        assert(s.take(k) =~= s);
        assert(s.skip(k) =~= Seq::<u8>::empty());
        lemma_pow0(256);
        assert(be_nat(Seq::<u8>::empty()) == 0);
        assert(be_nat(s.take(k)) * 1 == be_nat(s.take(k)));
    } else {
        let d = s.drop_last();
        lemma_be_nat_split(d, k);
        assert(d.take(k) =~= s.take(k));
        assert(s.skip(k).drop_last() =~= d.skip(k));
        assert(s.skip(k).last() == s.last());
        assert(be_nat(s.skip(k)) == be_nat(d.skip(k)) * 256 + s.last());
        lemma_pow_adds(256, (s.len() - 1 - k) as nat, 1);
        lemma_pow1(256);
        let p1 = pow(256, (s.len() - 1 - k) as nat);
        assert(be_nat(s) == (be_nat(s.take(k)) * p1 + be_nat(d.skip(k))) * 256 + s.last());
        assert((be_nat(s.take(k)) * p1 + be_nat(d.skip(k))) * 256 + s.last()
            == be_nat(s.take(k)) * (p1 * 256) + (be_nat(d.skip(k)) * 256 + s.last())) by (nonlinear_arith);
        assert(pow(256, (s.len() - k) as nat) == p1 * 256);
        assert(be_nat(s) == be_nat(s.take(k)) * (p1 * 256) + be_nat(s.skip(k)));
    }
}

/// If two equal-length strings share a prefix and differ next in favour of
/// `t`, then `s` encodes the smaller value.
pub proof fn lemma_be_nat_lt(s: Seq<u8>, t: Seq<u8>, i: int)
    requires
        s.len() == t.len(),
        0 <= i < s.len(),
        s.take(i) == t.take(i),
        s[i] < t[i],
    ensures
        be_nat(s) < be_nat(t),
{
    let p = pow(256, (s.len() - i - 1) as nat);
    lemma_be_nat_split(s, i + 1);
    lemma_be_nat_split(t, i + 1);
    assert(s.take(i + 1).drop_last() =~= s.take(i));
    assert(t.take(i + 1).drop_last() =~= t.take(i));
    assert(be_nat(s.take(i + 1)) == be_nat(s.take(i)) * 256 + s[i]);
    assert(be_nat(t.take(i + 1)) == be_nat(t.take(i)) * 256 + t[i]);
    lemma_pow_positive(256, (s.len() - i - 1) as nat);
    let a = be_nat(s.take(i));
    assert(be_nat(s) < be_nat(t)) by (nonlinear_arith)
        requires
            be_nat(s) == (a * 256 + s[i]) * p + be_nat(s.skip(i + 1)),
            be_nat(t) == (a * 256 + t[i]) * p + be_nat(t.skip(i + 1)),
            be_nat(s.skip(i + 1)) < p,
            0 < p,
            s[i] < t[i],
    ;
}

pub proof fn lemma_be_nat_zero(s: Seq<u8>)
    ensures
        (be_nat(s) == 0) <==> (forall|i: int| 0 <= i < s.len() ==> s[i] == 0),
    decreases s.len(),
{
    if s.len() > 0 {
        lemma_be_nat_zero(s.drop_last());
        if be_nat(s) == 0 {
            assert(forall|i: int| 0 <= i < s.len() - 1 ==> s[i] == s.drop_last()[i]);
        }
        if forall|i: int| 0 <= i < s.len() ==> s[i] == 0 {
            assert(forall|i: int| 0 <= i < s.len() - 1 ==> s.drop_last()[i] == 0);
        }
    }
}

/// Compares the values of two equal-length big-endian strings.
pub fn be_lt(a: &[u8], b: &[u8]) -> (r: bool)
    requires
        a@.len() == b@.len(),
    ensures
        r == (be_nat(a@) < be_nat(b@)),
{
    let n = a.len();
    for i in 0..n
        invariant
            n == a@.len() == b@.len(),
            a@.take(i as int) == b@.take(i as int),
    {
        if a[i] < b[i] {
            proof { lemma_be_nat_lt(a@, b@, i as int); }
            return true;
        }
        if a[i] > b[i] {
            proof { lemma_be_nat_lt(b@, a@, i as int); }
            return false;
        }
        proof {
            assert(a@.take(i + 1) =~= b@.take(i + 1));
        }
    }
    proof {
        assert(a@.take(n as int) =~= a@);
        assert(b@.take(n as int) =~= b@);
    }
    false
}

/// True exactly when the string encodes zero.
pub fn be_is_zero(a: &[u8]) -> (r: bool)
    ensures
        r == (be_nat(a@) == 0),
{
    let n = a.len();
    for i in 0..n
        invariant
            n == a@.len(),
            forall|j: int| 0 <= j < i ==> a@[j] == 0,
    {
        if a[i] != 0 {
            proof { lemma_be_nat_zero(a@); }
            return false;
        }
    }
    proof { lemma_be_nat_zero(a@); }
    true
}

/// The order of the BLS12-381 prime-order subgroup (the scalar field),
/// as its canonical 32-byte big-endian encoding.
pub open spec fn bls_r_bytes() -> Seq<u8> {
    seq![
        0x73u8, 0xedu8, 0xa7u8, 0x53u8, 0x29u8, 0x9du8, 0x7du8, 0x48u8,
        0x33u8, 0x39u8, 0xd8u8, 0x08u8, 0x09u8, 0xa1u8, 0xd8u8, 0x05u8,
        0x53u8, 0xbdu8, 0xa4u8, 0x02u8, 0xffu8, 0xfeu8, 0x5bu8, 0xfeu8,
        0xffu8, 0xffu8, 0xffu8, 0xffu8, 0x00u8, 0x00u8, 0x00u8, 0x01u8,
    ]
}

/// The order of the scalar field as a number.
pub open spec fn bls_r() -> nat {
    be_nat(bls_r_bytes())
}

/// The BLS12-381 base-field modulus, as its canonical 48-byte big-endian
/// encoding.
pub open spec fn bls_p_bytes() -> Seq<u8> {
    seq![
        0x1au8, 0x01u8, 0x11u8, 0xeau8, 0x39u8, 0x7fu8, 0xe6u8, 0x9au8,
        0x4bu8, 0x1bu8, 0xa7u8, 0xb6u8, 0x43u8, 0x4bu8, 0xacu8, 0xd7u8,
        0x64u8, 0x77u8, 0x4bu8, 0x84u8, 0xf3u8, 0x85u8, 0x12u8, 0xbfu8,
        0x67u8, 0x30u8, 0xd2u8, 0xa0u8, 0xf6u8, 0xb0u8, 0xf6u8, 0x24u8,
        0x1eu8, 0xabu8, 0xffu8, 0xfeu8, 0xb1u8, 0x53u8, 0xffu8, 0xffu8,
        0xb9u8, 0xfeu8, 0xffu8, 0xffu8, 0xffu8, 0xffu8, 0xaau8, 0xabu8,
    ]
}

/// The base-field modulus as a number.
pub open spec fn bls_p() -> nat {
    be_nat(bls_p_bytes())
}

/// Exec copy of `bls_r_bytes`.
pub fn bls_r_be() -> (r: [u8; 32])
    ensures
        r@ == bls_r_bytes(),
{
    let r: [u8; 32] = [
        0x73u8, 0xedu8, 0xa7u8, 0x53u8, 0x29u8, 0x9du8, 0x7du8, 0x48u8,
        0x33u8, 0x39u8, 0xd8u8, 0x08u8, 0x09u8, 0xa1u8, 0xd8u8, 0x05u8,
        0x53u8, 0xbdu8, 0xa4u8, 0x02u8, 0xffu8, 0xfeu8, 0x5bu8, 0xfeu8,
        0xffu8, 0xffu8, 0xffu8, 0xffu8, 0x00u8, 0x00u8, 0x00u8, 0x01u8,
    ];
    proof {
        assert(r@ =~= bls_r_bytes());
    }
    r
}

/// Exec copy of `bls_p_bytes`.
pub fn bls_p_be() -> (r: [u8; 48])
    ensures
        r@ == bls_p_bytes(),
{
    let r: [u8; 48] = [
        0x1au8, 0x01u8, 0x11u8, 0xeau8, 0x39u8, 0x7fu8, 0xe6u8, 0x9au8,
        0x4bu8, 0x1bu8, 0xa7u8, 0xb6u8, 0x43u8, 0x4bu8, 0xacu8, 0xd7u8,
        0x64u8, 0x77u8, 0x4bu8, 0x84u8, 0xf3u8, 0x85u8, 0x12u8, 0xbfu8,
        0x67u8, 0x30u8, 0xd2u8, 0xa0u8, 0xf6u8, 0xb0u8, 0xf6u8, 0x24u8,
        0x1eu8, 0xabu8, 0xffu8, 0xfeu8, 0xb1u8, 0x53u8, 0xffu8, 0xffu8,
        0xb9u8, 0xfeu8, 0xffu8, 0xffu8, 0xffu8, 0xffu8, 0xaau8, 0xabu8,
    ];
    proof {
        assert(r@ =~= bls_p_bytes());
    }
    r
}

/// Ten to the eighth, for bounding decimal count fields.
pub proof fn lemma_pow_10_8()
    ensures
        pow(10, 8) == 100000000,
{
    reveal_with_fuel(pow, 9);
}

/// The proving curve's base-field modulus (the curve of the succinct-
/// proof accelerator precompiles), as its 32-byte big-endian encoding.
pub open spec fn bn_p_bytes() -> Seq<u8> {
    seq![
        0x30u8, 0x64u8, 0x4eu8, 0x72u8, 0xe1u8, 0x31u8, 0xa0u8, 0x29u8,
        0xb8u8, 0x50u8, 0x45u8, 0xb6u8, 0x81u8, 0x81u8, 0x58u8, 0x5du8,
        0x97u8, 0x81u8, 0x6au8, 0x91u8, 0x68u8, 0x71u8, 0xcau8, 0x8du8,
        0x3cu8, 0x20u8, 0x8cu8, 0x16u8, 0xd8u8, 0x7cu8, 0xfdu8, 0x47u8,
    ]
}

/// The proving curve's base-field modulus as a number.
pub open spec fn bn_p() -> nat {
    be_nat(bn_p_bytes())
}

/// Exec copy of `bn_p_bytes`.
pub fn bn_p_be() -> (r: [u8; 32])
    ensures
        r@ == bn_p_bytes(),
{
    let r: [u8; 32] = [
        0x30u8, 0x64u8, 0x4eu8, 0x72u8, 0xe1u8, 0x31u8, 0xa0u8, 0x29u8,
        0xb8u8, 0x50u8, 0x45u8, 0xb6u8, 0x81u8, 0x81u8, 0x58u8, 0x5du8,
        0x97u8, 0x81u8, 0x6au8, 0x91u8, 0x68u8, 0x71u8, 0xcau8, 0x8du8,
        0x3cu8, 0x20u8, 0x8cu8, 0x16u8, 0xd8u8, 0x7cu8, 0xfdu8, 0x47u8,
    ];
    proof {
        assert(r@ =~= bn_p_bytes());
    }
    r
}

/// The byte-reversal of a 32-byte string (between big- and little-endian
/// renderings of one value).
pub open spec fn rev32(s: Seq<u8>) -> Seq<u8> {
    Seq::new(32, |i: int| s[31 - i])
}

/// A canonical scalar encoding: 32 bytes, value below the group order.
pub open spec fn is_canonical_scalar(s: Seq<u8>) -> bool {
    s.len() == 32 && be_nat(s) < bls_r()
}

/// Checks that a 32-byte string canonically encodes a scalar.
pub fn check_canonical_scalar(s: &[u8; 32]) -> (r: bool)
    ensures
        r == is_canonical_scalar(s@),
{
    let rb = bls_r_be();
    be_lt(s.as_slice(), rb.as_slice())
}

} // verus!
