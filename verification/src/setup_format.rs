//! Text layout of trusted-setup files: a line with the count of points of
//! the first group, a line with the count of points of the second group,
//! then one hex-encoded compressed point per line.

use vstd::prelude::*;
use vstd::arithmetic::power::pow;

verus! {

// ---------------------------------------------------------------------
// Lines.
// ---------------------------------------------------------------------

/// Position of the first newline in `s`, or `s.len()` if there is none.
pub open spec fn first_nl(s: Seq<u8>) -> nat
    decreases s.len(),
{
    if s.len() == 0 {
        0
    } else if s[0] == 10u8 {
        0
    } else {
        1 + first_nl(s.skip(1))
    }
}

pub proof fn lemma_first_nl_unique(s: Seq<u8>, k: nat)
    requires
        k <= s.len(),
        forall|j: int| 0 <= j < k ==> s[j] != 10u8,
        k < s.len() ==> s[k as int] == 10u8,
    ensures
        first_nl(s) == k,
    decreases s.len(),
{
    if k == 0 {
        if s.len() > 0 {
            assert(s[0] == 10u8);
        }
    } else {
        assert(s[0] != 10u8);
        assert(forall|j: int| 0 <= j < k - 1 ==> s.skip(1)[j] == s[j + 1]);
        if k < s.len() {
            assert(s.skip(1)[k - 1] == s[k as int]);
        }
        lemma_first_nl_unique(s.skip(1), (k - 1) as nat);
    }
}

/// The lines of a byte string: maximal newline-free segments; a trailing
/// newline does not produce an empty final line.
pub open spec fn spec_lines(s: Seq<u8>) -> Seq<Seq<u8>>
    decreases s.len(),
{
    if s.len() == 0 {
        Seq::empty()
    } else {
        let k = first_nl(s);
        if k >= s.len() {
            seq![s]
        } else {
            seq![s.take(k as int)] + spec_lines(s.skip(k as int + 1))
        }
    }
}

/// The views of a list of byte vectors.
pub open spec fn byte_views(v: Seq<Vec<u8>>) -> Seq<Seq<u8>> {
    Seq::new(v.len(), |i: int| v[i]@)
}

/// Copies `a[from..to]`.
pub fn subrange_vec(a: &[u8], from: usize, to: usize) -> (r: Vec<u8>)
    requires
        from <= to <= a@.len(),
    ensures
        r@ == a@.subrange(from as int, to as int),
{
    let mut out: Vec<u8> = Vec::new();
    for i in from..to
        invariant
            from <= i <= to <= a@.len(),
            out@ =~= a@.subrange(from as int, i as int),
    {
        out.push(a[i]);
        proof {
            assert(out@ =~= a@.subrange(from as int, i + 1));
        }
    }
    out
}

/// Splits a byte string into its lines.
pub fn split_lines(content: &[u8]) -> (r: Vec<Vec<u8>>)
    ensures
        byte_views(r@) == spec_lines(content@),
{
    let mut lines: Vec<Vec<u8>> = Vec::new();
    let n = content.len();
    let mut pos: usize = 0;
    proof {
        assert(content@.skip(0) =~= content@);
        assert(byte_views(lines@) + spec_lines(content@) =~= spec_lines(content@));
    }
    while pos < n
        invariant
            pos <= n,
            n == content@.len(),
            byte_views(lines@) + spec_lines(content@.skip(pos as int)) =~= spec_lines(content@),
        decreases n - pos,
    {
        let ghost rest = content@.skip(pos as int);
        let mut j = pos;
        while j < n && content[j] != 10u8
            invariant
                pos <= j <= n,
                n == content@.len(),
                forall|t: int| pos <= t < j ==> content@[t] != 10u8,
            decreases n - j,
        {
            j = j + 1;
        }
        proof {
            assert(forall|t: int| 0 <= t < j - pos ==> rest[t] == content@[t + pos]);
            lemma_first_nl_unique(rest, (j - pos) as nat);
        }
        let line = subrange_vec(content, pos, j);
        lines.push(line);
        if j == n {
            proof {
                assert(rest.take((j - pos) as int) =~= rest);
                assert(spec_lines(rest) =~= seq![rest]);
                assert(byte_views(lines@) =~= byte_views(lines@.drop_last()).push(
                    content@.subrange(pos as int, j as int),
                ));
                assert(content@.subrange(pos as int, j as int) =~= rest);
                assert(content@.skip(n as int) =~= Seq::<u8>::empty());
                assert(byte_views(lines@) + spec_lines(content@.skip(n as int)) =~= spec_lines(
                    content@,
                ));
            }
            pos = n;
        } else {
            proof {
                assert(spec_lines(rest) =~= seq![rest.take((j - pos) as int)] + spec_lines(
                    rest.skip(j - pos + 1),
                ));
                assert(rest.take((j - pos) as int) =~= content@.subrange(pos as int, j as int));
                assert(rest.skip(j - pos + 1) =~= content@.skip(j + 1));
                assert(byte_views(lines@) =~= byte_views(lines@.drop_last()).push(
                    content@.subrange(pos as int, j as int),
                ));
                assert(byte_views(lines@) + spec_lines(content@.skip(j + 1)) =~= spec_lines(
                    content@,
                ));
            }
            pos = j + 1;
        }
    }
    proof {
        assert(content@.skip(n as int) =~= Seq::<u8>::empty());
        assert(byte_views(lines@) + spec_lines(Seq::<u8>::empty()) =~= byte_views(lines@));
    }
    lines
}

// ---------------------------------------------------------------------
// Hexadecimal point encodings.
// ---------------------------------------------------------------------

pub open spec fn is_hex_digit(c: u8) -> bool {
    (0x30u8 <= c <= 0x39u8) || (0x61u8 <= c <= 0x66u8) || (0x41u8 <= c <= 0x46u8)
}

pub open spec fn hex_nibble(c: u8) -> u8 {
    if 0x30u8 <= c <= 0x39u8 {
        (c - 0x30u8) as u8
    } else if 0x61u8 <= c <= 0x66u8 {
        ((c - 0x61u8) + 10) as u8
    } else {
        ((c - 0x41u8) + 10) as u8
    }
}

pub open spec fn all_hex(s: Seq<u8>) -> bool {
    forall|i: int| 0 <= i < s.len() ==> is_hex_digit(#[trigger] s[i])
}

/// The bytes encoded by a hex string (two digits per byte, high first).
pub open spec fn hex_decode(s: Seq<u8>) -> Seq<u8> {
    Seq::new(
        s.len() / 2,
        |i: int| ((hex_nibble(s[2 * i]) as int) * 16 + (hex_nibble(s[2 * i + 1]) as int)) as u8,
    )
}

/// Decodes one hex digit.
fn hex_digit(c: u8) -> (r: Option<u8>)
    ensures
        r is Some <==> is_hex_digit(c),
        r is Some ==> r->0 == hex_nibble(c) && r->0 < 16,
{
    if 0x30u8 <= c && c <= 0x39u8 {
        Some(c - 0x30u8)
    } else if 0x61u8 <= c && c <= 0x66u8 {
        Some(c - 0x61u8 + 10)
    } else if 0x41u8 <= c && c <= 0x46u8 {
        Some(c - 0x41u8 + 10)
    } else {
        None
    }
}

/// Decodes a 96-digit hex line into 48 bytes.
pub fn hex_line_48(line: &Vec<u8>) -> (r: Option<[u8; 48]>)
    ensures
        r is Some <==> (line@.len() == 96 && all_hex(line@)),
        r is Some ==> r->0@ == hex_decode(line@),
{
    if line.len() != 96 {
        return None;
    }
    let mut out = [0u8; 48];
    for i in 0..48usize
        invariant
            line@.len() == 96,
            forall|j: int| 0 <= j < 2 * i ==> is_hex_digit(#[trigger] line@[j]),
            forall|j: int| 0 <= j < i ==> out@[j] == hex_decode(line@)[j],
    {
        let h = match hex_digit(line[2 * i]) {
            Some(h) => h,
            None => {
                return None;
            },
        };
        let l = match hex_digit(line[2 * i + 1]) {
            Some(l) => l,
            None => {
                return None;
            },
        };
        out[i] = h * 16 + l;
    }
    Some(out)
}

/// Decodes a 192-digit hex line into 96 bytes.
pub fn hex_line_96(line: &Vec<u8>) -> (r: Option<[u8; 96]>)
    ensures
        r is Some <==> (line@.len() == 192 && all_hex(line@)),
        r is Some ==> r->0@ == hex_decode(line@),
{
    if line.len() != 192 {
        return None;
    }
    let mut out = [0u8; 96];
    for i in 0..96usize
        invariant
            line@.len() == 192,
            forall|j: int| 0 <= j < 2 * i ==> is_hex_digit(#[trigger] line@[j]),
            forall|j: int| 0 <= j < i ==> out@[j] == hex_decode(line@)[j],
    {
        let h = match hex_digit(line[2 * i]) {
            Some(h) => h,
            None => {
                return None;
            },
        };
        let l = match hex_digit(line[2 * i + 1]) {
            Some(l) => l,
            None => {
                return None;
            },
        };
        out[i] = h * 16 + l;
    }
    Some(out)
}

// ---------------------------------------------------------------------
// Decimal counts.
// ---------------------------------------------------------------------

pub open spec fn is_dec_digit(c: u8) -> bool {
    0x30u8 <= c <= 0x39u8
}

/// The value of a decimal digit string.
pub open spec fn dec_val(s: Seq<u8>) -> nat
    decreases s.len(),
{
    if s.len() == 0 {
        0
    } else {
        dec_val(s.drop_last()) * 10 + (s.last() - 0x30u8) as nat
    }
}

/// A usable count line: one to eight decimal digits.
pub open spec fn dec_line_ok(s: Seq<u8>) -> bool {
    1 <= s.len() <= 8 && (forall|i: int| 0 <= i < s.len() ==> is_dec_digit(#[trigger] s[i]))
}

proof fn lemma_dec_bound(s: Seq<u8>)
    requires
        forall|i: int| 0 <= i < s.len() ==> is_dec_digit(#[trigger] s[i]),
    ensures
        dec_val(s) < pow(10, s.len()),
    decreases s.len(),
{
    vstd::arithmetic::power::lemma_pow0(10);
    if s.len() > 0 {
        assert(forall|i: int| 0 <= i < s.len() - 1 ==> s.drop_last()[i] == s[i]);
        lemma_dec_bound(s.drop_last());
        vstd::arithmetic::power::lemma_pow1(10);
        vstd::arithmetic::power::lemma_pow_adds(10, (s.len() - 1) as nat, 1);
        assert(dec_val(s.drop_last()) * 10 + (s.last() - 0x30u8) < pow(10, (s.len() - 1) as nat)
            * 10) by (nonlinear_arith)
            requires
                dec_val(s.drop_last()) < pow(10, (s.len() - 1) as nat),
                is_dec_digit(s.last()),
        ;
    }
}

/// Parses a count line.
pub fn parse_count(line: &Vec<u8>) -> (r: Option<usize>)
    ensures
        r is Some <==> dec_line_ok(line@),
        r is Some ==> r->0 == dec_val(line@) && r->0 < 100000000,
{
    let n = line.len();
    if n < 1 || n > 8 {
        return None;
    }
    let mut acc: usize = 0;
    for i in 0..n
        invariant
            n == line@.len() && 1 <= n <= 8,
            forall|j: int| 0 <= j < i ==> is_dec_digit(#[trigger] line@[j]),
            acc == dec_val(line@.take(i as int)),
            acc < 100000000,
    {
        let c = line[i];
        if !(0x30u8 <= c && c <= 0x39u8) {
            return None;
        }
        proof {
            assert(forall|j: int| 0 <= j < i + 1 ==> is_dec_digit(#[trigger] line@.take(i + 1)[j]));
            lemma_dec_bound(line@.take(i + 1));
            assert(line@.take(i + 1).drop_last() =~= line@.take(i as int));
            crate::encoding::lemma_pow_10_8();
            vstd::arithmetic::power::lemma_pow_increases(10, (i + 1) as nat, 8);
        }
        acc = acc * 10 + ((c - 0x30u8) as usize);
    }
    proof {
        assert(line@.take(n as int) =~= line@);
    }
    Some(acc)
}

} // verus!
