//! Byte-level primitives shared by the archive decoder and the classifier:
//! comparison and search over byte strings, a lexicographic order, decimal
//! parsing of object ids, and the little-endian integer encodings used by the
//! archive format.

use vstd::prelude::*;
use vstd::slice::{slice_subrange, slice_to_vec};

verus! {

/// Position of the first occurrence of `b` in `s`, or `s.len()` when absent.
pub open spec fn index_of_byte(s: Seq<u8>, b: u8) -> int
    decreases s.len(),
{
    if s.len() == 0 {
        0
    } else if s[0] == b {
        0
    } else {
        1 + index_of_byte(s.drop_first(), b)
    }
}

pub proof fn lemma_index_of_byte(s: Seq<u8>, b: u8)
    ensures
        0 <= index_of_byte(s, b) <= s.len(),
        index_of_byte(s, b) < s.len() ==> s[index_of_byte(s, b)] == b,
        forall|j: int| 0 <= j < index_of_byte(s, b) ==> s[j] != b,
    decreases s.len(),
{
    if s.len() == 0 {
    } else if s[0] == b {
    } else {
        lemma_index_of_byte(s.drop_first(), b);
        assert forall|j: int| 0 <= j < index_of_byte(s, b) implies s[j] != b by {
            if j > 0 {
                assert(s.drop_first()[j - 1] == s[j]);
            }
        }
    }
}

/// First occurrence of `b` in `s`, if any.
pub fn find_byte(s: &[u8], b: u8) -> (r: Option<usize>)
    ensures
        ({
            let idx = index_of_byte(s@, b);
            match r {
                Some(i) => idx == i && i < s@.len(),
                None => idx == s@.len(),
            }
        }),
{
    proof {
        lemma_index_of_byte(s@, b);
    }
    let n = s.len();
    let mut i: usize = 0;
    while i < n
        invariant
            n == s@.len(),
            0 <= i <= n,
            forall|j: int| 0 <= j < i ==> s@[j] != b,
        decreases n - i,
    {
        if s[i] == b {
            proof {
                lemma_index_of_byte(s@, b);
            }
            return Some(i);
        }
        i = i + 1;
    }
    proof {
        lemma_index_of_byte(s@, b);
    }
    None
}

/// Equality of two byte strings.
pub fn bytes_eq(a: &[u8], b: &[u8]) -> (r: bool)
    ensures
        r == (a@ == b@),
{
    if a.len() != b.len() {
        return false;
    }
    let n = a.len();
    let mut i: usize = 0;
    while i < n
        invariant
            n == a@.len(),
            b@.len() == n,
            0 <= i <= n,
            forall|j: int| 0 <= j < i ==> a@[j] == b@[j],
        decreases n - i,
    {
        if a[i] != b[i] {
            return false;
        }
        i = i + 1;
    }
    proof {
        assert(a@ =~= b@);
    }
    true
}

/// Does `a` start with `p`?
pub fn bytes_starts_with(a: &[u8], p: &[u8]) -> (r: bool)
    ensures
        r == p@.is_prefix_of(a@),
{
    if p.len() > a.len() {
        return false;
    }
    let n = p.len();
    let mut i: usize = 0;
    while i < n
        invariant
            n == p@.len(),
            n <= a@.len(),
            0 <= i <= n,
            forall|j: int| 0 <= j < i ==> a@[j] == p@[j],
        decreases n - i,
    {
        if a[i] != p[i] {
            proof {
                assert(a@.subrange(0, p@.len() as int)[i as int] == a@[i as int]);
            }
            return false;
        }
        i = i + 1;
    }
    proof {
        assert(a@.subrange(0, p@.len() as int) =~= p@);
    }
    true
}

/// Copy of `s[i..j]` as a fresh vector.
pub fn subvec(s: &[u8], i: usize, j: usize) -> (r: Vec<u8>)
    requires
        0 <= i <= j <= s@.len(),
    ensures
        r@ == s@.subrange(i as int, j as int),
{
    slice_to_vec(slice_subrange(s, i, j))
}

/// Append every byte of `src` to `dst`.
pub fn append_bytes(dst: &mut Vec<u8>, src: &[u8])
    ensures
        final(dst)@ == old(dst)@ + src@,
{
    let n = src.len();
    let mut i: usize = 0;
    while i < n
        invariant
            n == src@.len(),
            0 <= i <= n,
            dst@ == old(dst)@ + src@.take(i as int),
        decreases n - i,
    {
        dst.push(src[i]);
        proof {
            assert(old(dst)@ + src@.take(i + 1) =~= (old(dst)@ + src@.take(i as int)).push(
                src@[i as int],
            ));
        }
        i = i + 1;
    }
    proof {
        assert(src@.take(n as int) =~= src@);
    }
}

/// The parts of `s` before and after the first occurrence of `b`, if any.
pub open spec fn split_at_byte(s: Seq<u8>, b: u8) -> Option<(Seq<u8>, Seq<u8>)> {
    let i = index_of_byte(s, b);
    if i < s.len() {
        Some((s.subrange(0, i), s.subrange(i + 1, s.len() as int)))
    } else {
        None
    }
}

/// Split `s` at the first occurrence of `b`, as the classifier splits tags
/// at a space, an opening parenthesis or a dot.
pub fn split_once_byte(s: &[u8], b: u8) -> (r: Option<(Vec<u8>, Vec<u8>)>)
    ensures
        match r {
            Some(p) => split_at_byte(s@, b) == Some((p.0@, p.1@)),
            None => split_at_byte(s@, b) is None,
        },
{
    proof {
        lemma_index_of_byte(s@, b);
    }
    let n = s.len();
    match find_byte(s, b) {
        Some(i) => {
            let before = subvec(s, 0, i);
            let after = subvec(s, i + 1, n);
            Some((before, after))
        },
        None => None,
    }
}

/// Lexicographic order on byte strings, as `str` comparison orders their
/// UTF-8 bytes.
pub open spec fn lex_le(a: Seq<u8>, b: Seq<u8>) -> bool
    decreases a.len(),
{
    if a.len() == 0 {
        true
    } else if b.len() == 0 {
        false
    } else if a[0] < b[0] {
        true
    } else if a[0] > b[0] {
        false
    } else {
        lex_le(a.drop_first(), b.drop_first())
    }
}

pub proof fn lemma_lex_le_total(a: Seq<u8>, b: Seq<u8>)
    ensures
        lex_le(a, b) || lex_le(b, a),
    decreases a.len(),
{
    if a.len() == 0 {
    } else if b.len() == 0 {
    } else if a[0] == b[0] {
        lemma_lex_le_total(a.drop_first(), b.drop_first());
    }
}

pub proof fn lemma_lex_le_antisymmetric(a: Seq<u8>, b: Seq<u8>)
    requires
        lex_le(a, b),
        lex_le(b, a),
    ensures
        a == b,
    decreases a.len(),
{
    if a.len() == 0 {
        if b.len() != 0 {
            assert(!lex_le(b, a));
        }
        assert(a =~= b);
    } else {
        if b.len() == 0 {
            assert(!lex_le(a, b));
        }
        if a[0] < b[0] {
            assert(!lex_le(b, a));
        }
        if a[0] > b[0] {
            assert(!lex_le(a, b));
        }
        assert(a[0] == b[0]);
        assert(lex_le(a.drop_first(), b.drop_first()));
        assert(lex_le(b.drop_first(), a.drop_first()));
        lemma_lex_le_antisymmetric(a.drop_first(), b.drop_first());
        assert(a.drop_first() == b.drop_first());
        assert(a.len() == b.len());
        assert forall|i: int| 0 <= i < a.len() implies a[i] == b[i] by {
            if i > 0 {
                assert(a[i] == a.drop_first()[i - 1]);
                assert(b[i] == b.drop_first()[i - 1]);
            }
        }
        assert(a =~= b);
    }
}

pub proof fn lemma_lex_le_transitive(a: Seq<u8>, b: Seq<u8>, c: Seq<u8>)
    requires
        lex_le(a, b),
        lex_le(b, c),
    ensures
        lex_le(a, c),
    decreases a.len(),
{
    if a.len() == 0 {
    } else {
        assert(b.len() != 0);
        assert(c.len() != 0);
        if a[0] == b[0] && b[0] == c[0] {
            lemma_lex_le_transitive(a.drop_first(), b.drop_first(), c.drop_first());
        }
    }
}

pub proof fn lemma_lex_le_skip(a: Seq<u8>, b: Seq<u8>, i: int)
    requires
        0 <= i <= a.len(),
        i <= b.len(),
        forall|j: int| 0 <= j < i ==> a[j] == b[j],
    ensures
        lex_le(a, b) == lex_le(a.skip(i), b.skip(i)),
    decreases i,
{
    if i == 0 {
        assert(a.skip(0) =~= a);
        assert(b.skip(0) =~= b);
    } else {
        assert(a.len() > 0 && b.len() > 0 && a[0] == b[0]);
        lemma_lex_le_skip(a.drop_first(), b.drop_first(), i - 1);
        assert(a.drop_first().skip(i - 1) =~= a.skip(i));
        assert(b.drop_first().skip(i - 1) =~= b.skip(i));
    }
}

/// Lexicographic comparison of two byte strings.
pub fn lex_le_exec(a: &[u8], b: &[u8]) -> (r: bool)
    ensures
        r == lex_le(a@, b@),
{
    let an = a.len();
    let bn = b.len();
    let n = if an < bn {
        an
    } else {
        bn
    };
    let mut i: usize = 0;
    while i < n
        invariant
            an == a@.len(),
            bn == b@.len(),
            n <= an,
            n <= bn,
            an <= n || bn <= n,
            0 <= i <= n,
            forall|j: int| 0 <= j < i ==> a@[j] == b@[j],
        decreases n - i,
    {
        if a[i] < b[i] {
            proof {
                lemma_lex_le_skip(a@, b@, i as int);
                assert(a@.skip(i as int)[0] == a@[i as int]);
                assert(b@.skip(i as int)[0] == b@[i as int]);
            }
            return true;
        }
        if a[i] > b[i] {
            proof {
                lemma_lex_le_skip(a@, b@, i as int);
                assert(a@.skip(i as int)[0] == a@[i as int]);
                assert(b@.skip(i as int)[0] == b@[i as int]);
            }
            return false;
        }
        i = i + 1;
    }
    proof {
        lemma_lex_le_skip(a@, b@, n as int);
    }
    an <= bn
}

pub open spec fn is_dec_digit(b: u8) -> bool {
    '0' as u8 <= b <= '9' as u8
}

pub open spec fn all_dec_digits(s: Seq<u8>) -> bool {
    forall|i: int| 0 <= i < s.len() ==> is_dec_digit(#[trigger] s[i])
}

/// Numeric value of a string of decimal digits.
pub open spec fn dec_value(s: Seq<u8>) -> int
    decreases s.len(),
{
    if s.len() == 0 {
        0
    } else {
        10 * dec_value(s.drop_last()) + (s.last() - '0' as u8)
    }
}

pub proof fn lemma_dec_value_nonneg(s: Seq<u8>)
    requires
        all_dec_digits(s),
    ensures
        dec_value(s) >= 0,
    decreases s.len(),
{
    if s.len() > 0 {
        assert(forall|i: int|
            0 <= i < s.drop_last().len() ==> is_dec_digit(#[trigger] s.drop_last()[i]));
        lemma_dec_value_nonneg(s.drop_last());
    }
}

pub proof fn lemma_dec_value_take(s: Seq<u8>, i: int)
    requires
        all_dec_digits(s),
        0 <= i <= s.len(),
    ensures
        dec_value(s.take(i)) <= dec_value(s),
    decreases s.len() - i,
{
    if i == s.len() {
        assert(s.take(i) =~= s);
    } else {
        lemma_dec_value_take(s, i + 1);
        assert(s.take(i + 1).drop_last() =~= s.take(i));
        assert(forall|j: int| 0 <= j < i ==> s.take(i)[j] == s[j]);
        lemma_dec_value_nonneg(s.take(i));
        assert(s.take(i + 1).last() == s[i]);
        assert(dec_value(s.take(i + 1)) == 10 * dec_value(s.take(i)) + (s[i] - '0' as u8));
    }
}

/// Parse a byte string of decimal digits as a `u32`; anything else, including
/// an empty string or an overflowing value, is rejected.
pub fn parse_u32_dec(s: &[u8]) -> (r: Option<u32>)
    ensures
        match r {
            Some(v) => s@.len() > 0 && all_dec_digits(s@) && v == dec_value(s@),
            None => s@.len() == 0 || !all_dec_digits(s@) || dec_value(s@) > u32::MAX,
        },
{
    let n = s.len();
    if n == 0 {
        return None;
    }
    let mut acc: u64 = 0;
    let mut i: usize = 0;
    while i < n
        invariant
            n == s@.len(),
            0 <= i <= n,
            forall|j: int| 0 <= j < i ==> is_dec_digit(#[trigger] s@[j]),
            acc == dec_value(s@.take(i as int)),
            acc <= u32::MAX,
        decreases n - i,
    {
        let b = s[i];
        if b < '0' as u8 || b > '9' as u8 {
            assert(!is_dec_digit(s@[i as int]));
            return None;
        }
        let d: u64 = (b - '0' as u8) as u64;
        proof {
            assert(s@.take(i as int + 1).drop_last() =~= s@.take(i as int));
            assert(s@.take(i as int + 1).last() == s@[i as int]);
        }
        acc = acc * 10 + d;
        if acc > u32::MAX as u64 {
            proof {
                if all_dec_digits(s@) {
                    lemma_dec_value_take(s@, i as int + 1);
                }
            }
            return None;
        }
        i = i + 1;
    }
    proof {
        assert(s@.take(n as int) =~= s@);
    }
    Some(acc as u32)
}

/// Value of a little-endian byte string, least significant byte first.
pub open spec fn le_value(s: Seq<u8>) -> int
    decreases s.len(),
{
    if s.len() == 0 {
        0
    } else {
        s[0] + 256 * le_value(s.drop_first())
    }
}

pub open spec fn pow256(n: nat) -> int
    decreases n,
{
    if n == 0 {
        1
    } else {
        256 * pow256((n - 1) as nat)
    }
}

pub proof fn lemma_pow256_mono(a: nat, b: nat)
    requires
        a <= b,
    ensures
        1 <= pow256(a) <= pow256(b),
    decreases b,
{
    if b == 0 {
    } else if a == b {
        lemma_pow256_mono((b - 1) as nat, (b - 1) as nat);
    } else {
        lemma_pow256_mono(a, (b - 1) as nat);
    }
}

pub proof fn lemma_le_value_bound(s: Seq<u8>)
    ensures
        0 <= le_value(s) < pow256(s.len()),
    decreases s.len(),
{
    if s.len() > 0 {
        lemma_le_value_bound(s.drop_first());
    }
}

/// The value of a little-endian byte string splits off at its most
/// significant byte.
pub proof fn lemma_le_value_split_last(s: Seq<u8>)
    requires
        s.len() > 0,
    ensures
        le_value(s) == le_value(s.drop_last()) + s.last() * pow256((s.len() - 1) as nat),
    decreases s.len(),
{
    if s.len() == 1 {
        assert(s.drop_last() =~= Seq::<u8>::empty());
        assert(s.drop_first() =~= Seq::<u8>::empty());
        assert(le_value(s) == s[0] + 256 * le_value(s.drop_first()));
        assert(le_value(s.drop_last()) == 0);
        assert(s.last() == s[0]);
        assert(pow256(0) == 1);
        assert(le_value(s) == le_value(s.drop_last()) + s.last() * pow256((s.len() - 1) as nat));
    } else {
        lemma_le_value_split_last(s.drop_first());
        let t = s.drop_first();
        let p = pow256((t.len() - 1) as nat);
        assert(t.drop_last() =~= s.drop_last().drop_first());
        assert(t.last() == s.last());
        assert(s.drop_last()[0] == s[0]);
        assert(le_value(s) == s[0] + 256 * le_value(t));
        assert(le_value(t) == le_value(t.drop_last()) + s.last() * p);
        assert(le_value(s.drop_last()) == s[0] + 256 * le_value(t.drop_last()));
        assert(pow256((s.len() - 1) as nat) == 256 * p);
        assert(256 * (le_value(t.drop_last()) + s.last() * p) == 256 * le_value(t.drop_last())
            + 256 * (s.last() * p)) by (nonlinear_arith);
        assert(256 * (s.last() * p) == s.last() * (256 * p)) by (nonlinear_arith);
        assert(le_value(s) == (s[0] + 256 * le_value(t.drop_last())) + s.last() * (256 * p));
        assert(s.last() * pow256((s.len() - 1) as nat) == s.last() * (256 * p))
            by (nonlinear_arith)
            requires
                pow256((s.len() - 1) as nat) == 256 * p,
                s.len() >= 2,
        ;
        assert(le_value(s) == le_value(s.drop_last()) + s.last() * pow256((s.len() - 1) as nat));
    }
}

/// Value of a little-endian byte string read as a two's-complement signed
/// integer of its own width.
pub open spec fn le_signed(s: Seq<u8>) -> int {
    if s.len() > 0 && s.last() >= 128 {
        le_value(s) - pow256(s.len())
    } else {
        le_value(s)
    }
}

pub fn pow256_u128(n: usize) -> (r: u128)
    requires
        n <= 8,
    ensures
        r == pow256(n as nat),
{
    let mut r: u128 = 1;
    let mut i: usize = 0;
    while i < n
        invariant
            0 <= i <= n <= 8,
            r == pow256(i as nat),
        decreases n - i,
    {
        proof {
            lemma_pow256_mono(i as nat, 7);
            lemma_pow256_mono(7, 7);
            reveal_with_fuel(pow256, 9);
        }
        r = r * 256;
        i = i + 1;
    }
    r
}

/// Unsigned little-endian decode of at most eight bytes.
pub fn le_bytes_to_u64(s: &[u8]) -> (r: u64)
    requires
        s@.len() <= 8,
    ensures
        r == le_value(s@),
{
    let n = s.len();
    let mut acc: u64 = 0;
    let mut j: usize = n;
    while j > 0
        invariant
            n == s@.len() <= 8,
            0 <= j <= n,
            acc == le_value(s@.skip(j as int)),
        decreases j,
    {
        j = j - 1;
        proof {
            lemma_le_value_bound(s@.skip(j as int + 1));
            lemma_pow256_mono((n - j - 1) as nat, 7);
            reveal_with_fuel(pow256, 9);
            assert(s@.skip(j as int).drop_first() =~= s@.skip(j as int + 1));
            assert(s@.skip(j as int)[0] == s@[j as int]);
        }
        acc = acc * 256 + (s[j] as u64);
        proof {
            assert(acc == le_value(s@.skip(j as int))) by {
                assert(le_value(s@.skip(j as int)) == s@[j as int] + 256 * le_value(
                    s@.skip(j as int + 1),
                ));
            }
        }
    }
    proof {
        assert(s@.skip(0) =~= s@);
    }
    acc
}

/// Signed little-endian decode of one to eight bytes, sign-extending the
/// most significant bit.
pub fn le_bytes_to_i64(s: &[u8]) -> (r: i64)
    requires
        1 <= s@.len() <= 8,
    ensures
        r as int == le_signed(s@),
{
    let n = s.len();
    let u = le_bytes_to_u64(s);
    proof {
        lemma_le_value_split_last(s@);
        lemma_le_value_bound(s@);
        lemma_le_value_bound(s@.drop_last());
        lemma_pow256_mono(n as nat, 8);
        lemma_pow256_mono((n - 1) as nat, 7);
        reveal_with_fuel(pow256, 9);
        assert(pow256(7) == 0x100000000000000);
        assert(pow256(8) == 0x10000000000000000);
    }
    if s[n - 1] >= 128 {
        proof {
            assert(s@.last() == s@[n - 1]);
            // the top bit forces the value into the upper half of the range
            assert(s@.last() * pow256((n - 1) as nat) >= 128 * pow256((n - 1) as nat))
                by (nonlinear_arith)
                requires
                    s@.last() >= 128,
                    pow256((n - 1) as nat) >= 1,
            ;
        }
        let p: u128 = pow256_u128(n);
        let diff: u128 = p - (u as u128);
        if diff == 0x8000_0000_0000_0000u128 {
            proof {
                assert(le_signed(s@) == le_value(s@) - pow256(n as nat));
            }
            i64::MIN
        } else {
            proof {
                assert(diff < 0x8000_0000_0000_0000u128);
            }
            -(diff as i64)
        }
    } else {
        proof {
            assert(s@.last() == s@[n - 1]);
            assert(s@.last() * pow256((n - 1) as nat) <= 127 * pow256((n - 1) as nat))
                by (nonlinear_arith)
                requires
                    s@.last() <= 127,
                    pow256((n - 1) as nat) >= 1,
            ;
        }
        u as i64
    }
}

/// Relies on `core::str::from_utf8`, which returns `Ok` exactly when the
/// bytes are valid UTF-8, the property `vstd::utf8::valid_utf8` describes.
#[verifier::external_body]
pub fn utf8_is_valid(s: &[u8]) -> (r: bool)
    ensures
        r == vstd::utf8::valid_utf8(s@),
{
    core::str::from_utf8(s).is_ok()
}

} // verus!
