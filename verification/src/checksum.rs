//! The internet checksum (RFC 1071).
//!
//! The checksum of a byte string is the ones'-complement of the
//! ones'-complement sum of its 16-bit big-endian words; an odd trailing
//! byte is padded with zero on the right.

use vstd::prelude::*;

verus! {

/// The plain sum of the 16-bit big-endian words of `bytes`, an odd trailing
/// byte padded with a zero low byte.
pub open spec fn spec_word_sum(bytes: Seq<u8>) -> int
    decreases bytes.len(),
{
    if bytes.len() == 0 {
        0
    } else if bytes.len() == 1 {
        bytes[0] * 256
    } else {
        bytes[0] * 256 + bytes[1] + spec_word_sum(bytes.skip(2))
    }
}

/// Folds the carries of a word sum back in until the value fits 16 bits.
pub open spec fn spec_fold16(x: int) -> int
    decreases x,
{
    if x <= 0xffff {
        x
    } else {
        spec_fold16(x % 65536 + x / 65536)
    }
}

/// The RFC 1071 checksum of a byte string.
pub open spec fn spec_rfc1071(bytes: Seq<u8>) -> int {
    0xffff - spec_fold16(spec_word_sum(bytes))
}

/// A word sum is never negative.
pub proof fn lemma_word_sum_nonneg(bytes: Seq<u8>)
    ensures
        spec_word_sum(bytes) >= 0,
    decreases bytes.len(),
{
    if bytes.len() >= 2 {
        lemma_word_sum_nonneg(bytes.skip(2));
    }
}

/// A word sum of `n` bytes is at most `n` times the largest word.
pub proof fn lemma_word_sum_bound(bytes: Seq<u8>)
    ensures
        spec_word_sum(bytes) <= bytes.len() * 0xffff,
    decreases bytes.len(),
{
    if bytes.len() == 0 {
    } else if bytes.len() == 1 {
    } else {
        lemma_word_sum_bound(bytes.skip(2));
        assert(bytes.skip(2).len() * 0xffff <= (bytes.len() - 2) * 0xffff) by (nonlinear_arith)
            requires bytes.skip(2).len() == bytes.len() - 2;
        assert((bytes.len() - 2) * 0xffff + 0xffff + 0xffff <= bytes.len() * 0xffff)
            by (nonlinear_arith)
            requires bytes.len() >= 2;
    }
}

/// Folding keeps the value's residue modulo 65535 and lands in 16 bits;
/// only zero folds to zero.
pub proof fn lemma_fold16_props(x: int)
    requires
        x >= 0,
    ensures
        0 <= spec_fold16(x) <= 0xffff,
        spec_fold16(x) % 65535 == x % 65535,
        spec_fold16(x) == 0 ==> x == 0,
    decreases x,
{
    if x > 0xffff {
        let y = x % 65536 + x / 65536;
        let h = x / 65536;
        let l = x % 65536;
        vstd::arithmetic::div_mod::lemma_fundamental_div_mod(x, 65536);
        vstd::arithmetic::div_mod::lemma_mod_bound(x, 65536);
        assert(y >= 0 && y < x) by (nonlinear_arith)
            requires x > 0xffff, x == 65536 * h + l, 0 <= l < 65536, y == h + l;
        lemma_fold16_props(y);
        assert(y % 65535 == x % 65535) by {
            let h = x / 65536;
            let l = x % 65536;
            assert(x == 65536 * h + l) by {
                vstd::arithmetic::div_mod::lemma_fundamental_div_mod(x, 65536);
            }
            assert((65536 * h + l) % 65535 == (h + l) % 65535) by (nonlinear_arith)
                requires h >= 0, l >= 0;
        }
        assert(y > 0) by (nonlinear_arith)
            requires x > 0xffff, y == x % 65536 + x / 65536;
    }
}

/// Computes the RFC 1071 checksum of the given bytes.
pub fn compute_rfc1071(data: &[u8]) -> (r: u16)
    requires
        data@.len() <= 0x100000,
    ensures
        r == spec_rfc1071(data@),
{
    let n = data.len();
    let mut sum: u64 = 0;
    let mut i: usize = 0;
    proof {
        assert(data@.skip(0) =~= data@);
    }
    while i + 1 < n
        invariant
            i <= n,
            n == data@.len(),
            i % 2 == 0 || i == n,
            sum + spec_word_sum(data@.skip(i as int)) == spec_word_sum(data@),
            sum <= i * 0x10000,
        decreases n - i,
    {
        proof {
            lemma_word_sum_nonneg(data@.skip(i + 2));
            assert(data@.skip(i as int)[0] == data@[i as int]);
            assert(data@.skip(i as int)[1] == data@[i + 1]);
            assert(data@.skip(i as int).skip(2) =~= data@.skip(i + 2));
            assert((i + 2) * 0x10000 == i * 0x10000 + 0x20000) by (nonlinear_arith);
            assert(i * 0x10000 <= 0x100000 * 0x10000) by (nonlinear_arith)
                requires i <= 0x100000;
        }
        let word: u64 = (data[i] as u64) * 256 + (data[i + 1] as u64);
        sum = sum + word;
        i += 2;
    }
    if i < n {
        proof {
            assert(data@.skip(i as int).len() == 1);
            assert(data@.skip(i as int)[0] == data@[i as int]);
        }
        let word: u64 = (data[i] as u64) * 256;
        sum = sum + word;
        i += 1;
        proof {
            assert(data@.skip(i as int).len() == 0);
        }
    }
    proof {
        assert(spec_word_sum(data@.skip(i as int)) == 0);
        assert(sum == spec_word_sum(data@));
    }
    let ghost total = sum as int;
    while sum > 0xffff
        invariant
            spec_fold16(sum as int) == spec_fold16(total),
            sum as int <= total,
        decreases sum,
    {
        sum = sum % 65536 + sum / 65536;
    }
    proof {
        assert(spec_fold16(sum as int) == sum as int);
    }
    (0xffff - (sum as u16)) as u16
}

/// Replacing the two zero bytes at an even offset by a word adds that word
/// to the word sum.
pub proof fn lemma_word_sum_patch(zeroed: Seq<u8>, filled: Seq<u8>, pos: int, hi: u8, lo: u8)
    requires
        0 <= pos,
        pos % 2 == 0,
        pos + 2 <= zeroed.len(),
        filled.len() == zeroed.len(),
        zeroed[pos] == 0,
        zeroed[pos + 1] == 0,
        filled[pos] == hi,
        filled[pos + 1] == lo,
        forall|k: int| 0 <= k < zeroed.len() && k != pos && k != pos + 1 ==> filled[k] == zeroed[k],
    ensures
        spec_word_sum(filled) == spec_word_sum(zeroed) + hi * 256 + lo,
    decreases pos,
{
    if pos == 0 {
        assert(filled.skip(2) =~= zeroed.skip(2));
    } else {
        assert(filled.len() >= 2);
        lemma_word_sum_patch(zeroed.skip(2), filled.skip(2), pos - 2, hi, lo);
        assert(filled[0] == zeroed[0]);
        assert(filled[1] == zeroed[1]);
    }
}

/// The checksum law: writing a byte string's checksum into its (previously
/// zero) checksum field yields a string whose checksum is zero.
pub proof fn lemma_checksum_roundtrip(zeroed: Seq<u8>, filled: Seq<u8>, pos: int)
    requires
        0 <= pos,
        pos % 2 == 0,
        pos + 2 <= zeroed.len(),
        filled.len() == zeroed.len(),
        zeroed[pos] == 0,
        zeroed[pos + 1] == 0,
        // the field carries the big-endian checksum of the zeroed string
        filled[pos] == (spec_rfc1071(zeroed) / 256) as u8,
        filled[pos + 1] == (spec_rfc1071(zeroed) % 256) as u8,
        forall|k: int| 0 <= k < zeroed.len() && k != pos && k != pos + 1 ==> filled[k] == zeroed[k],
    ensures
        spec_rfc1071(filled) == 0,
{
    let s = spec_word_sum(zeroed);
    lemma_word_sum_nonneg(zeroed);
    lemma_fold16_props(s);
    let f = spec_fold16(s);
    let c = 0xffff - f;
    let hi = (c / 256) as u8;
    let lo = (c % 256) as u8;
    assert(hi * 256 + lo == c) by (nonlinear_arith)
        requires 0 <= c <= 0xffff, hi == (c / 256) as u8, lo == (c % 256) as u8;
    lemma_word_sum_patch(zeroed, filled, pos, hi, lo);
    let s2 = spec_word_sum(filled);
    assert(s2 == s + c);
    lemma_fold16_props(s2);
    let f2 = spec_fold16(s2);
    // s + c is congruent to zero modulo 65535 and positive, so it folds to
    // the all-ones word
    assert(s2 % 65535 == 0) by (nonlinear_arith)
        requires s2 == s + 0xffff - f, f % 65535 == s % 65535, 0 <= f <= 0xffff, s >= 0;
    assert(s2 > 0) by (nonlinear_arith)
        requires s2 == s + 0xffff - f, 0 <= f <= 0xffff, s >= 0, f % 65535 == s % 65535,
            spec_fold16(s) == f, s == 0 ==> f == 0;
    assert(f2 % 65535 == 0);
    assert(f2 != 0);
    assert(f2 == 0xffff);
}

} // verus!
