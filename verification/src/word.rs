//! Integers as byte sequences: little- and big-endian values, zero
//! extension to eight bytes, and the two's-complement reading of a word.

use vstd::prelude::*;
use crate::error::CanError;

verus! {

/// Byte order of a multi-byte value.
#[derive(Debug, Clone, Copy, PartialEq, Eq, Structural)]
pub enum Endian {
    /// The least significant byte comes first.
    Little,
    /// The most significant byte comes first.
    Big,
}

/// 256 to the power `n`.
pub open spec fn radix_pow(n: nat) -> nat
    decreases n,
{
    if n == 0 {
        1
    } else {
        256 * radix_pow((n - 1) as nat)
    }
}

/// The number that `bytes` spell with the least significant byte first.
pub open spec fn le_value(bytes: Seq<u8>) -> nat
    decreases bytes.len(),
{
    if bytes.len() == 0 {
        0
    } else {
        bytes[0] as nat + 256 * le_value(bytes.drop_first())
    }
}

/// The number that `bytes` spell with the most significant byte first.
pub open spec fn be_value(bytes: Seq<u8>) -> nat
    decreases bytes.len(),
{
    if bytes.len() == 0 {
        0
    } else {
        256 * be_value(bytes.drop_last()) + bytes.last() as nat
    }
}

/// The number that `bytes` spell in the given byte order.
pub open spec fn word_value(bytes: Seq<u8>, endian: Endian) -> nat {
    match endian {
        Endian::Little => le_value(bytes),
        Endian::Big => be_value(bytes),
    }
}

/// `n` zero bytes.
pub open spec fn zeros(n: nat) -> Seq<u8> {
    Seq::new(n, |i: int| 0u8)
}

/// `bytes` extended to eight bytes with zeros at the most significant end:
/// behind the bytes in little-endian order, in front of them in big-endian order.
pub open spec fn padded(bytes: Seq<u8>, endian: Endian) -> Seq<u8>
    recommends
        bytes.len() <= 8,
{
    match endian {
        Endian::Little => bytes + zeros((8 - bytes.len()) as nat),
        Endian::Big => zeros((8 - bytes.len()) as nat) + bytes,
    }
}

/// The most significant byte of a non-empty byte sequence in the given byte order.
pub open spec fn most_significant(bytes: Seq<u8>, endian: Endian) -> u8
    recommends
        bytes.len() > 0,
{
    match endian {
        Endian::Little => bytes.last(),
        Endian::Big => bytes.first(),
    }
}

/// The signed integer whose 64-bit two's-complement pattern is `u`.
pub open spec fn twos_complement(u: int) -> int {
    if u < 0x8000_0000_0000_0000 {
        u
    } else {
        u - 0x1_0000_0000_0000_0000
    }
}

/// The `n` low-order base-256 digits of `x`, least significant first.
pub open spec fn digits_le(x: nat, n: nat) -> Seq<u8>
    decreases n,
{
    if n == 0 {
        Seq::empty()
    } else {
        seq![(x % 256) as u8] + digits_le(x / 256, (n - 1) as nat)
    }
}

/// The `n` low-order base-256 digits of `x`, most significant first.
pub open spec fn digits_be(x: nat, n: nat) -> Seq<u8>
    decreases n,
{
    if n == 0 {
        Seq::empty()
    } else {
        digits_be(x / 256, (n - 1) as nat) + seq![(x % 256) as u8]
    }
}

/// The eight bytes that encode `v` in little-endian order.
pub open spec fn le_bytes(v: u64) -> Seq<u8> {
    digits_le(v as nat, 8)
}

/// The eight bytes that encode `v` in big-endian order.
pub open spec fn be_bytes(v: u64) -> Seq<u8> {
    digits_be(v as nat, 8)
}

/// Powers of 256 grow with the exponent.
pub proof fn lemma_radix_pow_monotonic(a: nat, b: nat)
    requires
        a <= b,
    ensures
        1 <= radix_pow(a) <= radix_pow(b),
    decreases b,
{
    if b == 0 {
    } else if a == b {
        lemma_radix_pow_monotonic((a - 1) as nat, (b - 1) as nat);
    } else {
        lemma_radix_pow_monotonic(a, (b - 1) as nat);
    }
}

/// Eight bytes span exactly the 64-bit range.
pub proof fn lemma_radix_pow_eight()
    ensures
        radix_pow(4) == 0x1_0000_0000,
        radix_pow(8) == 0x1_0000_0000_0000_0000,
{
    reveal_with_fuel(radix_pow, 9);
}

/// A little-endian value is below 256 to the number of its bytes.
pub proof fn lemma_le_value_bound(bytes: Seq<u8>)
    ensures
        le_value(bytes) < radix_pow(bytes.len()),
    decreases bytes.len(),
{
    if bytes.len() > 0 {
        lemma_le_value_bound(bytes.drop_first());
    }
}

/// A big-endian value is below 256 to the number of its bytes.
pub proof fn lemma_be_value_bound(bytes: Seq<u8>)
    ensures
        be_value(bytes) < radix_pow(bytes.len()),
    decreases bytes.len(),
{
    if bytes.len() > 0 {
        lemma_be_value_bound(bytes.drop_last());
    }
}

/// Zero bytes spell zero in either byte order.
pub proof fn lemma_zeros_value(n: nat)
    ensures
        le_value(zeros(n)) == 0,
        be_value(zeros(n)) == 0,
    decreases n,
{
    if n > 0 {
        lemma_zeros_value((n - 1) as nat);
        assert(zeros(n).drop_first() =~= zeros((n - 1) as nat));
        assert(zeros(n).drop_last() =~= zeros((n - 1) as nat));
    }
}

/// Zero bytes behind a little-endian value do not change it.
pub proof fn lemma_le_append_zeros(bytes: Seq<u8>, n: nat)
    ensures
        le_value(bytes + zeros(n)) == le_value(bytes),
    decreases bytes.len(),
{
    if bytes.len() == 0 {
        lemma_zeros_value(n);
        assert(bytes + zeros(n) =~= zeros(n));
    } else {
        lemma_le_append_zeros(bytes.drop_first(), n);
        assert((bytes + zeros(n)).drop_first() =~= bytes.drop_first() + zeros(n));
    }
}

/// Zero bytes in front of a big-endian value do not change it.
pub proof fn lemma_be_prepend_zeros(bytes: Seq<u8>, n: nat)
    ensures
        be_value(zeros(n) + bytes) == be_value(bytes),
    decreases bytes.len(),
{
    if bytes.len() == 0 {
        lemma_zeros_value(n);
        assert(zeros(n) + bytes =~= zeros(n));
    } else {
        lemma_be_prepend_zeros(bytes.drop_last(), n);
        assert((zeros(n) + bytes).drop_last() =~= zeros(n) + bytes.drop_last());
    }
}

/// Zero extension to eight bytes keeps the value of up to eight bytes.
pub proof fn lemma_padded_value(bytes: Seq<u8>, endian: Endian)
    requires
        bytes.len() <= 8,
    ensures
        padded(bytes, endian).len() == 8,
        word_value(padded(bytes, endian), endian) == word_value(bytes, endian),
        word_value(bytes, endian) < radix_pow(bytes.len()),
{
    let n = (8 - bytes.len()) as nat;
    match endian {
        Endian::Little => {
            lemma_le_append_zeros(bytes, n);
            lemma_le_value_bound(bytes);
        },
        Endian::Big => {
            lemma_be_prepend_zeros(bytes, n);
            lemma_be_value_bound(bytes);
        },
    }
}

/// Digits taken from a number spell that number again, least significant first.
pub proof fn lemma_le_digits_value(x: nat, n: nat)
    requires
        x < radix_pow(n),
    ensures
        digits_le(x, n).len() == n,
        le_value(digits_le(x, n)) == x,
    decreases n,
{
    if n > 0 {
        lemma_le_digits_value(x / 256, (n - 1) as nat);
        let digits = digits_le(x, n);
        assert(digits.drop_first() =~= digits_le(x / 256, (n - 1) as nat));
    }
}

/// Digits taken from a number spell that number again, most significant first.
pub proof fn lemma_be_digits_value(x: nat, n: nat)
    requires
        x < radix_pow(n),
    ensures
        digits_be(x, n).len() == n,
        be_value(digits_be(x, n)) == x,
    decreases n,
{
    if n > 0 {
        lemma_be_digits_value(x / 256, (n - 1) as nat);
        let digits = digits_be(x, n);
        assert(digits.drop_last() =~= digits_be(x / 256, (n - 1) as nat));
    }
}

/// Encoding a 64-bit value as eight bytes and reading the bytes back in the
/// same byte order gives the value again.
pub proof fn lemma_bytes_round_trip(v: u64)
    ensures
        le_bytes(v).len() == 8,
        be_bytes(v).len() == 8,
        le_value(le_bytes(v)) == v,
        be_value(be_bytes(v)) == v,
{
    lemma_radix_pow_eight();
    lemma_le_digits_value(v as nat, 8);
    lemma_be_digits_value(v as nat, 8);
}

/// A value reaches the upper half of its range exactly when its most
/// significant byte reaches 128. For eight bytes that is the top bit of the
/// word: the value reaches 2^63.
pub proof fn lemma_top_byte(bytes: Seq<u8>, endian: Endian)
    requires
        bytes.len() > 0,
    ensures
        word_value(bytes, endian) >= 128 * radix_pow((bytes.len() - 1) as nat) <==> most_significant(
            bytes,
            endian,
        ) >= 128,
        bytes.len() == 8 ==> 128 * radix_pow((bytes.len() - 1) as nat) == 0x8000_0000_0000_0000,
    decreases bytes.len(),
{
    reveal_with_fuel(radix_pow, 9);
    let rest = match endian {
        Endian::Little => bytes.drop_first(),
        Endian::Big => bytes.drop_last(),
    };
    if bytes.len() == 1 {
        assert(le_value(rest) == 0 && be_value(rest) == 0);
    } else {
        lemma_top_byte(rest, endian);
        let half = 128 * radix_pow((rest.len() - 1) as nat);
        assert(128 * radix_pow((bytes.len() - 1) as nat) == 256 * half);
        assert(most_significant(rest, endian) == most_significant(bytes, endian));
    }
}

/// Extends up to eight bytes to a 64-bit word, with zeros at the most
/// significant end. More than eight bytes do not fit and are refused.
pub fn pad_word(bytes: &[u8], endian: Endian) -> (r: Result<[u8; 8], CanError>)
    ensures
        r is Ok <==> bytes@.len() <= 8,
        r matches Ok(word) ==> word@ == padded(bytes@, endian),
        r matches Err(e) ==> e == CanError::Config,
{
    let n = bytes.len();
    if n > 8 {
        return Err(CanError::Config);
    }
    let shift: usize = match endian {
        Endian::Little => 0,
        Endian::Big => 8 - n,
    };
    let mut word: [u8; 8] = [0u8; 8];
    let mut k: usize = 0;
    while k < n
        invariant
            k <= n <= 8,
            n == bytes@.len(),
            shift + n <= 8,
            shift == (if endian == Endian::Little { 0 } else { 8 - n }),
            forall|j: int| 0 <= j < 8 && !(shift <= j < shift + k) ==> word@[j] == 0,
            forall|j: int| 0 <= j < k ==> word@[shift + j] == bytes@[j],
        decreases n - k,
    {
        word[shift + k] = bytes[k];
        k += 1;
    }
    assert(word@ =~= padded(bytes@, endian));
    Ok(word)
}

/// The unsigned 64-bit integer that eight bytes spell in the given byte order.
pub fn word_unsigned(word: &[u8; 8], endian: Endian) -> (v: u64)
    ensures
        v == word_value(word@, endian),
{
    let mut acc: u64 = 0;
    match endian {
        Endian::Big => {
            let mut k: usize = 0;
            while k < 8
                invariant
                    k <= 8,
                    acc == be_value(word@.take(k as int)),
                decreases 8 - k,
            {
                proof {
                    let head = word@.take(k as int);
                    let next = word@.take(k + 1);
                    assert(next.drop_last() =~= head);
                    lemma_be_value_bound(head);
                    lemma_radix_pow_monotonic((k + 1) as nat, 8);
                    lemma_radix_pow_eight();
                }
                acc = acc * 256 + word[k] as u64;
                k += 1;
            }
            assert(word@.take(8) =~= word@);
        },
        Endian::Little => {
            let mut k: usize = 8;
            while k > 0
                invariant
                    k <= 8,
                    acc == le_value(word@.skip(k as int)),
                decreases k,
            {
                proof {
                    let tail = word@.skip(k as int);
                    let next = word@.skip(k - 1);
                    assert(next.drop_first() =~= tail);
                    lemma_le_value_bound(tail);
                    lemma_radix_pow_monotonic((8 - k + 1) as nat, 8);
                    lemma_radix_pow_eight();
                }
                k -= 1;
                acc = acc * 256 + word[k] as u64;
            }
            assert(word@.skip(0) =~= word@);
        },
    }
    acc
}

/// Reads the bit pattern of `u` as a two's-complement signed integer.
pub fn signed_of(u: u64) -> (s: i64)
    ensures
        s == twos_complement(u as int),
{
    if u < 0x8000_0000_0000_0000 {
        u as i64
    } else {
        let low: u64 = u - 0x8000_0000_0000_0000;
        (low as i64) + i64::MIN
    }
}

} // verus!
