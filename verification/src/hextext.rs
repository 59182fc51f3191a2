//! Hexadecimal text: decoding the hexadecimal fields of a log line, and
//! rendering bytes and frame identifiers as upper-case hexadecimal.

use vstd::prelude::*;
use vstd::string::*;
use crate::error::{CanError, HexFault, HexField};

verus! {

/// Whether `b` is one of `0`-`9`, `A`-`F`, `a`-`f`.
pub open spec fn is_hex_digit(b: u8) -> bool {
    (0x30 <= b <= 0x39) || (0x41 <= b <= 0x46) || (0x61 <= b <= 0x66)
}

/// The number from 0 to 15 that the hexadecimal digit `b` stands for.
pub open spec fn hex_digit_value(b: u8) -> int
    recommends
        is_hex_digit(b),
{
    if b <= 0x39 {
        b - 0x30
    } else if b <= 0x46 {
        b - 0x41 + 10
    } else {
        b - 0x61 + 10
    }
}

/// Whether `text` is an even number of hexadecimal digits.
pub open spec fn is_hex_text(text: Seq<u8>) -> bool {
    &&& text.len() % 2 == 0
    &&& forall|i: int| 0 <= i < text.len() ==> is_hex_digit(#[trigger] text[i])
}

/// The bytes that hexadecimal text spells, two digits to a byte, the high
/// digit first.
pub open spec fn hex_decoded(text: Seq<u8>) -> Seq<u8>
    recommends
        is_hex_text(text),
{
    Seq::new(
        text.len() / 2,
        |i: int| (16 * hex_digit_value(text[2 * i]) + hex_digit_value(text[2 * i + 1])) as u8,
    )
}

/// Whether `fault` is what stops the decoding of `text`: an odd length, or
/// else the first byte that is no hexadecimal digit.
pub open spec fn is_first_fault(text: Seq<u8>, fault: HexFault) -> bool {
    match fault {
        HexFault::OddLength => text.len() % 2 == 1,
        HexFault::InvalidCharacter { c, index } => {
            &&& text.len() % 2 == 0
            &&& index < text.len()
            &&& !is_hex_digit(text[index as int])
            &&& c == text[index as int] as char
            &&& forall|j: int| 0 <= j < index ==> is_hex_digit(#[trigger] text[j])
        },
        HexFault::InvalidLength => false,
    }
}

/// Text has at most one fault: an odd length comes before any byte, and of
/// the bytes only the first that is no digit counts.
pub proof fn lemma_first_fault_unique(text: Seq<u8>, one: HexFault, other: HexFault)
    requires
        is_first_fault(text, one),
        is_first_fault(text, other),
    ensures
        one == other,
        !is_hex_text(text),
{
}

/// Decodes hexadecimal text by a call of `hex::decode`.
///
/// Trusted, from the source of `hex`: the call fails on an odd number of
/// bytes; otherwise it reads the bytes in pairs from the left and fails on
/// the first byte that is not a digit or a letter `a`-`f` in either case,
/// reporting that byte and its index; otherwise each pair gives one byte,
/// sixteen times the first digit plus the second.
#[verifier::external_body]
pub(crate) fn decode_hex(text: &[u8]) -> (r: Result<Vec<u8>, HexFault>)
    ensures
        r is Ok <==> is_hex_text(text@),
        r matches Ok(bytes) ==> bytes@ == hex_decoded(text@),
        r matches Err(fault) ==> is_first_fault(text@, fault),
{
    match hex::decode(text) {
        Ok(bytes) => Ok(bytes),
        Err(hex::FromHexError::OddLength) => Err(HexFault::OddLength),
        Err(hex::FromHexError::InvalidHexCharacter { c, index }) => Err(
            HexFault::InvalidCharacter { c, index },
        ),
        Err(hex::FromHexError::InvalidStringLength) => Err(HexFault::InvalidLength),
    }
}

/// Decodes one hexadecimal field of a log line. A fault is reported together
/// with the field it was found in.
pub fn decode_field(text: &[u8], field: HexField) -> (r: Result<Vec<u8>, CanError>)
    ensures
        r is Ok <==> is_hex_text(text@),
        r matches Ok(bytes) ==> bytes@ == hex_decoded(text@),
        r matches Err(e) ==> (e matches CanError::HexDecode { field: f, fault } && f == field
            && is_first_fault(text@, fault)),
{
    match decode_hex(text) {
        Ok(bytes) => Ok(bytes),
        Err(fault) => Err(CanError::HexDecode { field, fault }),
    }
}

/// The upper-case hexadecimal digit for a number from 0 to 15.
pub open spec fn hex_char(n: int) -> char
    recommends
        0 <= n < 16,
{
    if n < 10 {
        (n + 0x30) as char
    } else {
        (n - 10 + 0x41) as char
    }
}

/// The two upper-case hexadecimal digits of a byte.
pub open spec fn byte_text(b: u8) -> Seq<char> {
    seq![hex_char(b as int / 16), hex_char(b as int % 16)]
}

/// Bytes as upper-case hexadecimal, two digits each, with one space between
/// neighbours.
pub open spec fn dump_text(bytes: Seq<u8>) -> Seq<char>
    decreases bytes.len(),
{
    if bytes.len() == 0 {
        Seq::empty()
    } else if bytes.len() == 1 {
        byte_text(bytes[0])
    } else {
        dump_text(bytes.drop_last()) + seq![' '] + byte_text(bytes.last())
    }
}

/// The `width` low-order hexadecimal digits of `value`, most significant
/// first, in upper case.
pub open spec fn hex_digits(value: nat, width: nat) -> Seq<char>
    decreases width,
{
    if width == 0 {
        Seq::empty()
    } else {
        hex_digits(value / 16, (width - 1) as nat) + seq![hex_char((value % 16) as int)]
    }
}

/// A frame identifier as it is printed: identifiers up to `0x7FF` as three
/// digits behind five spaces, larger ones as eight digits.
pub open spec fn id_text(id: u32) -> Seq<char> {
    if id <= 0x7FF {
        seq![' ', ' ', ' ', ' ', ' '] + hex_digits(id as nat, 3)
    } else {
        hex_digits(id as nat, 8)
    }
}

/// A dump holds two digits for each byte and a space between neighbours.
pub proof fn lemma_dump_text_len(bytes: Seq<u8>)
    ensures
        dump_text(bytes).len() == if bytes.len() == 0 {
            0
        } else {
            3 * bytes.len() - 1
        },
    decreases bytes.len(),
{
    if bytes.len() > 1 {
        lemma_dump_text_len(bytes.drop_last());
    }
}

/// The upper-case hexadecimal digit for `n`, as text.
fn digit_str(n: u8) -> (s: &'static str)
    requires
        n < 16,
    ensures
        s@ == seq![hex_char(n as int)],
{
    let digits = "0123456789ABCDEF";
    proof {
        reveal_strlit("0123456789ABCDEF");
        assert(digits@[n as int] == hex_char(n as int));
        assert(is_ascii(digits));
    }
    let s = digits.substring_ascii(n as usize, n as usize + 1);
    assert(s@ =~= seq![hex_char(n as int)]);
    s
}

/// Appends the two digits of a byte.
fn push_byte(out: &mut String, b: u8)
    ensures
        final(out)@ == old(out)@ + byte_text(b),
{
    out.append(digit_str(b / 16));
    out.append(digit_str(b % 16));
    assert(out@ =~= old(out)@ + byte_text(b));
}

/// Appends the `width` low-order digits of `value`, most significant first.
fn push_hex_digits(out: &mut String, value: u32, width: usize)
    ensures
        final(out)@ == old(out)@ + hex_digits(value as nat, width as nat),
    decreases width,
{
    if width > 0 {
        push_hex_digits(out, value / 16, width - 1);
        out.append(digit_str((value % 16) as u8));
        assert(out@ =~= old(out)@ + hex_digits(value as nat, width as nat));
    } else {
        assert(out@ =~= old(out)@ + hex_digits(value as nat, width as nat));
    }
}

/// Renders bytes as upper-case hexadecimal, two digits each, separated by
/// single spaces.
pub fn render_bytes(bytes: &[u8]) -> (text: String)
    ensures
        text@ == dump_text(bytes@),
{
    let mut text = String::new();
    let mut k: usize = 0;
    while k < bytes.len()
        invariant
            k <= bytes@.len(),
            text@ == dump_text(bytes@.take(k as int)),
        decreases bytes@.len() - k,
    {
        if k > 0 {
            text.append(" ");
            proof {
                reveal_strlit(" ");
                assert(" "@ =~= seq![' ']);
            }
        }
        push_byte(&mut text, bytes[k]);
        proof {
            let next = bytes@.take(k + 1);
            assert(next.drop_last() =~= bytes@.take(k as int));
        }
        k += 1;
    }
    assert(bytes@.take(k as int) =~= bytes@);
    text
}

/// Renders a frame identifier: a standard identifier (up to `0x7FF`) as
/// three digits, right-justified in a field of eight, an extended one as
/// eight digits.
pub fn render_id(id: u32) -> (text: String)
    ensures
        text@ == id_text(id),
{
    let mut text = String::new();
    if id <= 0x7FF {
        text.append("     ");
        proof {
            reveal_strlit("     ");
            assert("     "@ =~= seq![' ', ' ', ' ', ' ', ' ']);
        }
        push_hex_digits(&mut text, id, 3);
    } else {
        push_hex_digits(&mut text, id, 8);
    }
    text
}

} // verus!
