//! Signal extraction: a byte range of a payload, masked at its two ends, is
//! read as one unsigned and one signed 64-bit integer.

use vstd::prelude::*;
use crate::error::CanError;
use crate::hextext::{dump_text, lemma_dump_text_len, render_bytes};
use crate::word::{
    be_bytes, le_bytes, lemma_bytes_round_trip, lemma_padded_value, lemma_top_byte,
    most_significant, pad_word, padded, signed_of, twos_complement, word_unsigned, word_value,
    Endian,
};

verus! {

/// Which bytes of a payload make up the signal, and how they are read.
#[derive(Debug, Clone, Copy, PartialEq, Eq, Structural)]
pub struct ExtractionConfig {
    /// Byte order of the selected window.
    pub endian: Endian,
    /// Index of the first selected byte.
    pub start_byte: u8,
    /// Mask applied to the first selected byte.
    pub start_mask: u8,
    /// Index of the last selected byte; clamped to the end of the payload.
    pub end_byte: u8,
    /// Mask applied to the last selected byte.
    pub end_mask: u8,
}

/// What an extraction yields, before any scaling.
#[derive(Debug, Clone, PartialEq, Eq)]
pub struct Extraction {
    /// The masked selected bytes in payload order, as upper-case
    /// hexadecimal separated by spaces.
    pub selected_hex: String,
    /// The zero-extended window read as an unsigned integer.
    pub unsigned_value: u64,
    /// The same 64 bits read as a two's-complement signed integer.
    pub signed_value: i64,
}

/// Index of the last selected byte: the configured end, clamped to the last
/// byte of the payload.
pub open spec fn last_byte(payload: Seq<u8>, cfg: ExtractionConfig) -> int {
    if payload.len() - 1 < cfg.end_byte {
        payload.len() - 1
    } else {
        cfg.end_byte as int
    }
}

/// The byte at index `i` of the payload as it enters the signal: masked with
/// the start mask if it is the first selected byte, and with the end mask if
/// it is the last; with both, one after the other, if it is both.
pub open spec fn masked_byte(payload: Seq<u8>, cfg: ExtractionConfig, i: int) -> u8 {
    let b = payload[i];
    let b = if i == cfg.start_byte {
        b & cfg.start_mask
    } else {
        b
    };
    if i == last_byte(payload, cfg) {
        b & cfg.end_mask
    } else {
        b
    }
}

/// The masked bytes from the start byte to the last byte, in payload order.
pub open spec fn selected_bytes(payload: Seq<u8>, cfg: ExtractionConfig) -> Seq<u8> {
    if cfg.start_byte > last_byte(payload, cfg) {
        Seq::empty()
    } else {
        Seq::new(
            (last_byte(payload, cfg) - cfg.start_byte + 1) as nat,
            |k: int| masked_byte(payload, cfg, cfg.start_byte + k),
        )
    }
}

/// Why no bytes can be selected, if so: the payload is empty, or the start
/// byte lies beyond the last byte.
pub open spec fn selection_error(payload: Seq<u8>, cfg: ExtractionConfig) -> Option<CanError> {
    if payload.len() == 0 {
        Some(CanError::EmptyPayload)
    } else if cfg.start_byte > last_byte(payload, cfg) {
        Some(CanError::EmptySelection)
    } else {
        None
    }
}

/// Why no signal can be extracted, if so: no bytes can be selected, or more
/// than eight are.
pub open spec fn extraction_error(payload: Seq<u8>, cfg: ExtractionConfig) -> Option<CanError> {
    if selection_error(payload, cfg) is Some {
        selection_error(payload, cfg)
    } else if selected_bytes(payload, cfg).len() > 8 {
        Some(CanError::Config)
    } else {
        None
    }
}

/// The unsigned reading of the signal: the selected bytes, zero-extended to
/// eight bytes at the most significant end, in the configured byte order.
pub open spec fn raw_unsigned(payload: Seq<u8>, cfg: ExtractionConfig) -> nat {
    word_value(padded(selected_bytes(payload, cfg), cfg.endian), cfg.endian)
}

/// The signed reading of the signal: the same 64 bits in two's complement.
pub open spec fn raw_signed(payload: Seq<u8>, cfg: ExtractionConfig) -> int {
    twos_complement(raw_unsigned(payload, cfg) as int)
}

/// The eight bytes that encode `v` in the given byte order.
pub open spec fn encoded(v: u64, endian: Endian) -> Seq<u8> {
    match endian {
        Endian::Little => le_bytes(v),
        Endian::Big => be_bytes(v),
    }
}

/// Selects the bytes of the signal and masks the first and the last of them.
pub fn select_bytes(payload: &[u8], cfg: &ExtractionConfig) -> (r: Result<Vec<u8>, CanError>)
    ensures
        match r {
            Ok(selected) => {
                &&& selection_error(payload@, *cfg) is None
                &&& selected@ == selected_bytes(payload@, *cfg)
                &&& selected@.len() == last_byte(payload@, *cfg) - cfg.start_byte + 1
            },
            Err(e) => selection_error(payload@, *cfg) == Some(e),
        },
{
    let n = payload.len();
    if n == 0 {
        return Err(CanError::EmptyPayload);
    }
    let end = cfg.end_byte as usize;
    let last: usize = if n - 1 < end {
        n - 1
    } else {
        end
    };
    let start = cfg.start_byte as usize;
    if start > last {
        return Err(CanError::EmptySelection);
    }
    let mut selected: Vec<u8> = Vec::new();
    let mut i: usize = start;
    while i <= last
        invariant
            start <= i <= last + 1,
            last < n,
            last <= 255,
            n == payload@.len(),
            start == cfg.start_byte,
            last == last_byte(payload@, *cfg),
            selected@.len() == i - start,
            forall|k: int|
                0 <= k < i - start ==> selected@[k] == masked_byte(payload@, *cfg, start + k),
        decreases last + 1 - i,
    {
        let mut b = payload[i];
        if i == start {
            b = b & cfg.start_mask;
        }
        if i == last {
            b = b & cfg.end_mask;
        }
        selected.push(b);
        i += 1;
    }
    assert(selected@ =~= selected_bytes(payload@, *cfg));
    Ok(selected)
}

/// Extracts the signal that `cfg` describes from a payload.
///
/// Fails with `EmptyPayload` on a payload without bytes, with
/// `EmptySelection` where the start byte lies beyond the clamped end byte,
/// and with `Config` where more than eight bytes are selected.
pub fn extract(payload: &[u8], cfg: &ExtractionConfig) -> (r: Result<Extraction, CanError>)
    ensures
        match r {
            Ok(x) => {
                &&& extraction_error(payload@, *cfg) is None
                &&& x.selected_hex@ == dump_text(selected_bytes(payload@, *cfg))
                &&& x.selected_hex@.len() == 3 * (last_byte(payload@, *cfg) - cfg.start_byte + 1)
                    - 1
                &&& x.unsigned_value == raw_unsigned(payload@, *cfg)
                &&& x.unsigned_value == word_value(selected_bytes(payload@, *cfg), cfg.endian)
                &&& x.signed_value == raw_signed(payload@, *cfg)
            },
            Err(e) => extraction_error(payload@, *cfg) == Some(e),
        },
{
    let selected = match select_bytes(payload, cfg) {
        Ok(selected) => selected,
        Err(e) => {
            return Err(e);
        },
    };
    let word = match pad_word(selected.as_slice(), cfg.endian) {
        Ok(word) => word,
        Err(e) => {
            return Err(e);
        },
    };
    let unsigned_value = word_unsigned(&word, cfg.endian);
    let signed_value = signed_of(unsigned_value);
    let selected_hex = render_bytes(selected.as_slice());
    proof {
        lemma_padded_value(selected@, cfg.endian);
        lemma_dump_text_len(selected@);
    }
    Ok(Extraction { selected_hex, unsigned_value, signed_value })
}

/// A selection holds one byte for each index from the start byte to the last
/// byte, and its dump two digits for each of them with a space in between.
pub proof fn lemma_selected_count(payload: Seq<u8>, cfg: ExtractionConfig)
    requires
        selection_error(payload, cfg) is None,
    ensures
        selected_bytes(payload, cfg).len() == last_byte(payload, cfg) - cfg.start_byte + 1,
        dump_text(selected_bytes(payload, cfg)).len() == 3 * (last_byte(payload, cfg)
            - cfg.start_byte + 1) - 1,
{
    lemma_dump_text_len(selected_bytes(payload, cfg));
}

/// Masking is idempotent: a byte that was masked is not changed by the same
/// mask again.
pub proof fn lemma_mask_idempotent(b: u8, mask: u8)
    ensures
        (b & mask) & mask == b & mask,
{
    assert((b & mask) & mask == b & mask) by (bit_vector);
}

/// Selecting is idempotent: where a selection succeeds, selecting all of the
/// selected bytes again with the same two masks gives the same bytes.
pub proof fn lemma_selection_idempotent(payload: Seq<u8>, cfg: ExtractionConfig)
    requires
        selection_error(payload, cfg) is None,
    ensures
        ({
            let selected = selected_bytes(payload, cfg);
            let again = ExtractionConfig {
                start_byte: 0,
                end_byte: (selected.len() - 1) as u8,
                ..cfg
            };
            &&& selection_error(selected, again) is None
            &&& selected_bytes(selected, again) == selected
        }),
{
    let selected = selected_bytes(payload, cfg);
    let again = ExtractionConfig { start_byte: 0, end_byte: (selected.len() - 1) as u8, ..cfg };
    let start_mask = cfg.start_mask;
    let end_mask = cfg.end_mask;
    assert(last_byte(selected, again) == selected.len() - 1);
    assert forall|k: int| 0 <= k < selected.len() implies masked_byte(selected, again, k)
        == selected[k] by {
        let b = payload[cfg.start_byte + k];
        assert((b & start_mask) & start_mask == b & start_mask) by (bit_vector);
        assert((b & end_mask) & end_mask == b & end_mask) by (bit_vector);
        assert(((b & start_mask) & end_mask) & start_mask == (b & start_mask) & end_mask)
            by (bit_vector);
        assert((((b & start_mask) & end_mask) & start_mask) & end_mask == (b & start_mask)
            & end_mask) by (bit_vector);
    }
    assert(selected_bytes(selected, again) =~= selected);
}

/// With both masks all ones, a selection is the window of the payload from
/// the start byte to the last byte, unchanged.
pub proof fn lemma_unmasked_selection(payload: Seq<u8>, cfg: ExtractionConfig)
    requires
        selection_error(payload, cfg) is None,
        cfg.start_mask == 0xFF,
        cfg.end_mask == 0xFF,
    ensures
        selected_bytes(payload, cfg) == payload.subrange(
            cfg.start_byte as int,
            last_byte(payload, cfg) + 1,
        ),
{
    let window = payload.subrange(cfg.start_byte as int, last_byte(payload, cfg) + 1);
    assert forall|k: int| 0 <= k < window.len() implies masked_byte(
        payload,
        cfg,
        cfg.start_byte + k,
    ) == window[k] by {
        let b = payload[cfg.start_byte + k];
        assert(b & 0xFF == b) by (bit_vector);
    }
    assert(selected_bytes(payload, cfg) =~= window);
}

/// Byte-order round trip: a 64-bit value encoded as eight bytes and
/// extracted whole, unmasked, in the same byte order, is that value.
pub proof fn lemma_round_trip(v: u64, cfg: ExtractionConfig)
    requires
        cfg.start_byte == 0,
        cfg.end_byte >= 7,
        cfg.start_mask == 0xFF,
        cfg.end_mask == 0xFF,
    ensures
        extraction_error(encoded(v, cfg.endian), cfg) is None,
        raw_unsigned(encoded(v, cfg.endian), cfg) == v,
{
    let payload = encoded(v, cfg.endian);
    lemma_bytes_round_trip(v);
    lemma_unmasked_selection(payload, cfg);
    assert(payload.subrange(0, 8) =~= payload);
    lemma_padded_value(payload, cfg.endian);
}

/// Signed and unsigned readings of eight selected, unmasked bytes agree
/// exactly when the top bit of the word is clear; when it is set, the signed
/// reading is the unsigned one less 2^64. The top bit is bit 7 of the most
/// significant selected byte.
pub proof fn lemma_signed_unsigned(payload: Seq<u8>, cfg: ExtractionConfig)
    requires
        selection_error(payload, cfg) is None,
        selected_bytes(payload, cfg).len() == 8,
        cfg.start_mask == 0xFF,
        cfg.end_mask == 0xFF,
    ensures
        ({
            let window = payload.subrange(cfg.start_byte as int, cfg.start_byte + 8);
            let top_bit = most_significant(window, cfg.endian) & 0x80;
            &&& extraction_error(payload, cfg) is None
            &&& raw_signed(payload, cfg) == raw_unsigned(payload, cfg) <==> top_bit == 0
            &&& top_bit != 0 ==> raw_signed(payload, cfg) == raw_unsigned(payload, cfg)
                - 0x1_0000_0000_0000_0000
        }),
{
    let window = payload.subrange(cfg.start_byte as int, cfg.start_byte + 8);
    lemma_unmasked_selection(payload, cfg);
    lemma_padded_value(window, cfg.endian);
    lemma_top_byte(window, cfg.endian);
    let top = most_significant(window, cfg.endian);
    assert((top & 0x80 == 0) <==> top < 128) by (bit_vector);
}

} // verus!
