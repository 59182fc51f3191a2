//! The text of a log line: `(<timestamp>) <device> <id>#<payload>`.
//!
//! A line is split at its delimiters into four fields of bytes. The
//! timestamp ends at the first `)`, the device name at the first space
//! behind it, and the identifier at the first `#` behind that; the payload
//! is the rest of the line and may be empty.

use vstd::prelude::*;
use vstd::slice::{slice_subrange, slice_to_vec};
use crate::error::CanError;

verus! {

/// The byte `(`, which opens the timestamp.
pub const PAREN_OPEN: u8 = 0x28;

/// The byte `)`, which closes the timestamp.
pub const PAREN_CLOSE: u8 = 0x29;

/// The space, which stands before and behind the device name.
pub const SPACE: u8 = 0x20;

/// The byte `#`, which parts the identifier from the payload.
pub const HASH: u8 = 0x23;

/// The digit `0`.
pub const DIGIT_ZERO: u8 = 0x30;

/// The four fields of a log line, as they stand in the line.
#[derive(Debug, Clone, PartialEq, Eq)]
pub struct LineFields {
    /// The text between the parentheses.
    pub timestamp: Vec<u8>,
    /// The interface name.
    pub device: Vec<u8>,
    /// The identifier, in hexadecimal, as logged.
    pub id: Vec<u8>,
    /// The payload, in hexadecimal.
    pub payload: Vec<u8>,
}

/// The four fields of a log line as sequences of bytes.
pub struct FieldsView {
    pub timestamp: Seq<u8>,
    pub device: Seq<u8>,
    pub id: Seq<u8>,
    pub payload: Seq<u8>,
}

impl FieldsView {
    /// The line that is made of the four fields and the delimiters between
    /// them.
    pub open spec fn text(self) -> Seq<u8> {
        seq![PAREN_OPEN] + self.timestamp + seq![PAREN_CLOSE, SPACE] + self.device + seq![SPACE]
            + self.id + seq![HASH] + self.payload
    }

    /// What the first three fields have to meet: none is empty, and none
    /// holds the delimiter that ends it.
    pub open spec fn valid(self) -> bool {
        &&& self.timestamp.len() > 0
        &&& !self.timestamp.contains(PAREN_CLOSE)
        &&& self.device.len() > 0
        &&& !self.device.contains(SPACE)
        &&& self.id.len() > 0
        &&& !self.id.contains(HASH)
    }

    /// Index of the `)` in the line.
    pub open spec fn close(self) -> int {
        self.timestamp.len() + 1int
    }

    /// Index of the space behind the device name in the line.
    pub open spec fn space(self) -> int {
        self.close() + 2 + self.device.len()
    }

    /// Index of the `#` in the line.
    pub open spec fn hash(self) -> int {
        self.space() + 1 + self.id.len()
    }
}

impl View for LineFields {
    type V = FieldsView;

    open spec fn view(&self) -> FieldsView {
        FieldsView {
            timestamp: self.timestamp@,
            device: self.device@,
            id: self.id@,
            payload: self.payload@,
        }
    }
}

/// Whether `line` is a log line: the text of four fields, the first three
/// of them valid.
pub open spec fn is_log_line(line: Seq<u8>) -> bool {
    exists|fields: FieldsView| #[trigger] fields.valid() && line == fields.text()
}

/// The fields of a log line.
pub open spec fn fields_of(line: Seq<u8>) -> FieldsView
    recommends
        is_log_line(line),
{
    choose|fields: FieldsView| #[trigger] fields.valid() && line == fields.text()
}

/// Whether `at` is the index of the first `target` in `line` at or behind
/// `from`, or the length of the line if there is none.
pub open spec fn first_at(line: Seq<u8>, from: int, target: u8, at: int) -> bool {
    &&& from <= at <= line.len()
    &&& forall|j: int| from <= j < at ==> line[j] != target
    &&& at < line.len() ==> line[at] == target
}

/// An identifier extended with leading `0` digits to eight digits; one of
/// eight or more is left as it is.
pub open spec fn padded_id(id: Seq<u8>) -> Seq<u8> {
    if id.len() < 8 {
        Seq::new((8 - id.len()) as nat, |i: int| DIGIT_ZERO) + id
    } else {
        id
    }
}

/// Where the delimiters of a log line stand, and what lies between them.
pub proof fn lemma_line_layout(fields: FieldsView)
    requires
        fields.valid(),
    ensures
        ({
            let line = fields.text();
            let close = fields.close();
            let space = fields.space();
            let hash = fields.hash();
            &&& line.len() == hash + 1 + fields.payload.len()
            &&& line[0] == PAREN_OPEN
            &&& first_at(line, 1, PAREN_CLOSE, close)
            &&& line[close + 1] == SPACE
            &&& first_at(line, close + 2, SPACE, space)
            &&& first_at(line, space + 1, HASH, hash)
            &&& line.subrange(1, close) == fields.timestamp
            &&& line.subrange(close + 2, space) == fields.device
            &&& line.subrange(space + 1, hash) == fields.id
            &&& line.subrange(hash + 1, line.len() as int) == fields.payload
        }),
{
    let line = fields.text();
    let close = fields.close();
    let space = fields.space();
    let hash = fields.hash();
    assert forall|j: int| 1 <= j < close implies line[j] != PAREN_CLOSE by {
        assert(line[j] == fields.timestamp[j - 1]);
        assert(fields.timestamp.contains(fields.timestamp[j - 1]));
    }
    assert forall|j: int| close + 2 <= j < space implies line[j] != SPACE by {
        assert(line[j] == fields.device[j - close - 2]);
        assert(fields.device.contains(fields.device[j - close - 2]));
    }
    assert forall|j: int| space + 1 <= j < hash implies line[j] != HASH by {
        assert(line[j] == fields.id[j - space - 1]);
        assert(fields.id.contains(fields.id[j - space - 1]));
    }
    assert(line.subrange(1, close) =~= fields.timestamp);
    assert(line.subrange(close + 2, space) =~= fields.device);
    assert(line.subrange(space + 1, hash) =~= fields.id);
    assert(line.subrange(hash + 1, line.len() as int) =~= fields.payload);
}

/// The first occurrence of a byte behind a given index is unique.
pub proof fn lemma_first_at_unique(line: Seq<u8>, from: int, target: u8, a: int, b: int)
    requires
        first_at(line, from, target, a),
        first_at(line, from, target, b),
    ensures
        a == b,
{
}

/// A log line splits into its fields in one way only.
pub proof fn lemma_split_unique(one: FieldsView, other: FieldsView)
    requires
        one.valid(),
        other.valid(),
        one.text() == other.text(),
    ensures
        one == other,
{
    let line = one.text();
    lemma_line_layout(one);
    lemma_line_layout(other);
    lemma_first_at_unique(line, 1, PAREN_CLOSE, one.close(), other.close());
    lemma_first_at_unique(line, one.close() + 2, SPACE, one.space(), other.space());
    lemma_first_at_unique(line, one.space() + 1, HASH, one.hash(), other.hash());
}

/// Valid fields are the fields of their own text.
pub proof fn lemma_fields_of_text(fields: FieldsView)
    requires
        fields.valid(),
    ensures
        is_log_line(fields.text()),
        fields_of(fields.text()) == fields,
{
    lemma_split_unique(fields, fields_of(fields.text()));
}

/// Finds the first `target` in `line` at or behind `from`.
fn find_byte(line: &[u8], from: usize, target: u8) -> (at: usize)
    requires
        from <= line@.len(),
    ensures
        first_at(line@, from as int, target, at as int),
{
    let mut at: usize = from;
    while at < line.len() && line[at] != target
        invariant
            from <= at <= line@.len(),
            forall|j: int| from <= j < at ==> line@[j] != target,
        decreases line@.len() - at,
    {
        at += 1;
    }
    at
}

/// Splits a log line into its four fields.
///
/// A line that is not of the form `(<timestamp>) <device> <id>#<payload>`,
/// with the first three fields non-empty, is refused as `MalformedLine`.
pub fn split_line(line: &[u8]) -> (r: Result<LineFields, CanError>)
    ensures
        r is Ok <==> is_log_line(line@),
        r matches Ok(fields) ==> fields@.valid() && line@ == fields@.text() && fields@
            == fields_of(line@),
        r matches Err(e) ==> e == CanError::MalformedLine,
{
    let n = line.len();
    if n == 0 || line[0] != PAREN_OPEN {
        proof {
            lemma_no_split(line@, 0, 0, 0);
        }
        return Err(CanError::MalformedLine);
    }
    let close = find_byte(line, 1, PAREN_CLOSE);
    if close <= 1 || n - close < 2 || line[close + 1] != SPACE {
        proof {
            lemma_no_split(line@, close as int, 0, 0);
        }
        return Err(CanError::MalformedLine);
    }
    let space = find_byte(line, close + 2, SPACE);
    if space == close + 2 || space >= n {
        proof {
            lemma_no_split(line@, close as int, space as int, 0);
        }
        return Err(CanError::MalformedLine);
    }
    let hash = find_byte(line, space + 1, HASH);
    if hash == space + 1 || hash >= n {
        proof {
            lemma_no_split(line@, close as int, space as int, hash as int);
        }
        return Err(CanError::MalformedLine);
    }
    let fields = LineFields {
        timestamp: slice_to_vec(slice_subrange(line, 1, close)),
        device: slice_to_vec(slice_subrange(line, close + 2, space)),
        id: slice_to_vec(slice_subrange(line, space + 1, hash)),
        payload: slice_to_vec(slice_subrange(line, hash + 1, n)),
    };
    proof {
        let timestamp = fields.timestamp@;
        let device = fields.device@;
        let id = fields.id@;
        assert forall|i: int| 0 <= i < timestamp.len() implies timestamp[i] != PAREN_CLOSE by {
            assert(timestamp[i] == line@[1 + i]);
        }
        assert forall|i: int| 0 <= i < device.len() implies device[i] != SPACE by {
            assert(device[i] == line@[close + 2 + i]);
        }
        assert forall|i: int| 0 <= i < id.len() implies id[i] != HASH by {
            assert(id[i] == line@[space + 1 + i]);
        }
        assert(line@ =~= fields@.text());
        lemma_fields_of_text(fields@);
    }
    Ok(fields)
}

/// A line is no log line if the scan for its delimiters fails at any stage:
/// at the opening parenthesis, at the first `)` (found at `close`), at the
/// space behind the device name (found at `space`), or at the `#` (found at
/// `hash`). A stage that was not reached is given as 0.
proof fn lemma_no_split(line: Seq<u8>, close: int, space: int, hash: int)
    requires
        ({
            ||| line.len() == 0 || line[0] != PAREN_OPEN
            ||| {
                &&& first_at(line, 1, PAREN_CLOSE, close)
                &&& (close <= 1 || line.len() - close < 2 || line[close + 1] != SPACE)
            }
            ||| {
                &&& first_at(line, 1, PAREN_CLOSE, close)
                &&& first_at(line, close + 2, SPACE, space)
                &&& (space == close + 2 || space >= line.len())
            }
            ||| {
                &&& first_at(line, 1, PAREN_CLOSE, close)
                &&& first_at(line, close + 2, SPACE, space)
                &&& first_at(line, space + 1, HASH, hash)
                &&& (hash == space + 1 || hash >= line.len())
            }
        }),
    ensures
        !is_log_line(line),
{
    assert forall|fields: FieldsView| #[trigger] fields.valid() implies line != fields.text() by {
        if line == fields.text() {
            lemma_line_layout(fields);
            if first_at(line, 1, PAREN_CLOSE, close) {
                lemma_first_at_unique(line, 1, PAREN_CLOSE, close, fields.close());
                if first_at(line, close + 2, SPACE, space) {
                    lemma_first_at_unique(line, close + 2, SPACE, space, fields.space());
                    if first_at(line, space + 1, HASH, hash) {
                        lemma_first_at_unique(line, space + 1, HASH, hash, fields.hash());
                    }
                }
            }
            assert(false);
        }
    }
}

/// Extends an identifier of fewer than eight digits with leading `0` digits
/// to eight, so that its hexadecimal decoding gives four bytes.
pub fn pad_id(id: &[u8]) -> (out: Vec<u8>)
    ensures
        out@ == padded_id(id@),
{
    let n = id.len();
    let mut out: Vec<u8> = Vec::new();
    if n < 8 {
        let mut k: usize = n;
        while k < 8
            invariant
                n <= k <= 8,
                out@.len() == k - n,
                forall|i: int| 0 <= i < out@.len() ==> out@[i] == DIGIT_ZERO,
            decreases 8 - k,
        {
            out.push(DIGIT_ZERO);
            k += 1;
        }
    }
    let ghost zeros = out@;
    let mut i: usize = 0;
    while i < n
        invariant
            i <= n,
            n == id@.len(),
            out@ == zeros + id@.take(i as int),
        decreases n - i,
    {
        out.push(id[i]);
        assert(id@.take(i + 1) =~= id@.take(i as int).push(id@[i as int]));
        i += 1;
    }
    assert(id@.take(n as int) =~= id@);
    assert(out@ =~= padded_id(id@));
    out
}

} // verus!
