//! Frames: one logged CAN message with its decoded identifier and payload,
//! and the ordered collection of the frames of a log.

use vstd::prelude::*;
use crate::error::{CanError, HexFault, HexField};
use crate::hextext::{
    decode_field, dump_text, hex_decoded, id_text, is_first_fault, is_hex_text, render_id,
};
use crate::line::{fields_of, is_log_line, pad_id, padded_id, split_line};
use crate::signal::{
    extract, extraction_error, last_byte, raw_signed, raw_unsigned, selected_bytes, Extraction,
    ExtractionConfig,
};
use crate::word::{
    be_value, lemma_padded_value, lemma_radix_pow_eight, pad_word, word_unsigned, Endian,
};

verus! {

/// One frame of a log. It is built once and not changed afterwards.
#[derive(Debug, Clone, PartialEq, Eq)]
pub struct CanFrame {
    timestamp: Vec<u8>,
    device: Vec<u8>,
    id: u32,
    data: Vec<u8>,
}

/// A frame as plain values.
pub struct FrameView {
    /// The timestamp as logged: the text between the parentheses.
    pub timestamp: Seq<u8>,
    /// The name of the interface that the frame was seen on.
    pub device: Seq<u8>,
    /// The CAN identifier.
    pub id: u32,
    /// The payload bytes.
    pub data: Seq<u8>,
}

impl View for CanFrame {
    type V = FrameView;

    closed spec fn view(&self) -> FrameView {
        FrameView {
            timestamp: self.timestamp@,
            device: self.device@,
            id: self.id,
            data: self.data@,
        }
    }
}

/// Whether `id` is the text of an identifier: eight hexadecimal digits.
pub open spec fn is_id_text(id: Seq<u8>) -> bool {
    is_hex_text(id) && id.len() == 8
}

/// The frame that four fields give: the identifier is the big-endian value
/// of the four bytes that its eight digits spell, the data are the bytes
/// that the payload digits spell.
pub open spec fn frame_of(
    timestamp: Seq<u8>,
    device: Seq<u8>,
    id: Seq<u8>,
    payload: Seq<u8>,
) -> FrameView
    recommends
        is_id_text(id),
        is_hex_text(payload),
{
    FrameView { timestamp, device, id: be_value(hex_decoded(id)) as u32, data: hex_decoded(payload) }
}

/// Whether `e` is the error that stops a frame from being built: the fault
/// in the identifier, be it in its digits or in their number, or else the
/// fault in the payload.
pub open spec fn is_frame_error(id: Seq<u8>, payload: Seq<u8>, e: CanError) -> bool {
    match e {
        CanError::HexDecode { field: HexField::Id, fault } => {
            if is_hex_text(id) {
                id.len() != 8 && fault == HexFault::InvalidLength
            } else {
                is_first_fault(id, fault)
            }
        },
        CanError::HexDecode { field: HexField::Payload, fault } => {
            is_id_text(id) && is_first_fault(payload, fault)
        },
        _ => false,
    }
}

/// Whether a frame can be built from `line`: it is a log line, its
/// identifier, padded to eight digits, is hexadecimal, and so is its payload.
pub open spec fn is_frame_line(line: Seq<u8>) -> bool {
    &&& is_log_line(line)
    &&& is_id_text(padded_id(fields_of(line).id))
    &&& is_hex_text(fields_of(line).payload)
}

/// The frame that a line gives.
pub open spec fn line_frame(line: Seq<u8>) -> FrameView
    recommends
        is_frame_line(line),
{
    let fields = fields_of(line);
    frame_of(fields.timestamp, fields.device, padded_id(fields.id), fields.payload)
}

/// Whether `e` is the error that stops a frame from being built from `line`.
pub open spec fn is_line_error(line: Seq<u8>, e: CanError) -> bool {
    if is_log_line(line) {
        is_frame_error(padded_id(fields_of(line).id), fields_of(line).payload, e)
    } else {
        e == CanError::MalformedLine
    }
}

impl CanFrame {
    /// Builds a frame from the fields of a log line. The identifier is
    /// given with its eight digits, padded where the log has fewer.
    ///
    /// Fails where the identifier or the payload is not hexadecimal text,
    /// and where the identifier does not decode to four bytes.
    pub fn new(timestamp: Vec<u8>, device: Vec<u8>, id: &[u8], data: &[u8]) -> (r: Result<
        CanFrame,
        CanError,
    >)
        ensures
            r is Ok <==> is_id_text(id@) && is_hex_text(data@),
            r matches Ok(frame) ==> frame@ == frame_of(timestamp@, device@, id@, data@),
            r matches Err(e) ==> is_frame_error(id@, data@, e),
    {
        let id_bytes = match decode_field(id, HexField::Id) {
            Ok(bytes) => bytes,
            Err(e) => {
                return Err(e);
            },
        };
        if id_bytes.len() != 4 {
            return Err(CanError::HexDecode { field: HexField::Id, fault: HexFault::InvalidLength });
        }
        let word = match pad_word(id_bytes.as_slice(), Endian::Big) {
            Ok(word) => word,
            Err(e) => {
                return Err(e);
            },
        };
        let value = word_unsigned(&word, Endian::Big);
        proof {
            lemma_padded_value(id_bytes@, Endian::Big);
            lemma_radix_pow_eight();
        }
        let payload = match decode_field(data, HexField::Payload) {
            Ok(bytes) => bytes,
            Err(e) => {
                return Err(e);
            },
        };
        Ok(CanFrame { timestamp, device, id: value as u32, data: payload })
    }

    /// The timestamp as logged: the text between the parentheses.
    pub fn timestamp(&self) -> (timestamp: &[u8])
        ensures
            timestamp@ == self@.timestamp,
    {
        self.timestamp.as_slice()
    }

    /// The name of the interface that the frame was seen on.
    pub fn device(&self) -> (device: &[u8])
        ensures
            device@ == self@.device,
    {
        self.device.as_slice()
    }

    /// The CAN identifier.
    pub fn id(&self) -> (id: u32)
        ensures
            id == self@.id,
    {
        self.id
    }

    /// The payload bytes.
    pub fn data(&self) -> (data: &[u8])
        ensures
            data@ == self@.data,
    {
        self.data.as_slice()
    }

    /// The identifier as it is printed: three digits behind five spaces for
    /// a standard identifier, eight digits for an extended one.
    pub fn id_field(&self) -> (text: String)
        ensures
            text@ == id_text(self@.id),
    {
        render_id(self.id)
    }

    /// Whether the frame passes an identifier filter: any frame passes the
    /// absent filter, and a given identifier passes the frames that have it.
    pub fn matches(&self, filter: Option<u32>) -> (r: bool)
        ensures
            r == (filter matches Some(id) ==> id == self@.id),
    {
        match filter {
            Some(id) => id == self.id,
            None => true,
        }
    }

    /// Extracts the signal that `cfg` describes from the payload of the frame.
    pub fn extract(&self, cfg: &ExtractionConfig) -> (r: Result<Extraction, CanError>)
        ensures
            match r {
                Ok(x) => {
                    &&& extraction_error(self@.data, *cfg) is None
                    &&& x.selected_hex@ == dump_text(selected_bytes(self@.data, *cfg))
                    &&& x.selected_hex@.len() == 3 * (last_byte(self@.data, *cfg) - cfg.start_byte
                        + 1) - 1
                    &&& x.unsigned_value == raw_unsigned(self@.data, *cfg)
                    &&& x.signed_value == raw_signed(self@.data, *cfg)
                },
                Err(e) => extraction_error(self@.data, *cfg) == Some(e),
            },
    {
        extract(self.data.as_slice(), cfg)
    }
}

/// Builds the frame of a log line: splits the line, pads the identifier to
/// eight digits and decodes the two hexadecimal fields.
pub fn parse_frame(line: &[u8]) -> (r: Result<CanFrame, CanError>)
    ensures
        r is Ok <==> is_frame_line(line@),
        r matches Ok(frame) ==> frame@ == line_frame(line@),
        r matches Err(e) ==> is_line_error(line@, e),
{
    let fields = match split_line(line) {
        Ok(fields) => fields,
        Err(e) => {
            return Err(e);
        },
    };
    let id = pad_id(fields.id.as_slice());
    CanFrame::new(fields.timestamp, fields.device, id.as_slice(), fields.payload.as_slice())
}

/// The frames of a log, in the order of their lines. Frames are appended
/// and read, never changed or removed.
#[derive(Debug, Clone, PartialEq, Eq)]
pub struct Context {
    frames: Vec<CanFrame>,
}

impl View for Context {
    type V = Seq<FrameView>;

    closed spec fn view(&self) -> Seq<FrameView> {
        Seq::new(self.frames@.len(), |i: int| self.frames@[i]@)
    }
}

impl Context {
    /// A collection without frames.
    pub fn new() -> (context: Context)
        ensures
            context@ == Seq::<FrameView>::empty(),
    {
        let context = Context { frames: Vec::with_capacity(100000) };
        assert(context@ =~= Seq::<FrameView>::empty());
        context
    }

    /// The number of frames.
    pub fn len(&self) -> (n: usize)
        ensures
            n == self@.len(),
    {
        self.frames.len()
    }

    /// The frames, in the order in which they were appended.
    pub fn frames(&self) -> (frames: &[CanFrame])
        ensures
            frames@.len() == self@.len(),
            forall|i: int| 0 <= i < frames@.len() ==> (#[trigger] frames@[i])@ == self@[i],
    {
        self.frames.as_slice()
    }

    /// Appends a frame.
    pub fn push(&mut self, frame: CanFrame)
        ensures
            final(self)@ == old(self)@.push(frame@),
    {
        self.frames.push(frame);
        assert(self@ =~= old(self)@.push(frame@));
    }

    /// Appends the frame of a log line. A line that gives no frame leaves
    /// the collection as it was.
    pub fn push_line(&mut self, line: &[u8]) -> (r: Result<(), CanError>)
        ensures
            r is Ok <==> is_frame_line(line@),
            r is Ok ==> final(self)@ == old(self)@.push(line_frame(line@)),
            r matches Err(e) ==> is_line_error(line@, e) && final(self)@ == old(self)@,
    {
        match parse_frame(line) {
            Ok(frame) => {
                self.push(frame);
                Ok(())
            },
            Err(e) => Err(e),
        }
    }
}

} // verus!
