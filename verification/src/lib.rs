//! Decoding of CAN-bus capture logs in the `candump` text format.
//!
//! A log line names a timestamp, an interface, a frame identifier and a
//! payload of up to eight bytes. This crate splits such lines, builds frames
//! from them, and reads a numeric signal out of a byte range of a payload:
//! the boundary bytes are masked, the window is zero-extended to 64 bits in
//! the chosen byte order, and the result is given both as an unsigned and as
//! a two's-complement signed integer.
//!
//! All text is handled as bytes. Linear scaling of the raw values is
//! floating-point work and is left to the caller.

pub mod error;
pub mod frame;
pub mod hextext;
pub mod line;
pub mod report;
pub mod signal;
pub mod word;

pub use error::{CanError, HexFault, HexField};
pub use frame::{parse_frame, CanFrame, Context};
pub use signal::{extract, Extraction, ExtractionConfig};
pub use word::Endian;
