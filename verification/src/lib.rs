//! Binary framing for peer-to-peer messaging and file transfer.
//!
//! The crate serialises and parses single buffers: a variable-length integer
//! codec (`varint`), a versioned frame envelope bounded by a caller-supplied
//! payload ceiling (`frame`), the typed payloads carried inside a frame
//! (`payload`), the receipt of whole typed messages (`message`), and frames
//! sealed inside encrypted envelopes (`envelope`).
//!
//! Decoding tells "more bytes needed" apart from "corrupt": buffering, retry
//! and disconnect policy belong to the transport that calls in.

pub mod envelope;
pub mod frame;
pub mod message;
pub mod payload;
pub mod varint;
