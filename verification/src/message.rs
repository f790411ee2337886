//! Receiving whole messages: one encoded frame in, one typed value out.
//!
//! Every function here decodes the frame under the same payload ceiling,
//! checks that it is of the kind asked for, and then reads its payload.

use crate::frame::{
    decode_v1, frame_bytes, lemma_decode_encoded, parse_frame, DecodeError, FrameType, FrameView,
};
use crate::payload::{
    decode_file_accept_payload_v1, decode_file_chunk_payload_v1, decode_file_end_payload_v1,
    decode_file_offer_payload_v1, decode_file_reject_payload_v1, file_chunk_payload,
    file_id_payload, file_offer_payload, file_reject_payload, lemma_file_chunk_round_trip,
    lemma_file_id_round_trip, lemma_file_offer_round_trip, lemma_file_reject_round_trip,
    parse_file_chunk, parse_file_id, parse_file_offer, parse_file_reject, plain_frame, text_fits,
    FileChunk, FileChunkView, FileOffer, FileOfferView, FileReject, FileRejectView,
};
use vstd::prelude::*;
use vstd::utf8::{
    decode_utf8, encode_utf8, encode_utf8_decode_utf8, encode_utf8_valid_utf8, valid_utf8,
};

verus! {

/// The payload ceiling under which whole messages are decoded: one mebibyte.
pub const MAX_PAYLOAD_LEN: u32 = 0x10_0000;

/// Why a message was not received, or an envelope not sealed or opened.
#[derive(Debug, Clone, Copy, PartialEq, Eq, Structural)]
pub enum MessageError {
    /// The frame itself did not decode.
    Frame(DecodeError),
    /// The frame decoded, but is of another kind than `expected`.
    WrongType { expected: FrameType },
    /// The frame is of the right kind, but its payload did not decode.
    Payload(DecodeError),
    /// The payload of a chat frame is not UTF-8.
    PayloadNotUtf8,
    /// The key is not 32 bytes long.
    KeyLength,
    /// The nonce is not 24 bytes long.
    NonceLength,
    /// The system's random source gave no nonce.
    RandomUnavailable,
    /// The cipher refused to encrypt.
    EncryptFailed,
    /// The cipher refused to decrypt: wrong key or nonce, or altered bytes.
    DecryptFailed,
}

/// The payload of the frame at the front of `input`, if that frame decodes
/// under the ceiling and is of kind `expected`.
pub open spec fn parse_payload_of(input: Seq<u8>, expected: FrameType) -> Result<
    Seq<u8>,
    MessageError,
> {
    match parse_frame(input, MAX_PAYLOAD_LEN) {
        Err(e) => Err(MessageError::Frame(e)),
        Ok((frame, _)) => if frame.frame_type != expected {
            Err(MessageError::WrongType { expected })
        } else {
            Ok(frame.payload)
        },
    }
}

/// The tag of the frame at the front of `input`.
pub open spec fn parse_frame_type(input: Seq<u8>) -> Result<u8, MessageError> {
    match parse_frame(input, MAX_PAYLOAD_LEN) {
        Err(e) => Err(MessageError::Frame(e)),
        Ok((frame, _)) => Ok(frame.frame_type.tag()),
    }
}

/// The text of the chat frame at the front of `input`.
pub open spec fn parse_chat_text(input: Seq<u8>) -> Result<Seq<char>, MessageError> {
    match parse_payload_of(input, FrameType::ChatText) {
        Err(e) => Err(e),
        Ok(payload) => if valid_utf8(payload) {
            Ok(decode_utf8(payload))
        } else {
            Err(MessageError::PayloadNotUtf8)
        },
    }
}

/// The offer in the file-offer frame at the front of `input`.
pub open spec fn parse_file_offer_message(input: Seq<u8>) -> Result<FileOfferView, MessageError> {
    match parse_payload_of(input, FrameType::FileOffer) {
        Err(e) => Err(e),
        Ok(payload) => match parse_file_offer(payload) {
            Err(e) => Err(MessageError::Payload(e)),
            Ok(offer) => Ok(offer),
        },
    }
}

/// The id in the frame of kind `kind`, a file acceptance or a file end, at
/// the front of `input`.
pub open spec fn parse_file_id_message(input: Seq<u8>, kind: FrameType) -> Result<
    Seq<char>,
    MessageError,
> {
    match parse_payload_of(input, kind) {
        Err(e) => Err(e),
        Ok(payload) => match parse_file_id(payload) {
            Err(e) => Err(MessageError::Payload(e)),
            Ok(id) => Ok(id),
        },
    }
}

/// The refusal in the file-reject frame at the front of `input`.
pub open spec fn parse_file_reject_message(input: Seq<u8>) -> Result<
    FileRejectView,
    MessageError,
> {
    match parse_payload_of(input, FrameType::FileReject) {
        Err(e) => Err(e),
        Ok(payload) => match parse_file_reject(payload) {
            Err(e) => Err(MessageError::Payload(e)),
            Ok(reject) => Ok(reject),
        },
    }
}

/// The chunk in the file-chunk frame at the front of `input`.
pub open spec fn parse_file_chunk_message(input: Seq<u8>) -> Result<FileChunkView, MessageError> {
    match parse_payload_of(input, FrameType::FileChunk) {
        Err(e) => Err(e),
        Ok(payload) => match parse_file_chunk(payload) {
            Err(e) => Err(MessageError::Payload(e)),
            Ok(chunk) => Ok(chunk),
        },
    }
}

/// Decodes the frame at the front of `bytes` and hands out its payload if
/// the frame is of kind `expected`.
pub fn decode_payload_of(bytes: &[u8], expected: FrameType) -> (result: Result<
    Vec<u8>,
    MessageError,
>)
    ensures
        match parse_payload_of(bytes@, expected) {
            Ok(payload) => result matches Ok(p) && p@ == payload,
            Err(e) => result == Err::<Vec<u8>, MessageError>(e),
        },
{
    let (frame, _) = match decode_v1(bytes, MAX_PAYLOAD_LEN) {
        Ok(pair) => pair,
        Err(e) => return Err(MessageError::Frame(e)),
    };
    if frame.frame_type != expected {
        return Err(MessageError::WrongType { expected });
    }
    Ok(frame.payload)
}

/// The tag byte of the frame at the front of `bytes`.
pub fn decode_frame_type_v1(bytes: &[u8]) -> (result: Result<u8, MessageError>)
    ensures
        result == parse_frame_type(bytes@),
{
    match decode_v1(bytes, MAX_PAYLOAD_LEN) {
        Ok((frame, _)) => Ok(frame.frame_type.to_u8()),
        Err(e) => Err(MessageError::Frame(e)),
    }
}

/// The text of the chat frame at the front of `bytes`.
pub fn decode_chat_text_payload_v1(bytes: &[u8]) -> (result: Result<String, MessageError>)
    ensures
        match parse_chat_text(bytes@) {
            Ok(text) => result matches Ok(s) && s@ == text,
            Err(e) => result == Err::<String, MessageError>(e),
        },
{
    let payload = match decode_payload_of(bytes, FrameType::ChatText) {
        Ok(payload) => payload,
        Err(e) => return Err(e),
    };
    match core::str::from_utf8(payload.as_slice()) {
        Ok(text) => {
            proof {
                encode_utf8_decode_utf8(text@);
            }
            Ok(text.to_owned())
        },
        Err(_) => Err(MessageError::PayloadNotUtf8),
    }
}

/// The offer in the file-offer frame at the front of `bytes`.
pub fn decode_file_offer_v1(bytes: &[u8]) -> (result: Result<FileOffer, MessageError>)
    ensures
        match parse_file_offer_message(bytes@) {
            Ok(offer) => result matches Ok(o) && o@ == offer,
            Err(e) => result == Err::<FileOffer, MessageError>(e),
        },
{
    let payload = match decode_payload_of(bytes, FrameType::FileOffer) {
        Ok(payload) => payload,
        Err(e) => return Err(e),
    };
    match decode_file_offer_payload_v1(payload.as_slice()) {
        Ok(offer) => Ok(offer),
        Err(e) => Err(MessageError::Payload(e)),
    }
}

/// The id in the file-accept frame at the front of `bytes`.
pub fn decode_file_accept_id_v1(bytes: &[u8]) -> (result: Result<String, MessageError>)
    ensures
        match parse_file_id_message(bytes@, FrameType::FileAccept) {
            Ok(id) => result matches Ok(s) && s@ == id,
            Err(e) => result == Err::<String, MessageError>(e),
        },
{
    let payload = match decode_payload_of(bytes, FrameType::FileAccept) {
        Ok(payload) => payload,
        Err(e) => return Err(e),
    };
    match decode_file_accept_payload_v1(payload.as_slice()) {
        Ok(id) => Ok(id),
        Err(e) => Err(MessageError::Payload(e)),
    }
}

/// The refusal in the file-reject frame at the front of `bytes`.
pub fn decode_file_reject_v1(bytes: &[u8]) -> (result: Result<FileReject, MessageError>)
    ensures
        match parse_file_reject_message(bytes@) {
            Ok(reject) => result matches Ok(r) && r@ == reject,
            Err(e) => result == Err::<FileReject, MessageError>(e),
        },
{
    let payload = match decode_payload_of(bytes, FrameType::FileReject) {
        Ok(payload) => payload,
        Err(e) => return Err(e),
    };
    match decode_file_reject_payload_v1(payload.as_slice()) {
        Ok(reject) => Ok(reject),
        Err(e) => Err(MessageError::Payload(e)),
    }
}

/// The chunk in the file-chunk frame at the front of `bytes`.
pub fn decode_file_chunk_v1(bytes: &[u8]) -> (result: Result<FileChunk, MessageError>)
    ensures
        match parse_file_chunk_message(bytes@) {
            Ok(chunk) => result matches Ok(c) && c@ == chunk,
            Err(e) => result == Err::<FileChunk, MessageError>(e),
        },
{
    let payload = match decode_payload_of(bytes, FrameType::FileChunk) {
        Ok(payload) => payload,
        Err(e) => return Err(e),
    };
    match decode_file_chunk_payload_v1(payload.as_slice()) {
        Ok(chunk) => Ok(chunk),
        Err(e) => Err(MessageError::Payload(e)),
    }
}

/// The id in the file-end frame at the front of `bytes`.
pub fn decode_file_end_id_v1(bytes: &[u8]) -> (result: Result<String, MessageError>)
    ensures
        match parse_file_id_message(bytes@, FrameType::FileEnd) {
            Ok(id) => result matches Ok(s) && s@ == id,
            Err(e) => result == Err::<String, MessageError>(e),
        },
{
    let payload = match decode_payload_of(bytes, FrameType::FileEnd) {
        Ok(payload) => payload,
        Err(e) => return Err(e),
    };
    match decode_file_end_payload_v1(payload.as_slice()) {
        Ok(id) => Ok(id),
        Err(e) => Err(MessageError::Payload(e)),
    }
}


/// An encoded frame whose payload is within the ceiling hands out that
/// payload when its kind is the one asked for, and is refused otherwise.
pub proof fn lemma_payload_of_encoded(frame: FrameView, expected: FrameType)
    requires
        frame.payload.len() <= MAX_PAYLOAD_LEN,
    ensures
        parse_payload_of(frame_bytes(frame), expected) == if frame.frame_type == expected {
            Ok::<Seq<u8>, MessageError>(frame.payload)
        } else {
            Err::<Seq<u8>, MessageError>(MessageError::WrongType { expected })
        },
        parse_frame_type(frame_bytes(frame)) == Ok::<u8, MessageError>(frame.frame_type.tag()),
{
    lemma_decode_encoded(frame, MAX_PAYLOAD_LEN);
}

/// A chat frame made from a text is received as that text.
pub proof fn lemma_chat_text_received(text: Seq<char>)
    requires
        encode_utf8(text).len() <= MAX_PAYLOAD_LEN,
    ensures
        parse_chat_text(frame_bytes(plain_frame(FrameType::ChatText, encode_utf8(text)))) == Ok::<
            Seq<char>,
            MessageError,
        >(text),
{
    lemma_payload_of_encoded(
        plain_frame(FrameType::ChatText, encode_utf8(text)),
        FrameType::ChatText,
    );
    encode_utf8_valid_utf8(text);
    encode_utf8_decode_utf8(text);
}

/// A file-offer frame made from an offer is received as that offer: id, file
/// name, MIME type and size come back unchanged.
pub proof fn lemma_file_offer_received(offer: FileOfferView)
    requires
        text_fits(offer.id),
        text_fits(offer.filename),
        text_fits(offer.mime_type),
        file_offer_payload(offer).len() <= MAX_PAYLOAD_LEN,
    ensures
        parse_file_offer_message(
            frame_bytes(plain_frame(FrameType::FileOffer, file_offer_payload(offer))),
        ) == Ok::<FileOfferView, MessageError>(offer),
{
    lemma_payload_of_encoded(
        plain_frame(FrameType::FileOffer, file_offer_payload(offer)),
        FrameType::FileOffer,
    );
    lemma_file_offer_round_trip(offer);
}

/// A file-accept or file-end frame made from an id is received as that id.
pub proof fn lemma_file_id_received(id: Seq<char>, kind: FrameType)
    requires
        text_fits(id),
        file_id_payload(id).len() <= MAX_PAYLOAD_LEN,
    ensures
        parse_file_id_message(frame_bytes(plain_frame(kind, file_id_payload(id))), kind) == Ok::<
            Seq<char>,
            MessageError,
        >(id),
{
    lemma_payload_of_encoded(plain_frame(kind, file_id_payload(id)), kind);
    lemma_file_id_round_trip(id);
}

/// A file-reject frame made from a refusal is received as that refusal.
pub proof fn lemma_file_reject_received(reject: FileRejectView)
    requires
        text_fits(reject.id),
        text_fits(reject.reason),
        file_reject_payload(reject).len() <= MAX_PAYLOAD_LEN,
    ensures
        parse_file_reject_message(
            frame_bytes(plain_frame(FrameType::FileReject, file_reject_payload(reject))),
        ) == Ok::<FileRejectView, MessageError>(reject),
{
    lemma_payload_of_encoded(
        plain_frame(FrameType::FileReject, file_reject_payload(reject)),
        FrameType::FileReject,
    );
    lemma_file_reject_round_trip(reject);
}

/// A file-chunk frame made from a chunk is received as that chunk, its data
/// byte for byte.
pub proof fn lemma_file_chunk_received(chunk: FileChunkView)
    requires
        text_fits(chunk.id),
        file_chunk_payload(chunk).len() <= MAX_PAYLOAD_LEN,
    ensures
        parse_file_chunk_message(
            frame_bytes(plain_frame(FrameType::FileChunk, file_chunk_payload(chunk))),
        ) == Ok::<FileChunkView, MessageError>(chunk),
{
    lemma_payload_of_encoded(
        plain_frame(FrameType::FileChunk, file_chunk_payload(chunk)),
        FrameType::FileChunk,
    );
    lemma_file_chunk_round_trip(chunk);
}

} // verus!
