//! The typed payloads carried inside frames, and the helpers that wrap each
//! of them in a frame with no flags set.
//!
//! Text fields are written as a varint byte length followed by that many
//! UTF-8 bytes. Chunk data and envelope ciphertext run to the end of the
//! payload, so these decoders are meant for the payload of a decoded frame
//! and never for a transport buffer.

use crate::frame::{
    encode_v1, frame_bytes, lemma_length_field, length_field, DecodeError, Frame, FrameType,
    FrameView, ENVELOPE_NONCE_LEN,
};
use crate::varint::{
    decode_u32_varint, decode_u64_varint, encode_u32_varint, encode_u64_varint,
    lemma_u32_varint_prefix, lemma_u64_varint_prefix, parse_u32_varint, parse_u64_varint,
    varint_bytes,
};
use vstd::prelude::*;
use vstd::slice::slice_to_vec;
use vstd::utf8::{decode_utf8, encode_utf8, encode_utf8_decode_utf8, encode_utf8_valid_utf8, valid_utf8};

verus! {

/// `core::str::Utf8Error`, carried through without a look inside.
#[verifier::external_type_specification]
#[verifier::external_body]
pub struct ExUtf8Error(core::str::Utf8Error);

/// `core::str::from_utf8` accepts exactly the byte strings that are valid
/// UTF-8, and the text it returns has the bytes it was given.
pub assume_specification[ core::str::from_utf8 ](v: &[u8]) -> (result: Result<
    &str,
    core::str::Utf8Error,
>)
    ensures
        result is Ok <==> valid_utf8(v@),
        result matches Ok(text) ==> encode_utf8(text@) == v@,
;

/// An offer to send a file.
#[derive(Debug, Clone, PartialEq, Eq)]
pub struct FileOffer {
    pub id: String,
    pub filename: String,
    pub mime_type: String,
    pub size: u64,
}

/// A file offer as a mathematical value.
pub struct FileOfferView {
    pub id: Seq<char>,
    pub filename: Seq<char>,
    pub mime_type: Seq<char>,
    pub size: u64,
}

impl View for FileOffer {
    type V = FileOfferView;

    open spec fn view(&self) -> FileOfferView {
        FileOfferView {
            id: self.id@,
            filename: self.filename@,
            mime_type: self.mime_type@,
            size: self.size,
        }
    }
}

/// One piece of a file in transfer.
#[derive(Debug, Clone, PartialEq, Eq)]
pub struct FileChunk {
    pub id: String,
    pub chunk_index: u32,
    pub data: Vec<u8>,
}

/// A file chunk as a mathematical value.
pub struct FileChunkView {
    pub id: Seq<char>,
    pub chunk_index: u32,
    pub data: Seq<u8>,
}

impl View for FileChunk {
    type V = FileChunkView;

    open spec fn view(&self) -> FileChunkView {
        FileChunkView { id: self.id@, chunk_index: self.chunk_index, data: self.data@ }
    }
}

/// A refusal of an offered file.
#[derive(Debug, Clone, PartialEq, Eq)]
pub struct FileReject {
    pub id: String,
    pub reason: String,
}

/// A file refusal as a mathematical value.
pub struct FileRejectView {
    pub id: Seq<char>,
    pub reason: Seq<char>,
}

impl View for FileReject {
    type V = FileRejectView;

    open spec fn view(&self) -> FileRejectView {
        FileRejectView { id: self.id@, reason: self.reason@ }
    }
}

/// The frame that carries `payload` as kind `frame_type`, no flags set.
pub open spec fn plain_frame(frame_type: FrameType, payload: Seq<u8>) -> FrameView {
    FrameView { frame_type, flags: 0, payload }
}

/// Whether the UTF-8 form of `text` can be declared in a 32-bit length field.
pub open spec fn text_fits(text: Seq<char>) -> bool {
    encode_utf8(text).len() <= u32::MAX
}

/// A text field on the wire: the byte length of its UTF-8 form as a varint,
/// then the UTF-8 bytes.
pub open spec fn string_bytes(text: Seq<char>) -> Seq<u8> {
    let body = encode_utf8(text);
    varint_bytes(length_field(body.len()) as nat) + body
}

/// Reading one text field from the front of `input`: the text and the number
/// of bytes the field spans.
pub open spec fn parse_string(input: Seq<u8>) -> Result<(Seq<char>, nat), DecodeError> {
    match parse_u32_varint(input) {
        Err(e) => Err(DecodeError::Varint(e)),
        Ok((length, used)) => {
            let end = used + length;
            if input.len() < end {
                Err(DecodeError::UnexpectedEof)
            } else if !valid_utf8(input.subrange(used as int, end)) {
                Err(DecodeError::InvalidUtf8)
            } else {
                Ok((decode_utf8(input.subrange(used as int, end)), end as nat))
            }
        },
    }
}

/// The payload of a file offer: id, file name and MIME type as text fields,
/// then the size as a varint.
pub open spec fn file_offer_payload(offer: FileOfferView) -> Seq<u8> {
    string_bytes(offer.id) + string_bytes(offer.filename) + string_bytes(offer.mime_type)
        + varint_bytes(offer.size as nat)
}

/// Reading a file offer from a payload. Bytes after the size are not looked at.
pub open spec fn parse_file_offer(payload: Seq<u8>) -> Result<FileOfferView, DecodeError> {
    match parse_string(payload) {
        Err(e) => Err(e),
        Ok((id, i1)) => match parse_string(payload.skip(i1 as int)) {
            Err(e) => Err(e),
            Ok((filename, i2)) => match parse_string(payload.skip((i1 + i2) as int)) {
                Err(e) => Err(e),
                Ok((mime_type, i3)) => match parse_u64_varint(
                    payload.skip((i1 + i2 + i3) as int),
                ) {
                    Err(e) => Err(DecodeError::Varint(e)),
                    Ok((size, _)) => Ok(FileOfferView { id, filename, mime_type, size }),
                },
            },
        },
    }
}

/// The payload of a file acceptance or of a file end: the id as a text field.
pub open spec fn file_id_payload(id: Seq<char>) -> Seq<u8> {
    string_bytes(id)
}

/// Reading the id from the payload of a file acceptance or of a file end.
/// Bytes after the id are not looked at.
pub open spec fn parse_file_id(payload: Seq<u8>) -> Result<Seq<char>, DecodeError> {
    match parse_string(payload) {
        Err(e) => Err(e),
        Ok((id, _)) => Ok(id),
    }
}

/// The payload of a file refusal: id, then reason, as text fields.
pub open spec fn file_reject_payload(reject: FileRejectView) -> Seq<u8> {
    string_bytes(reject.id) + string_bytes(reject.reason)
}

/// Reading a file refusal from a payload. Bytes after the reason are not
/// looked at.
pub open spec fn parse_file_reject(payload: Seq<u8>) -> Result<FileRejectView, DecodeError> {
    match parse_string(payload) {
        Err(e) => Err(e),
        Ok((id, i1)) => match parse_string(payload.skip(i1 as int)) {
            Err(e) => Err(e),
            Ok((reason, _)) => Ok(FileRejectView { id, reason }),
        },
    }
}

/// The payload of a file chunk: the id as a text field, the chunk index as a
/// varint, then the data with no length of its own.
pub open spec fn file_chunk_payload(chunk: FileChunkView) -> Seq<u8> {
    string_bytes(chunk.id) + varint_bytes(chunk.chunk_index as nat) + chunk.data
}

/// Reading a file chunk from a payload: everything after the chunk index is
/// the data.
pub open spec fn parse_file_chunk(payload: Seq<u8>) -> Result<FileChunkView, DecodeError> {
    match parse_string(payload) {
        Err(e) => Err(e),
        Ok((id, i1)) => match parse_u32_varint(payload.skip(i1 as int)) {
            Err(e) => Err(DecodeError::Varint(e)),
            Ok((chunk_index, n2)) => Ok(
                FileChunkView { id, chunk_index, data: payload.skip((i1 + n2) as int) },
            ),
        },
    }
}

/// The payload of an encrypted envelope: the nonce, then the ciphertext with
/// no length of its own.
pub open spec fn envelope_payload(nonce: Seq<u8>, ciphertext: Seq<u8>) -> Seq<u8> {
    nonce + ciphertext
}

/// Reading an envelope payload: the first 24 bytes are the nonce, everything
/// after them is the ciphertext.
pub open spec fn parse_envelope(payload: Seq<u8>) -> Result<(Seq<u8>, Seq<u8>), DecodeError> {
    if payload.len() < ENVELOPE_NONCE_LEN {
        Err(DecodeError::BadEnvelope)
    } else {
        Ok((payload.take(ENVELOPE_NONCE_LEN as int), payload.skip(ENVELOPE_NONCE_LEN as int)))
    }
}

/// Appends `value` to `out` as a text field.
pub fn encode_string(out: &mut Vec<u8>, value: &str)
    ensures
        final(out)@ == old(out)@ + string_bytes(value@),
{
    let body = value.as_bytes();
    proof {
        lemma_length_field(body.len());
    }
    encode_u32_varint(body.len() as u32, out);
    out.extend_from_slice(body);
    assert(out@ =~= old(out)@ + string_bytes(value@));
}

/// Reads one text field from the front of `input`.
pub fn decode_string(input: &[u8]) -> (result: Result<(String, usize), DecodeError>)
    ensures
        match parse_string(input@) {
            Ok((text, used)) => result matches Ok((s, n)) && s@ == text && n == used,
            Err(e) => result == Err::<(String, usize), DecodeError>(e),
        },
{
    let (len, start) = match decode_u32_varint(input) {
        Ok(pair) => pair,
        Err(e) => return Err(DecodeError::from(e)),
    };
    if input.len() - start < len as usize {
        return Err(DecodeError::UnexpectedEof);
    }
    let end = start + len as usize;
    match core::str::from_utf8(&input[start..end]) {
        Ok(text) => {
            proof {
                encode_utf8_decode_utf8(text@);
            }
            Ok((text.to_owned(), end))
        },
        Err(_) => Err(DecodeError::InvalidUtf8),
    }
}

/// Encodes `payload` as a frame of kind `frame_type` with no flags set.
fn encode_plain(frame_type: FrameType, payload: Vec<u8>) -> (bytes: Vec<u8>)
    ensures
        bytes@ == frame_bytes(plain_frame(frame_type, payload@)),
{
    let frame = Frame { frame_type, flags: 0, payload };
    let mut out = Vec::new();
    encode_v1(&frame, &mut out);
    out
}

/// The encoded chat frame whose payload is the UTF-8 bytes of `text`.
pub fn encode_chat_text_v1(text: &str) -> (bytes: Vec<u8>)
    ensures
        bytes@ == frame_bytes(plain_frame(FrameType::ChatText, encode_utf8(text@))),
{
    encode_plain(FrameType::ChatText, slice_to_vec(text.as_bytes()))
}

/// The encoded frame that carries `offer`.
pub fn encode_file_offer_v1(offer: &FileOffer) -> (bytes: Vec<u8>)
    ensures
        bytes@ == frame_bytes(plain_frame(FrameType::FileOffer, file_offer_payload(offer@))),
{
    let mut payload = Vec::new();
    encode_string(&mut payload, offer.id.as_str());
    encode_string(&mut payload, offer.filename.as_str());
    encode_string(&mut payload, offer.mime_type.as_str());
    encode_u64_varint(offer.size, &mut payload);
    assert(payload@ =~= file_offer_payload(offer@));
    encode_plain(FrameType::FileOffer, payload)
}

/// Reads a file offer from a payload.
pub fn decode_file_offer_payload_v1(payload: &[u8]) -> (result: Result<FileOffer, DecodeError>)
    ensures
        match parse_file_offer(payload@) {
            Ok(offer) => result matches Ok(o) && o@ == offer,
            Err(e) => result == Err::<FileOffer, DecodeError>(e),
        },
{
    let len = payload.len();
    let (id, i1) = match decode_string(payload) {
        Ok(pair) => pair,
        Err(e) => return Err(e),
    };
    assert(payload@.subrange(i1 as int, len as int) =~= payload@.skip(i1 as int));
    let (filename, i2) = match decode_string(&payload[i1..len]) {
        Ok(pair) => pair,
        Err(e) => return Err(e),
    };
    assert(payload@.subrange(i1 + i2, len as int) =~= payload@.skip(i1 + i2));
    let (mime_type, i3) = match decode_string(&payload[i1 + i2..len]) {
        Ok(pair) => pair,
        Err(e) => return Err(e),
    };
    assert(payload@.subrange(i1 + i2 + i3, len as int) =~= payload@.skip(i1 + i2 + i3));
    let (size, _) = match decode_u64_varint(&payload[i1 + i2 + i3..len]) {
        Ok(pair) => pair,
        Err(e) => return Err(DecodeError::from(e)),
    };
    Ok(FileOffer { id, filename, mime_type, size })
}

/// The encoded frame that accepts the file `id`.
pub fn encode_file_accept_v1(id: &str) -> (bytes: Vec<u8>)
    ensures
        bytes@ == frame_bytes(plain_frame(FrameType::FileAccept, file_id_payload(id@))),
{
    let mut payload = Vec::new();
    encode_string(&mut payload, id);
    assert(payload@ =~= file_id_payload(id@));
    encode_plain(FrameType::FileAccept, payload)
}

/// Reads the id from the payload of a file acceptance.
pub fn decode_file_accept_payload_v1(payload: &[u8]) -> (result: Result<String, DecodeError>)
    ensures
        match parse_file_id(payload@) {
            Ok(id) => result matches Ok(s) && s@ == id,
            Err(e) => result == Err::<String, DecodeError>(e),
        },
{
    match decode_string(payload) {
        Ok((id, _)) => Ok(id),
        Err(e) => Err(e),
    }
}

/// The encoded frame that refuses the file `id` for `reason`.
pub fn encode_file_reject_v1(id: &str, reason: &str) -> (bytes: Vec<u8>)
    ensures
        bytes@ == frame_bytes(
            plain_frame(
                FrameType::FileReject,
                file_reject_payload(FileRejectView { id: id@, reason: reason@ }),
            ),
        ),
{
    let mut payload = Vec::new();
    encode_string(&mut payload, id);
    encode_string(&mut payload, reason);
    assert(payload@ =~= file_reject_payload(FileRejectView { id: id@, reason: reason@ }));
    encode_plain(FrameType::FileReject, payload)
}

/// Reads a file refusal from a payload.
pub fn decode_file_reject_payload_v1(payload: &[u8]) -> (result: Result<FileReject, DecodeError>)
    ensures
        match parse_file_reject(payload@) {
            Ok(reject) => result matches Ok(r) && r@ == reject,
            Err(e) => result == Err::<FileReject, DecodeError>(e),
        },
{
    let (id, i1) = match decode_string(payload) {
        Ok(pair) => pair,
        Err(e) => return Err(e),
    };
    assert(payload@.subrange(i1 as int, payload@.len() as int) =~= payload@.skip(i1 as int));
    let (reason, _) = match decode_string(&payload[i1..payload.len()]) {
        Ok(pair) => pair,
        Err(e) => return Err(e),
    };
    Ok(FileReject { id, reason })
}

/// The encoded frame that carries chunk `chunk_index` of the file `id`.
pub fn encode_file_chunk_v1(id: &str, chunk_index: u32, data: &[u8]) -> (bytes: Vec<u8>)
    ensures
        bytes@ == frame_bytes(
            plain_frame(
                FrameType::FileChunk,
                file_chunk_payload(FileChunkView { id: id@, chunk_index, data: data@ }),
            ),
        ),
{
    let mut payload = Vec::new();
    encode_string(&mut payload, id);
    encode_u32_varint(chunk_index, &mut payload);
    payload.extend_from_slice(data);
    assert(payload@ =~= file_chunk_payload(FileChunkView { id: id@, chunk_index, data: data@ }));
    encode_plain(FrameType::FileChunk, payload)
}

/// Reads a file chunk from a payload.
pub fn decode_file_chunk_payload_v1(payload: &[u8]) -> (result: Result<FileChunk, DecodeError>)
    ensures
        match parse_file_chunk(payload@) {
            Ok(chunk) => result matches Ok(c) && c@ == chunk,
            Err(e) => result == Err::<FileChunk, DecodeError>(e),
        },
{
    let len = payload.len();
    let (id, i1) = match decode_string(payload) {
        Ok(pair) => pair,
        Err(e) => return Err(e),
    };
    assert(payload@.subrange(i1 as int, len as int) =~= payload@.skip(i1 as int));
    let (chunk_index, n2) = match decode_u32_varint(&payload[i1..len]) {
        Ok(pair) => pair,
        Err(e) => return Err(DecodeError::from(e)),
    };
    let data_start = i1 + n2;
    assert(payload@.subrange(data_start as int, len as int) =~= payload@.skip(i1 + n2));
    Ok(FileChunk { id, chunk_index, data: slice_to_vec(&payload[data_start..len]) })
}

/// The encoded frame that ends the transfer of the file `id`.
pub fn encode_file_end_v1(id: &str) -> (bytes: Vec<u8>)
    ensures
        bytes@ == frame_bytes(plain_frame(FrameType::FileEnd, file_id_payload(id@))),
{
    let mut payload = Vec::new();
    encode_string(&mut payload, id);
    assert(payload@ =~= file_id_payload(id@));
    encode_plain(FrameType::FileEnd, payload)
}

/// Reads the id from the payload of a file end.
pub fn decode_file_end_payload_v1(payload: &[u8]) -> (result: Result<String, DecodeError>)
    ensures
        match parse_file_id(payload@) {
            Ok(id) => result matches Ok(s) && s@ == id,
            Err(e) => result == Err::<String, DecodeError>(e),
        },
{
    match decode_string(payload) {
        Ok((id, _)) => Ok(id),
        Err(e) => Err(e),
    }
}

/// The encoded envelope frame that carries `ciphertext` behind `nonce`.
pub fn encode_encrypted_envelope_v1(nonce: &[u8; 24], ciphertext: &[u8]) -> (bytes: Vec<u8>)
    ensures
        bytes@ == frame_bytes(
            plain_frame(FrameType::EncryptedEnvelope, envelope_payload(nonce@, ciphertext@)),
        ),
{
    let mut payload = Vec::new();
    payload.extend_from_slice(nonce);
    payload.extend_from_slice(ciphertext);
    assert(payload@ =~= envelope_payload(nonce@, ciphertext@));
    encode_plain(FrameType::EncryptedEnvelope, payload)
}

/// Splits an envelope payload into its nonce and its ciphertext.
pub fn decode_encrypted_envelope_payload_v1(payload: &[u8]) -> (result: Result<
    ([u8; 24], Vec<u8>),
    DecodeError,
>)
    ensures
        match parse_envelope(payload@) {
            Ok((nonce, ciphertext)) => result matches Ok((n, c)) && n@ == nonce && c@
                == ciphertext,
            Err(e) => result == Err::<([u8; 24], Vec<u8>), DecodeError>(e),
        },
{
    if payload.len() < ENVELOPE_NONCE_LEN {
        return Err(DecodeError::BadEnvelope);
    }
    let mut nonce = [0u8; 24];
    let mut i: usize = 0;
    while i < ENVELOPE_NONCE_LEN
        invariant
            i <= ENVELOPE_NONCE_LEN <= payload.len(),
            forall|j: int| 0 <= j < i ==> nonce@[j] == payload@[j],
        decreases ENVELOPE_NONCE_LEN - i,
    {
        nonce[i] = payload[i];
        i += 1;
    }
    let ciphertext = slice_to_vec(&payload[ENVELOPE_NONCE_LEN..payload.len()]);
    assert(nonce@ =~= payload@.take(ENVELOPE_NONCE_LEN as int));
    assert(ciphertext@ =~= payload@.skip(ENVELOPE_NONCE_LEN as int));
    Ok((nonce, ciphertext))
}

/// A text field reads back as the text it was written from, whatever follows
/// it, and spans exactly the bytes that were written.
pub proof fn lemma_parse_string_bytes(text: Seq<char>, rest: Seq<u8>)
    requires
        text_fits(text),
    ensures
        parse_string(string_bytes(text) + rest) == Ok::<(Seq<char>, nat), DecodeError>(
            (text, string_bytes(text).len()),
        ),
{
    let body = encode_utf8(text);
    let field = varint_bytes(length_field(body.len()) as nat);
    let input = string_bytes(text) + rest;
    assert(input =~= field + (body + rest));
    lemma_u32_varint_prefix(length_field(body.len()), body + rest);
    assert(input.subrange(field.len() as int, (field.len() + body.len()) as int) =~= body);
    encode_utf8_valid_utf8(text);
    encode_utf8_decode_utf8(text);
}

/// A file offer reads back from its payload field for field, for every size
/// up to the largest 64-bit value.
pub proof fn lemma_file_offer_round_trip(offer: FileOfferView)
    requires
        text_fits(offer.id),
        text_fits(offer.filename),
        text_fits(offer.mime_type),
    ensures
        parse_file_offer(file_offer_payload(offer)) == Ok::<FileOfferView, DecodeError>(offer),
{
    let payload = file_offer_payload(offer);
    let f1 = string_bytes(offer.id);
    let f2 = string_bytes(offer.filename);
    let f3 = string_bytes(offer.mime_type);
    let f4 = varint_bytes(offer.size as nat);
    assert(payload =~= f1 + (f2 + f3 + f4));
    lemma_parse_string_bytes(offer.id, f2 + f3 + f4);
    assert(payload.skip(f1.len() as int) =~= f2 + (f3 + f4));
    lemma_parse_string_bytes(offer.filename, f3 + f4);
    assert(payload.skip((f1.len() + f2.len()) as int) =~= f3 + f4);
    lemma_parse_string_bytes(offer.mime_type, f4);
    assert(payload.skip((f1.len() + f2.len() + f3.len()) as int) =~= f4 + Seq::<u8>::empty());
    lemma_u64_varint_prefix(offer.size, Seq::empty());
}

/// The id of a file acceptance or of a file end reads back from its payload.
pub proof fn lemma_file_id_round_trip(id: Seq<char>)
    requires
        text_fits(id),
    ensures
        parse_file_id(file_id_payload(id)) == Ok::<Seq<char>, DecodeError>(id),
{
    assert(file_id_payload(id) =~= string_bytes(id) + Seq::<u8>::empty());
    lemma_parse_string_bytes(id, Seq::empty());
}

/// A file refusal reads back from its payload.
pub proof fn lemma_file_reject_round_trip(reject: FileRejectView)
    requires
        text_fits(reject.id),
        text_fits(reject.reason),
    ensures
        parse_file_reject(file_reject_payload(reject)) == Ok::<FileRejectView, DecodeError>(
            reject,
        ),
{
    let payload = file_reject_payload(reject);
    let f1 = string_bytes(reject.id);
    let f2 = string_bytes(reject.reason);
    lemma_parse_string_bytes(reject.id, f2);
    assert(payload.skip(f1.len() as int) =~= f2 + Seq::<u8>::empty());
    lemma_parse_string_bytes(reject.reason, Seq::empty());
}

/// A file chunk reads back from its payload with its data byte for byte,
/// whatever bytes the data holds.
pub proof fn lemma_file_chunk_round_trip(chunk: FileChunkView)
    requires
        text_fits(chunk.id),
    ensures
        parse_file_chunk(file_chunk_payload(chunk)) == Ok::<FileChunkView, DecodeError>(chunk),
{
    let payload = file_chunk_payload(chunk);
    let f1 = string_bytes(chunk.id);
    let f2 = varint_bytes(chunk.chunk_index as nat);
    assert(payload =~= f1 + (f2 + chunk.data));
    lemma_parse_string_bytes(chunk.id, f2 + chunk.data);
    assert(payload.skip(f1.len() as int) =~= f2 + chunk.data);
    lemma_u32_varint_prefix(chunk.chunk_index, chunk.data);
    assert(payload.skip((f1.len() + f2.len()) as int) =~= chunk.data);
}

/// A nonce of 24 bytes and a ciphertext read back from the envelope payload
/// that was made of them.
pub proof fn lemma_envelope_round_trip(nonce: Seq<u8>, ciphertext: Seq<u8>)
    requires
        nonce.len() == ENVELOPE_NONCE_LEN,
    ensures
        parse_envelope(envelope_payload(nonce, ciphertext)) == Ok::<
            (Seq<u8>, Seq<u8>),
            DecodeError,
        >((nonce, ciphertext)),
{
    let payload = envelope_payload(nonce, ciphertext);
    assert(payload.take(ENVELOPE_NONCE_LEN as int) =~= nonce);
    assert(payload.skip(ENVELOPE_NONCE_LEN as int) =~= ciphertext);
}

} // verus!
