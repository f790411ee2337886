//! The frame envelope: magic, version, type tag, flags and a length-prefixed
//! payload, parsed against a payload ceiling that the caller supplies.

use crate::varint::{
    decode_u32_varint, encode_u32_varint, lemma_u32_varint_prefix, lemma_u32_varint_truncated,
    parse_u32_varint, varint_bytes, VarintError,
};
use vstd::prelude::*;
use vstd::slice::slice_to_vec;

verus! {

/// The two bytes that open every frame: `HO` in ASCII.
pub const MAGIC: [u8; 2] = [0x48, 0x4F];

/// The only wire version that is read or written.
pub const VERSION_V1: u8 = 1;

/// Bytes of nonce at the front of an encrypted envelope's payload.
pub const ENVELOPE_NONCE_LEN: usize = 24;

/// Bytes before the length field: magic, version, type tag, flags.
pub const FIXED_HEADER_LEN: usize = 5;

/// The kinds of frame. The set is closed: a tag outside it does not decode.
#[derive(Debug, Clone, Copy, PartialEq, Eq, Structural)]
pub enum FrameType {
    Ping,
    Pong,
    ChatText,
    FileOffer,
    FileAccept,
    FileReject,
    FileChunk,
    FileEnd,
    ProtocolError,
    EncryptedEnvelope,
}

impl FrameType {
    /// The tag byte that stands for this kind on the wire.
    pub open spec fn tag(self) -> u8 {
        match self {
            FrameType::Ping => 0x01,
            FrameType::Pong => 0x02,
            FrameType::ChatText => 0x10,
            FrameType::FileOffer => 0x20,
            FrameType::FileAccept => 0x21,
            FrameType::FileReject => 0x22,
            FrameType::FileChunk => 0x23,
            FrameType::FileEnd => 0x24,
            FrameType::ProtocolError => 0x7F,
            FrameType::EncryptedEnvelope => 0x50,
        }
    }

    /// The kind that a tag byte stands for, if any.
    pub open spec fn of_tag(value: u8) -> Option<FrameType> {
        if value == 0x01 {
            Some(FrameType::Ping)
        } else if value == 0x02 {
            Some(FrameType::Pong)
        } else if value == 0x10 {
            Some(FrameType::ChatText)
        } else if value == 0x20 {
            Some(FrameType::FileOffer)
        } else if value == 0x21 {
            Some(FrameType::FileAccept)
        } else if value == 0x22 {
            Some(FrameType::FileReject)
        } else if value == 0x23 {
            Some(FrameType::FileChunk)
        } else if value == 0x24 {
            Some(FrameType::FileEnd)
        } else if value == 0x7F {
            Some(FrameType::ProtocolError)
        } else if value == 0x50 {
            Some(FrameType::EncryptedEnvelope)
        } else {
            None
        }
    }

    /// Maps a tag byte to its kind; `None` for a byte that is no tag.
    pub fn from_u8(value: u8) -> (kind: Option<Self>)
        ensures
            kind == Self::of_tag(value),
    {
        Some(
            match value {
                0x01 => Self::Ping,
                0x02 => Self::Pong,
                0x10 => Self::ChatText,
                0x20 => Self::FileOffer,
                0x21 => Self::FileAccept,
                0x22 => Self::FileReject,
                0x23 => Self::FileChunk,
                0x24 => Self::FileEnd,
                0x7F => Self::ProtocolError,
                0x50 => Self::EncryptedEnvelope,
                _ => return None,
            },
        )
    }

    /// The tag byte of this kind.
    pub fn to_u8(self) -> (value: u8)
        ensures
            value == self.tag(),
    {
        match self {
            FrameType::Ping => 0x01,
            FrameType::Pong => 0x02,
            FrameType::ChatText => 0x10,
            FrameType::FileOffer => 0x20,
            FrameType::FileAccept => 0x21,
            FrameType::FileReject => 0x22,
            FrameType::FileChunk => 0x23,
            FrameType::FileEnd => 0x24,
            FrameType::ProtocolError => 0x7F,
            FrameType::EncryptedEnvelope => 0x50,
        }
    }

    /// Tags and kinds correspond one to one.
    pub proof fn lemma_tag_of_tag(self, value: u8)
        ensures
            Self::of_tag(self.tag()) == Some(self),
            Self::of_tag(value) == Some(self) ==> value == self.tag(),
    {
    }
}

/// One unit of the wire format.
#[derive(Debug, Clone, PartialEq, Eq)]
pub struct Frame {
    pub frame_type: FrameType,
    pub flags: u8,
    pub payload: Vec<u8>,
}

/// A frame as a mathematical value.
pub struct FrameView {
    pub frame_type: FrameType,
    pub flags: u8,
    pub payload: Seq<u8>,
}

impl View for Frame {
    type V = FrameView;

    open spec fn view(&self) -> FrameView {
        FrameView { frame_type: self.frame_type, flags: self.flags, payload: self.payload@ }
    }
}

/// Why a buffer did not decode.
#[derive(Debug, Clone, Copy, PartialEq, Eq, Structural)]
pub enum DecodeError {
    /// More bytes are needed; the buffer may be a sound prefix.
    UnexpectedEof,
    BadMagic,
    UnsupportedVersion { version: u8 },
    UnknownFrameType { frame_type: u8 },
    /// A length or integer field did not parse.
    Varint(VarintError),
    /// The declared payload length is over the caller's ceiling.
    LengthTooLarge { length: u32, max: u32 },
    InvalidUtf8,
    /// An envelope payload too short to hold a nonce.
    BadEnvelope,
}

impl From<VarintError> for DecodeError {
    fn from(value: VarintError) -> (error: Self) {
        Self::Varint(value)
    }
}

impl vstd::std_specs::convert::FromSpecImpl<VarintError> for DecodeError {
    open spec fn obeys_from_spec() -> bool {
        true
    }

    open spec fn from_spec(value: VarintError) -> Self {
        DecodeError::Varint(value)
    }
}

/// The value written into a 32-bit length field for a body of `len` bytes:
/// `len` itself when it fits, its low 32 bits otherwise.
pub open spec fn length_field(len: nat) -> u32 {
    (len % 0x1_0000_0000) as u32
}

/// A native length cast to 32 bits is its length field.
pub proof fn lemma_length_field(len: usize)
    ensures
        len as u32 == length_field(len as nat),
{
    let wide = len as u64;
    assert(wide as u32 == wide % 0x1_0000_0000) by (bit_vector);
}

/// The five bytes in front of the length field of a frame.
pub open spec fn fixed_header(frame_type: FrameType, flags: u8) -> Seq<u8> {
    seq![MAGIC[0], MAGIC[1], VERSION_V1, frame_type.tag(), flags]
}

/// The encoding of a frame: fixed header, payload length as a varint, payload.
pub open spec fn frame_bytes(frame: FrameView) -> Seq<u8> {
    fixed_header(frame.frame_type, frame.flags) + varint_bytes(
        length_field(frame.payload.len()) as nat,
    ) + frame.payload
}

/// What decoding one frame from the front of `input` gives under the payload
/// ceiling `max_payload_len`: the frame and the number of bytes it spans, or
/// the first complaint in the order of the checks.
pub open spec fn parse_frame(input: Seq<u8>, max_payload_len: u32) -> Result<
    (FrameView, nat),
    DecodeError,
> {
    if input.len() < FIXED_HEADER_LEN {
        Err(DecodeError::UnexpectedEof)
    } else if input[0] != MAGIC[0] || input[1] != MAGIC[1] {
        Err(DecodeError::BadMagic)
    } else if input[2] != VERSION_V1 {
        Err(DecodeError::UnsupportedVersion { version: input[2] })
    } else {
        match FrameType::of_tag(input[3]) {
            None => Err(DecodeError::UnknownFrameType { frame_type: input[3] }),
            Some(frame_type) => match parse_u32_varint(input.skip(FIXED_HEADER_LEN as int)) {
                Err(e) => Err(DecodeError::Varint(e)),
                Ok((length, used)) => {
                    let header_len = FIXED_HEADER_LEN + used;
                    if length > max_payload_len {
                        Err(DecodeError::LengthTooLarge { length, max: max_payload_len })
                    } else if input.len() < header_len + length {
                        Err(DecodeError::UnexpectedEof)
                    } else {
                        Ok(
                            (
                                FrameView {
                                    frame_type,
                                    flags: input[4],
                                    payload: input.subrange(header_len, header_len + length),
                                },
                                (header_len + length) as nat,
                            ),
                        )
                    }
                },
            },
        }
    }
}

/// Whether `result` is what `parse_frame` gives, frame compared by view.
pub open spec fn frame_result_is(
    result: Result<(Frame, usize), DecodeError>,
    parsed: Result<(FrameView, nat), DecodeError>,
) -> bool {
    match parsed {
        Ok((frame, used)) => result matches Ok((f, n)) && f@ == frame && n == used,
        Err(e) => result == Err::<(Frame, usize), DecodeError>(e),
    }
}

/// Appends the encoding of `frame` to `out`.
pub fn encode_v1(frame: &Frame, out: &mut Vec<u8>)
    ensures
        final(out)@ == old(out)@ + frame_bytes(frame@),
{
    out.extend_from_slice(&MAGIC);
    out.push(VERSION_V1);
    out.push(frame.frame_type.to_u8());
    out.push(frame.flags);
    let len = frame.payload.len();
    proof {
        lemma_length_field(len);
    }
    encode_u32_varint(len as u32, out);
    out.extend_from_slice(&frame.payload);
    assert(out@ =~= old(out)@ + frame_bytes(frame@));
}

/// Decodes one frame from the front of `input`, refusing a declared payload
/// length over `max_payload_len` before it looks at the payload.
pub fn decode_v1(input: &[u8], max_payload_len: u32) -> (result: Result<(Frame, usize), DecodeError>)
    ensures
        frame_result_is(result, parse_frame(input@, max_payload_len)),
        result matches Ok((frame, used)) ==> frame.payload@.len() <= max_payload_len
            && FIXED_HEADER_LEN < used <= input@.len(),
{
    if input.len() < FIXED_HEADER_LEN {
        return Err(DecodeError::UnexpectedEof);
    }
    if input[0] != MAGIC[0] || input[1] != MAGIC[1] {
        return Err(DecodeError::BadMagic);
    }
    let version = input[2];
    if version != VERSION_V1 {
        return Err(DecodeError::UnsupportedVersion { version });
    }
    let frame_type_raw = input[3];
    let flags = input[4];
    let frame_type = match FrameType::from_u8(frame_type_raw) {
        Some(kind) => kind,
        None => return Err(DecodeError::UnknownFrameType { frame_type: frame_type_raw }),
    };
    assert(input@.subrange(FIXED_HEADER_LEN as int, input@.len() as int) =~= input@.skip(
        FIXED_HEADER_LEN as int,
    ));
    let (payload_len, varint_len) = match decode_u32_varint(&input[FIXED_HEADER_LEN..input.len()]) {
        Ok(pair) => pair,
        Err(e) => return Err(DecodeError::from(e)),
    };
    if payload_len > max_payload_len {
        return Err(DecodeError::LengthTooLarge { length: payload_len, max: max_payload_len });
    }
    let header_len = FIXED_HEADER_LEN + varint_len;
    if input.len() - header_len < payload_len as usize {
        return Err(DecodeError::UnexpectedEof);
    }
    let total_len = header_len + payload_len as usize;
    let payload = slice_to_vec(&input[header_len..total_len]);
    Ok((Frame { frame_type, flags, payload }, total_len))
}


/// Whether the payload of `frame` can be declared in a 32-bit length field.
pub open spec fn fits_length_field(frame: FrameView) -> bool {
    frame.payload.len() <= u32::MAX
}

/// The bytes of an encoded frame in front of its payload.
pub open spec fn header_bytes(frame: FrameView) -> Seq<u8> {
    fixed_header(frame.frame_type, frame.flags) + varint_bytes(
        length_field(frame.payload.len()) as nat,
    )
}

/// An encoded frame is its header followed by its payload; the header is six
/// to ten bytes long.
pub proof fn lemma_frame_bytes_layout(frame: FrameView)
    ensures
        frame_bytes(frame) == header_bytes(frame) + frame.payload,
        frame_bytes(frame).len() == header_bytes(frame).len() + frame.payload.len(),
        FIXED_HEADER_LEN + 1 <= header_bytes(frame).len() <= FIXED_HEADER_LEN + 5,
        frame_bytes(frame).take(FIXED_HEADER_LEN as int) == fixed_header(
            frame.frame_type,
            frame.flags,
        ),
{
    lemma_u32_varint_prefix(length_field(frame.payload.len()), Seq::empty());
    assert(frame_bytes(frame).take(FIXED_HEADER_LEN as int) =~= fixed_header(
        frame.frame_type,
        frame.flags,
    ));
}

/// Decoding a buffer that starts with an encoded frame returns that frame and
/// the length of its encoding, whatever follows, whenever the ceiling admits
/// the payload.
pub proof fn lemma_decode_encoded_followed(frame: FrameView, rest: Seq<u8>, max_payload_len: u32)
    requires
        frame.payload.len() <= max_payload_len,
    ensures
        parse_frame(frame_bytes(frame) + rest, max_payload_len) == Ok::<
            (FrameView, nat),
            DecodeError,
        >((frame, frame_bytes(frame).len())),
{
    let input = frame_bytes(frame) + rest;
    let length = length_field(frame.payload.len());
    let field = varint_bytes(length as nat);
    lemma_frame_bytes_layout(frame);
    frame.frame_type.lemma_tag_of_tag(input[3]);
    assert(input.skip(FIXED_HEADER_LEN as int) =~= field + (frame.payload + rest));
    lemma_u32_varint_prefix(length, frame.payload + rest);
    let header_len = FIXED_HEADER_LEN + field.len();
    assert(input.subrange(header_len, header_len + length) =~= frame.payload);
}

/// Decoding an encoded frame under a ceiling that admits its payload returns
/// the frame and consumes the whole encoding.
pub proof fn lemma_decode_encoded(frame: FrameView, max_payload_len: u32)
    requires
        frame.payload.len() <= max_payload_len,
    ensures
        parse_frame(frame_bytes(frame), max_payload_len) == Ok::<(FrameView, nat), DecodeError>(
            (frame, frame_bytes(frame).len()),
        ),
{
    lemma_decode_encoded_followed(frame, Seq::empty(), max_payload_len);
    assert(frame_bytes(frame) + Seq::<u8>::empty() =~= frame_bytes(frame));
}

/// Decoding an encoded frame under a ceiling below its payload length is
/// refused with that length and the ceiling.
pub proof fn lemma_decode_over_ceiling(frame: FrameView, max_payload_len: u32)
    requires
        fits_length_field(frame),
        max_payload_len < frame.payload.len(),
    ensures
        parse_frame(frame_bytes(frame), max_payload_len) == Err::<(FrameView, nat), DecodeError>(
            DecodeError::LengthTooLarge {
                length: frame.payload.len() as u32,
                max: max_payload_len,
            },
        ),
{
    let input = frame_bytes(frame);
    let length = length_field(frame.payload.len());
    lemma_frame_bytes_layout(frame);
    frame.frame_type.lemma_tag_of_tag(input[3]);
    assert(input.skip(FIXED_HEADER_LEN as int) =~= varint_bytes(length as nat) + frame.payload);
    lemma_u32_varint_prefix(length, frame.payload);
}

/// Decoding a strict prefix of an encoded frame asks for more bytes. A cut
/// inside the length field is reported by the integer parser; any other cut
/// is reported by the frame parser.
pub proof fn lemma_decode_truncated(frame: FrameView, max_payload_len: u32, len: nat)
    requires
        frame.payload.len() <= max_payload_len,
        len < frame_bytes(frame).len(),
    ensures
        parse_frame(frame_bytes(frame).take(len as int), max_payload_len) == Err::<
            (FrameView, nat),
            DecodeError,
        >(
            if FIXED_HEADER_LEN <= len < header_bytes(frame).len() {
                DecodeError::Varint(VarintError::UnexpectedEof)
            } else {
                DecodeError::UnexpectedEof
            },
        ),
{
    let whole = frame_bytes(frame);
    let input = whole.take(len as int);
    let length = length_field(frame.payload.len());
    let field = varint_bytes(length as nat);
    lemma_frame_bytes_layout(frame);
    if len >= FIXED_HEADER_LEN {
        frame.frame_type.lemma_tag_of_tag(input[3]);
        let tail = input.skip(FIXED_HEADER_LEN as int);
        if len < header_bytes(frame).len() {
            assert(tail =~= field.take(len - FIXED_HEADER_LEN));
            lemma_u32_varint_truncated(length, (len - FIXED_HEADER_LEN) as nat);
        } else {
            let part = frame.payload.take(len - header_bytes(frame).len());
            assert(tail =~= field + part);
            lemma_u32_varint_prefix(length, part);
        }
    }
}

/// An encoded frame with either magic byte changed is refused as bad magic.
pub proof fn lemma_decode_changed_magic(
    frame: FrameView,
    max_payload_len: u32,
    index: int,
    byte: u8,
)
    requires
        index == 0 || index == 1,
        byte != MAGIC[index],
    ensures
        parse_frame(frame_bytes(frame).update(index, byte), max_payload_len) == Err::<
            (FrameView, nat),
            DecodeError,
        >(DecodeError::BadMagic),
{
    lemma_frame_bytes_layout(frame);
}

/// An encoded frame with its version byte changed is refused, and the error
/// carries the byte that was found.
pub proof fn lemma_decode_changed_version(frame: FrameView, max_payload_len: u32, version: u8)
    requires
        version != VERSION_V1,
    ensures
        parse_frame(frame_bytes(frame).update(2, version), max_payload_len) == Err::<
            (FrameView, nat),
            DecodeError,
        >(DecodeError::UnsupportedVersion { version }),
{
    lemma_frame_bytes_layout(frame);
}

} // verus!
