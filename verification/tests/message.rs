use holi_p2p::frame::{encode_v1, DecodeError, Frame, FrameType};
use holi_p2p::message::{
    decode_chat_text_payload_v1, decode_file_accept_id_v1, decode_file_chunk_v1,
    decode_file_end_id_v1, decode_file_offer_v1, decode_file_reject_v1, decode_frame_type_v1,
    decode_payload_of, MessageError, MAX_PAYLOAD_LEN,
};
use holi_p2p::payload::{
    encode_chat_text_v1, encode_file_accept_v1, encode_file_chunk_v1, encode_file_end_v1,
    encode_file_offer_v1, encode_file_reject_v1, FileChunk, FileOffer, FileReject,
};
use holi_p2p::varint::VarintError;

fn framed(kind: FrameType, payload: &[u8]) -> Vec<u8> {
    let frame = Frame { frame_type: kind, flags: 0, payload: payload.to_vec() };
    let mut bytes = Vec::new();
    encode_v1(&frame, &mut bytes);
    bytes
}

#[test]
fn ceiling_is_one_mebibyte() {
    assert_eq!(MAX_PAYLOAD_LEN, 1024 * 1024);
    let at_limit = framed(FrameType::Ping, &vec![0u8; 1024 * 1024]);
    assert_eq!(decode_frame_type_v1(&at_limit), Ok(0x01));
    let over = framed(FrameType::Ping, &vec![0u8; 1024 * 1024 + 1]);
    assert_eq!(
        decode_frame_type_v1(&over),
        Err(MessageError::Frame(DecodeError::LengthTooLarge {
            length: 1024 * 1024 + 1,
            max: 1024 * 1024,
        }))
    );
}

#[test]
fn frame_type_of_each_message() {
    assert_eq!(decode_frame_type_v1(&encode_chat_text_v1("x")), Ok(0x10));
    assert_eq!(decode_frame_type_v1(&encode_file_accept_v1("x")), Ok(0x21));
    assert_eq!(decode_frame_type_v1(&encode_file_reject_v1("x", "y")), Ok(0x22));
    assert_eq!(decode_frame_type_v1(&encode_file_chunk_v1("x", 0, &[])), Ok(0x23));
    assert_eq!(decode_frame_type_v1(&encode_file_end_v1("x")), Ok(0x24));
    assert_eq!(decode_frame_type_v1(&framed(FrameType::ProtocolError, &[])), Ok(0x7F));
    assert_eq!(
        decode_frame_type_v1(&[b'H', b'O', 1, 0x99, 0, 0]),
        Err(MessageError::Frame(DecodeError::UnknownFrameType { frame_type: 0x99 }))
    );
    assert_eq!(decode_frame_type_v1(&[]), Err(MessageError::Frame(DecodeError::UnexpectedEof)));
}

#[test]
fn payload_of_checks_kind() {
    let bytes = framed(FrameType::Ping, &[1, 2, 3]);
    assert_eq!(decode_payload_of(&bytes, FrameType::Ping), Ok(vec![1, 2, 3]));
    assert_eq!(
        decode_payload_of(&bytes, FrameType::Pong),
        Err(MessageError::WrongType { expected: FrameType::Pong })
    );
    assert_eq!(
        decode_payload_of(&bytes[..7], FrameType::Ping),
        Err(MessageError::Frame(DecodeError::UnexpectedEof))
    );
}

#[test]
fn chat_text_message() {
    assert_eq!(decode_chat_text_payload_v1(&encode_chat_text_v1("hola")), Ok("hola".to_string()));
    assert_eq!(decode_chat_text_payload_v1(&encode_chat_text_v1("")), Ok(String::new()));
    assert_eq!(
        decode_chat_text_payload_v1(&encode_chat_text_v1("¡héllo wörld! ✓")),
        Ok("¡héllo wörld! ✓".to_string())
    );
    assert_eq!(
        decode_chat_text_payload_v1(&encode_file_end_v1("x")),
        Err(MessageError::WrongType { expected: FrameType::ChatText })
    );
    assert_eq!(
        decode_chat_text_payload_v1(&framed(FrameType::ChatText, &[b'a', 0xFF])),
        Err(MessageError::PayloadNotUtf8)
    );
    assert_eq!(
        decode_chat_text_payload_v1(&[b'H', b'X', 1, 0x10, 0, 0]),
        Err(MessageError::Frame(DecodeError::BadMagic))
    );
}

#[test]
fn file_offer_message() {
    let offer = FileOffer {
        id: "id-1".to_string(),
        filename: "hello.txt".to_string(),
        mime_type: "text/plain".to_string(),
        size: u64::MAX,
    };
    assert_eq!(decode_file_offer_v1(&encode_file_offer_v1(&offer)), Ok(offer));
    assert_eq!(
        decode_file_offer_v1(&encode_file_accept_v1("id-1")),
        Err(MessageError::WrongType { expected: FrameType::FileOffer })
    );
    assert_eq!(
        decode_file_offer_v1(&framed(FrameType::FileOffer, &[1, b'a'])),
        Err(MessageError::Payload(DecodeError::Varint(VarintError::UnexpectedEof)))
    );
    assert_eq!(
        decode_file_offer_v1(&[b'H', b'O', 2, 0x20, 0, 0]),
        Err(MessageError::Frame(DecodeError::UnsupportedVersion { version: 2 }))
    );
}

#[test]
fn file_accept_and_end_messages() {
    assert_eq!(decode_file_accept_id_v1(&encode_file_accept_v1("id-a")), Ok("id-a".to_string()));
    assert_eq!(decode_file_end_id_v1(&encode_file_end_v1("id-3")), Ok("id-3".to_string()));
    assert_eq!(
        decode_file_accept_id_v1(&encode_file_end_v1("id-3")),
        Err(MessageError::WrongType { expected: FrameType::FileAccept })
    );
    assert_eq!(
        decode_file_end_id_v1(&encode_file_accept_v1("id-a")),
        Err(MessageError::WrongType { expected: FrameType::FileEnd })
    );
    assert_eq!(
        decode_file_accept_id_v1(&framed(FrameType::FileAccept, &[2, b'a'])),
        Err(MessageError::Payload(DecodeError::UnexpectedEof))
    );
    assert_eq!(
        decode_file_end_id_v1(&framed(FrameType::FileEnd, &[1, 0xFF])),
        Err(MessageError::Payload(DecodeError::InvalidUtf8))
    );
}

#[test]
fn file_reject_message() {
    assert_eq!(
        decode_file_reject_v1(&encode_file_reject_v1("id-r", "too big")),
        Ok(FileReject { id: "id-r".to_string(), reason: "too big".to_string() })
    );
    assert_eq!(
        decode_file_reject_v1(&encode_chat_text_v1("id-r")),
        Err(MessageError::WrongType { expected: FrameType::FileReject })
    );
    assert_eq!(
        decode_file_reject_v1(&framed(FrameType::FileReject, &[1, b'a'])),
        Err(MessageError::Payload(DecodeError::Varint(VarintError::UnexpectedEof)))
    );
}

#[test]
fn file_chunk_message() {
    let data = vec![0u8, 0xFF, 0, 0xC0, 0x80];
    assert_eq!(
        decode_file_chunk_v1(&encode_file_chunk_v1("id-2", 42, &data)),
        Ok(FileChunk { id: "id-2".to_string(), chunk_index: 42, data })
    );
    assert_eq!(
        decode_file_chunk_v1(&encode_file_end_v1("id-2")),
        Err(MessageError::WrongType { expected: FrameType::FileChunk })
    );
    assert_eq!(
        decode_file_chunk_v1(&framed(FrameType::FileChunk, &[0, 0x80])),
        Err(MessageError::Payload(DecodeError::Varint(VarintError::UnexpectedEof)))
    );
}

#[test]
fn file_chunk_data_ends_with_its_frame() {
    let mut stream = encode_file_chunk_v1("id", 7, b"first");
    stream.extend_from_slice(&encode_file_chunk_v1("id", 8, b"second"));
    assert_eq!(
        decode_file_chunk_v1(&stream),
        Ok(FileChunk { id: "id".to_string(), chunk_index: 7, data: b"first".to_vec() })
    );
}
