use chacha20poly1305::aead::Aead;
use chacha20poly1305::{KeyInit, XChaCha20Poly1305};
use holi_p2p::envelope::{
    decrypt_envelope_v1, encrypt_envelope_v1, encrypt_envelope_v1_with_nonce, parse_key_32,
    parse_nonce_24, seal_envelope, KEY_LEN, TAG_LEN,
};
use holi_p2p::frame::{decode_v1, encode_v1, DecodeError, Frame, FrameType, ENVELOPE_NONCE_LEN};
use holi_p2p::message::MessageError;
use holi_p2p::payload::{
    decode_encrypted_envelope_payload_v1, encode_chat_text_v1, encode_encrypted_envelope_v1,
};

fn key(seed: u8) -> [u8; 32] {
    let mut key = [0u8; 32];
    for (i, byte) in key.iter_mut().enumerate() {
        *byte = seed.wrapping_add(i as u8);
    }
    key
}

fn nonce(seed: u8) -> [u8; 24] {
    let mut nonce = [0u8; 24];
    for (i, byte) in nonce.iter_mut().enumerate() {
        *byte = seed.wrapping_mul(3).wrapping_add(i as u8);
    }
    nonce
}

fn parts(envelope: &[u8]) -> ([u8; 24], Vec<u8>) {
    let (frame, used) = decode_v1(envelope, 1024 * 1024).unwrap();
    assert_eq!(used, envelope.len());
    assert_eq!(frame.frame_type, FrameType::EncryptedEnvelope);
    assert_eq!(frame.flags, 0);
    decode_encrypted_envelope_payload_v1(&frame.payload).unwrap()
}

#[test]
fn lengths_are_fixed() {
    assert_eq!(KEY_LEN, 32);
    assert_eq!(ENVELOPE_NONCE_LEN, 24);
    assert_eq!(TAG_LEN, 16);
}

#[test]
fn key_and_nonce_lengths_are_checked() {
    assert_eq!(parse_key_32(&key(1)), Ok(key(1)));
    assert_eq!(parse_nonce_24(&nonce(1)), Ok(nonce(1)));
    for len in [0usize, 1, 23, 24, 31, 33, 64] {
        assert_eq!(parse_key_32(&vec![0u8; len]), Err(MessageError::KeyLength));
    }
    for len in [0usize, 1, 12, 23, 25, 32] {
        assert_eq!(parse_nonce_24(&vec![0u8; len]), Err(MessageError::NonceLength));
    }
}

#[test]
fn seal_then_open_returns_inner_frame() {
    let inner = encode_chat_text_v1("hola");
    let envelope = encrypt_envelope_v1_with_nonce(&key(1), &nonce(1), &inner).unwrap();
    assert_eq!(decrypt_envelope_v1(&key(1), &envelope), Ok(inner.clone()));
    let envelope = encrypt_envelope_v1(&key(2), &inner).unwrap();
    assert_eq!(decrypt_envelope_v1(&key(2), &envelope), Ok(inner.clone()));
    let envelope = seal_envelope(&key(3), &nonce(3), &inner).unwrap();
    assert_eq!(decrypt_envelope_v1(&key(3), &envelope), Ok(inner));
}

#[test]
fn seal_then_open_empty_inner() {
    let envelope = encrypt_envelope_v1_with_nonce(&key(1), &nonce(1), &[]).unwrap();
    let (_, ciphertext) = parts(&envelope);
    assert_eq!(ciphertext.len(), TAG_LEN);
    assert_eq!(decrypt_envelope_v1(&key(1), &envelope), Ok(Vec::new()));
}

#[test]
fn envelope_holds_nonce_then_ciphertext_with_tag() {
    let inner = encode_chat_text_v1("a longer message, so that the bytes can be compared");
    let envelope = encrypt_envelope_v1_with_nonce(&key(9), &nonce(4), &inner).unwrap();
    let (found_nonce, ciphertext) = parts(&envelope);
    assert_eq!(found_nonce, nonce(4));
    assert_eq!(ciphertext.len(), inner.len() + TAG_LEN);
    assert_ne!(&ciphertext[..inner.len()], &inner[..]);
}

#[test]
fn envelope_ciphertext_is_the_ciphers() {
    let inner = encode_chat_text_v1("hola");
    let cipher = XChaCha20Poly1305::new((&key(5)).into());
    let expected = cipher.encrypt((&nonce(6)).into(), inner.as_slice()).unwrap();
    let envelope = encrypt_envelope_v1_with_nonce(&key(5), &nonce(6), &inner).unwrap();
    assert_eq!(envelope, encode_encrypted_envelope_v1(&nonce(6), &expected));
    let opened = cipher.decrypt((&nonce(6)).into(), expected.as_slice()).unwrap();
    assert_eq!(decrypt_envelope_v1(&key(5), &envelope), Ok(opened));
}

#[test]
fn sealing_is_a_function_of_key_nonce_and_inner() {
    let inner = encode_chat_text_v1("hola");
    let first = encrypt_envelope_v1_with_nonce(&key(1), &nonce(1), &inner).unwrap();
    let again = encrypt_envelope_v1_with_nonce(&key(1), &nonce(1), &inner).unwrap();
    assert_eq!(first, again);
    let other_key = encrypt_envelope_v1_with_nonce(&key(2), &nonce(1), &inner).unwrap();
    let other_nonce = encrypt_envelope_v1_with_nonce(&key(1), &nonce(2), &inner).unwrap();
    assert_ne!(parts(&first).1, parts(&other_key).1);
    assert_ne!(parts(&first).1, parts(&other_nonce).1);
}

#[test]
fn random_nonces_give_different_envelopes() {
    let inner = encode_chat_text_v1("same plaintext");
    let first = encrypt_envelope_v1(&key(1), &inner).unwrap();
    let second = encrypt_envelope_v1(&key(1), &inner).unwrap();
    let (nonce_a, ciphertext_a) = parts(&first);
    let (nonce_b, ciphertext_b) = parts(&second);
    assert_ne!(nonce_a, nonce_b);
    assert_ne!(ciphertext_a, ciphertext_b);
    assert_eq!(decrypt_envelope_v1(&key(1), &first), Ok(inner.clone()));
    assert_eq!(decrypt_envelope_v1(&key(1), &second), Ok(inner));
}

#[test]
fn open_with_wrong_key_fails() {
    let inner = encode_chat_text_v1("secret");
    let envelope = encrypt_envelope_v1_with_nonce(&key(1), &nonce(1), &inner).unwrap();
    assert_eq!(decrypt_envelope_v1(&key(2), &envelope), Err(MessageError::DecryptFailed));
    let mut close = key(1);
    close[31] ^= 1;
    assert_eq!(decrypt_envelope_v1(&close, &envelope), Err(MessageError::DecryptFailed));
}

#[test]
fn open_with_wrong_nonce_fails() {
    let inner = encode_chat_text_v1("secret");
    let envelope = encrypt_envelope_v1_with_nonce(&key(1), &nonce(1), &inner).unwrap();
    let (_, ciphertext) = parts(&envelope);
    let moved = encode_encrypted_envelope_v1(&nonce(2), &ciphertext);
    assert_eq!(decrypt_envelope_v1(&key(1), &moved), Err(MessageError::DecryptFailed));
}

#[test]
fn open_after_any_flipped_bit_fails() {
    let inner = encode_chat_text_v1("secret");
    let envelope = encrypt_envelope_v1_with_nonce(&key(1), &nonce(1), &inner).unwrap();
    let (found_nonce, ciphertext) = parts(&envelope);
    for index in 0..ciphertext.len() {
        for bit in 0..8 {
            let mut changed = ciphertext.clone();
            changed[index] ^= 1 << bit;
            let tampered = encode_encrypted_envelope_v1(&found_nonce, &changed);
            assert_eq!(decrypt_envelope_v1(&key(1), &tampered), Err(MessageError::DecryptFailed));
        }
    }
    for index in 0..found_nonce.len() {
        let mut changed = found_nonce;
        changed[index] ^= 0x80;
        let tampered = encode_encrypted_envelope_v1(&changed, &ciphertext);
        assert_eq!(decrypt_envelope_v1(&key(1), &tampered), Err(MessageError::DecryptFailed));
    }
}

#[test]
fn open_checks_in_order() {
    let inner = encode_chat_text_v1("hola");
    let envelope = encrypt_envelope_v1_with_nonce(&key(1), &nonce(1), &inner).unwrap();
    assert_eq!(decrypt_envelope_v1(&[0u8; 31], &[]), Err(MessageError::KeyLength));
    assert_eq!(
        decrypt_envelope_v1(&key(1), &[]),
        Err(MessageError::Frame(DecodeError::UnexpectedEof))
    );
    assert_eq!(
        decrypt_envelope_v1(&key(1), &envelope[..envelope.len() - 1]),
        Err(MessageError::Frame(DecodeError::UnexpectedEof))
    );
    assert_eq!(
        decrypt_envelope_v1(&key(1), &inner),
        Err(MessageError::WrongType { expected: FrameType::EncryptedEnvelope })
    );
    let short = Frame {
        frame_type: FrameType::EncryptedEnvelope,
        flags: 0,
        payload: vec![0u8; 23],
    };
    let mut bytes = Vec::new();
    encode_v1(&short, &mut bytes);
    assert_eq!(
        decrypt_envelope_v1(&key(1), &bytes),
        Err(MessageError::Payload(DecodeError::BadEnvelope))
    );
    let no_tag = encode_encrypted_envelope_v1(&nonce(1), &[0u8; 15]);
    assert_eq!(decrypt_envelope_v1(&key(1), &no_tag), Err(MessageError::DecryptFailed));
}

#[test]
fn seal_checks_key_before_nonce() {
    assert_eq!(
        encrypt_envelope_v1_with_nonce(&[0u8; 16], &[0u8; 12], b"x"),
        Err(MessageError::KeyLength)
    );
    assert_eq!(
        encrypt_envelope_v1_with_nonce(&key(1), &[0u8; 12], b"x"),
        Err(MessageError::NonceLength)
    );
    assert_eq!(encrypt_envelope_v1(&[0u8; 33], b"x"), Err(MessageError::KeyLength));
}

#[test]
fn envelope_over_the_ceiling_does_not_open() {
    let inner = vec![0x42u8; 1024 * 1024 - 24 - 16 + 1];
    let envelope = encrypt_envelope_v1_with_nonce(&key(1), &nonce(1), &inner).unwrap();
    assert_eq!(
        decrypt_envelope_v1(&key(1), &envelope),
        Err(MessageError::Frame(DecodeError::LengthTooLarge {
            length: 1024 * 1024 + 1,
            max: 1024 * 1024,
        }))
    );
    let inner = vec![0x42u8; 1024 * 1024 - 24 - 16];
    let envelope = encrypt_envelope_v1_with_nonce(&key(1), &nonce(1), &inner).unwrap();
    assert_eq!(decrypt_envelope_v1(&key(1), &envelope), Ok(inner));
}

#[test]
fn envelope_may_wrap_an_envelope() {
    let inner = encode_chat_text_v1("hola");
    let once = encrypt_envelope_v1_with_nonce(&key(1), &nonce(1), &inner).unwrap();
    let twice = encrypt_envelope_v1_with_nonce(&key(2), &nonce(2), &once).unwrap();
    let opened = decrypt_envelope_v1(&key(2), &twice).unwrap();
    assert_eq!(opened, once);
    assert_eq!(decrypt_envelope_v1(&key(1), &opened), Ok(inner));
}
