//! Encrypted envelopes: an inner encoded frame sealed with XChaCha20-Poly1305
//! and carried, behind its nonce, as the payload of an envelope frame.
//!
//! The cipher is not part of this crate. What it computes is known here only
//! by name; this module fixes what is handed to it and where its output goes
//! on the wire. A nonce must never be used twice under one key: nothing here
//! can detect that, so callers that supply their own nonce answer for it.

use crate::frame::{frame_bytes, lemma_decode_encoded, FrameType, ENVELOPE_NONCE_LEN};
use crate::message::{decode_payload_of, parse_payload_of, MessageError, MAX_PAYLOAD_LEN};
use crate::payload::{
    decode_encrypted_envelope_payload_v1, encode_encrypted_envelope_v1, envelope_payload,
    lemma_envelope_round_trip, parse_envelope, plain_frame,
};
use chacha20poly1305::aead::Aead;
use chacha20poly1305::KeyInit;
use rand::RngCore;
use vstd::prelude::*;

verus! {

/// Bytes of a symmetric key.
pub const KEY_LEN: usize = 32;

/// Bytes that sealing adds to a plaintext: the authentication tag.
pub const TAG_LEN: usize = 16;

/// `chacha20poly1305::aead::Error`, the cipher's one error: it says that the
/// cipher refused and nothing more.
#[verifier::external_type_specification]
#[verifier::external_body]
pub struct ExAeadError(chacha20poly1305::aead::Error);

/// `rand::Error`, the random source's error, carried through without a look
/// inside.
#[verifier::external_type_specification]
#[verifier::external_body]
pub struct ExRandError(rand::Error);

/// What XChaCha20-Poly1305 encryption of `plaintext` under `key` and `nonce`,
/// with no associated data, returns: the ciphertext with its tag, or nothing
/// where the cipher refuses.
pub uninterp spec fn xchacha20poly1305_seal(
    key: Seq<u8>,
    nonce: Seq<u8>,
    plaintext: Seq<u8>,
) -> Option<Seq<u8>>;

/// What XChaCha20-Poly1305 decryption of `ciphertext` under `key` and
/// `nonce`, with no associated data, returns: the plaintext, or nothing where
/// the cipher refuses.
pub uninterp spec fn xchacha20poly1305_open(
    key: Seq<u8>,
    nonce: Seq<u8>,
    ciphertext: Seq<u8>,
) -> Option<Seq<u8>>;

/// Keys `chacha20poly1305::XChaCha20Poly1305` with `key` and calls its
/// `Aead::encrypt` on `plaintext` under `nonce`.
///
/// Taken on trust from the cipher: the result depends on the three arguments
/// alone; a ciphertext is the plaintext's length plus a 16-byte tag; and a
/// ciphertext that it produced decrypts, under the same key and nonce, to the
/// plaintext it was made from.
#[verifier::external_body]
fn aead_seal(key: &[u8; 32], nonce: &[u8; 24], plaintext: &[u8]) -> (result: Result<
    Vec<u8>,
    chacha20poly1305::aead::Error,
>)
    ensures
        match result {
            Ok(ciphertext) => {
                &&& xchacha20poly1305_seal(key@, nonce@, plaintext@) == Some(ciphertext@)
                &&& ciphertext@.len() == plaintext@.len() + TAG_LEN
                &&& xchacha20poly1305_open(key@, nonce@, ciphertext@) == Some(plaintext@)
            },
            Err(_) => xchacha20poly1305_seal(key@, nonce@, plaintext@) is None,
        },
{
    let cipher = chacha20poly1305::XChaCha20Poly1305::new(key.into());
    cipher.encrypt(nonce.into(), plaintext)
}

/// Keys `chacha20poly1305::XChaCha20Poly1305` with `key` and calls its
/// `Aead::decrypt` on `ciphertext` under `nonce`.
///
/// Taken on trust from the cipher: the result depends on the three arguments
/// alone.
#[verifier::external_body]
fn aead_open(key: &[u8; 32], nonce: &[u8; 24], ciphertext: &[u8]) -> (result: Result<
    Vec<u8>,
    chacha20poly1305::aead::Error,
>)
    ensures
        match result {
            Ok(plaintext) => xchacha20poly1305_open(key@, nonce@, ciphertext@) == Some(
                plaintext@,
            ),
            Err(_) => xchacha20poly1305_open(key@, nonce@, ciphertext@) is None,
        },
{
    let cipher = chacha20poly1305::XChaCha20Poly1305::new(key.into());
    cipher.decrypt(nonce.into(), ciphertext)
}

/// Asks `rand::rngs::OsRng` for 24 bytes through `RngCore::try_fill_bytes`.
/// Nothing is known of the bytes that come back.
#[verifier::external_body]
fn os_random_nonce() -> (result: Result<[u8; 24], rand::Error>) {
    let mut nonce = [0u8; 24];
    rand::rngs::OsRng.try_fill_bytes(&mut nonce)?;
    Ok(nonce)
}

/// The encoded envelope frame for `inner` sealed under `key` and `nonce`, if
/// the cipher seals it.
pub open spec fn sealed_envelope(key: Seq<u8>, nonce: Seq<u8>, inner: Seq<u8>) -> Result<
    Seq<u8>,
    MessageError,
> {
    match xchacha20poly1305_seal(key, nonce, inner) {
        None => Err(MessageError::EncryptFailed),
        Some(ciphertext) => Ok(
            frame_bytes(plain_frame(FrameType::EncryptedEnvelope, envelope_payload(nonce, ciphertext))),
        ),
    }
}

/// Sealing with a key and a nonce given as byte strings: both lengths are
/// checked, the key first.
pub open spec fn seal_with(key: Seq<u8>, nonce: Seq<u8>, inner: Seq<u8>) -> Result<
    Seq<u8>,
    MessageError,
> {
    if key.len() != KEY_LEN {
        Err(MessageError::KeyLength)
    } else if nonce.len() != ENVELOPE_NONCE_LEN {
        Err(MessageError::NonceLength)
    } else {
        sealed_envelope(key, nonce, inner)
    }
}

/// Opening the envelope frame at the front of `input` under `key`: the key's
/// length is checked, then the frame, its kind and its payload, and last the
/// cipher decides.
pub open spec fn open_envelope(key: Seq<u8>, input: Seq<u8>) -> Result<Seq<u8>, MessageError> {
    if key.len() != KEY_LEN {
        Err(MessageError::KeyLength)
    } else {
        match parse_payload_of(input, FrameType::EncryptedEnvelope) {
            Err(e) => Err(e),
            Ok(payload) => match parse_envelope(payload) {
                Err(e) => Err(MessageError::Payload(e)),
                Ok((nonce, ciphertext)) => match xchacha20poly1305_open(key, nonce, ciphertext) {
                    None => Err(MessageError::DecryptFailed),
                    Some(plaintext) => Ok(plaintext),
                },
            },
        }
    }
}

/// Whether `result` is `expected`, bytes compared by view.
pub open spec fn bytes_result_is(
    result: Result<Vec<u8>, MessageError>,
    expected: Result<Seq<u8>, MessageError>,
) -> bool {
    match expected {
        Ok(bytes) => result matches Ok(b) && b@ == bytes,
        Err(e) => result == Err::<Vec<u8>, MessageError>(e),
    }
}

/// Whether an inner frame of `len` bytes, once sealed, still fits under the
/// ceiling with its nonce and tag.
pub open spec fn fits_envelope(len: nat) -> bool {
    ENVELOPE_NONCE_LEN + len + TAG_LEN <= MAX_PAYLOAD_LEN
}

/// Copies a key out of `key_bytes`, which must be exactly 32 bytes.
pub fn parse_key_32(key_bytes: &[u8]) -> (result: Result<[u8; 32], MessageError>)
    ensures
        if key_bytes@.len() == KEY_LEN {
            result matches Ok(key) && key@ == key_bytes@
        } else {
            result == Err::<[u8; 32], MessageError>(MessageError::KeyLength)
        },
{
    if key_bytes.len() != KEY_LEN {
        return Err(MessageError::KeyLength);
    }
    let mut key = [0u8; 32];
    let mut i: usize = 0;
    while i < KEY_LEN
        invariant
            i <= KEY_LEN == key_bytes.len(),
            forall|j: int| 0 <= j < i ==> key@[j] == key_bytes@[j],
        decreases KEY_LEN - i,
    {
        key[i] = key_bytes[i];
        i += 1;
    }
    assert(key@ =~= key_bytes@);
    Ok(key)
}

/// Copies a nonce out of `nonce_bytes`, which must be exactly 24 bytes.
pub fn parse_nonce_24(nonce_bytes: &[u8]) -> (result: Result<[u8; 24], MessageError>)
    ensures
        if nonce_bytes@.len() == ENVELOPE_NONCE_LEN {
            result matches Ok(nonce) && nonce@ == nonce_bytes@
        } else {
            result == Err::<[u8; 24], MessageError>(MessageError::NonceLength)
        },
{
    if nonce_bytes.len() != ENVELOPE_NONCE_LEN {
        return Err(MessageError::NonceLength);
    }
    let mut nonce = [0u8; 24];
    let mut i: usize = 0;
    while i < ENVELOPE_NONCE_LEN
        invariant
            i <= ENVELOPE_NONCE_LEN == nonce_bytes.len(),
            forall|j: int| 0 <= j < i ==> nonce@[j] == nonce_bytes@[j],
        decreases ENVELOPE_NONCE_LEN - i,
    {
        nonce[i] = nonce_bytes[i];
        i += 1;
    }
    assert(nonce@ =~= nonce_bytes@);
    Ok(nonce)
}

/// Seals `inner_frame_bytes` under `key` and `nonce` and wraps nonce and
/// ciphertext in an envelope frame.
///
/// An envelope that comes back and fits under the ceiling opens, under the
/// same key, to the bytes that were sealed.
pub fn seal_envelope(key: &[u8; 32], nonce: &[u8; 24], inner_frame_bytes: &[u8]) -> (result: Result<
    Vec<u8>,
    MessageError,
>)
    ensures
        bytes_result_is(result, sealed_envelope(key@, nonce@, inner_frame_bytes@)),
        result matches Ok(envelope) ==> (fits_envelope(inner_frame_bytes@.len()) ==> open_envelope(
            key@,
            envelope@,
        ) == Ok::<Seq<u8>, MessageError>(inner_frame_bytes@)),
{
    match aead_seal(key, nonce, inner_frame_bytes) {
        Ok(ciphertext) => {
            let envelope = encode_encrypted_envelope_v1(nonce, ciphertext.as_slice());
            proof {
                if fits_envelope(inner_frame_bytes@.len()) {
                    lemma_decode_encoded(
                        plain_frame(
                            FrameType::EncryptedEnvelope,
                            envelope_payload(nonce@, ciphertext@),
                        ),
                        MAX_PAYLOAD_LEN,
                    );
                    lemma_envelope_round_trip(nonce@, ciphertext@);
                }
            }
            Ok(envelope)
        },
        Err(_) => Err(MessageError::EncryptFailed),
    }
}

/// Seals `inner_frame_bytes` under `key_bytes` with a nonce drawn from the
/// system's random source.
///
/// Which nonce is drawn is not known in advance; whichever it is, the result
/// is the envelope sealed with it.
pub fn encrypt_envelope_v1(key_bytes: &[u8], inner_frame_bytes: &[u8]) -> (result: Result<
    Vec<u8>,
    MessageError,
>)
    ensures
        key_bytes@.len() != KEY_LEN ==> result == Err::<Vec<u8>, MessageError>(
            MessageError::KeyLength,
        ),
        key_bytes@.len() == KEY_LEN ==> result == Err::<Vec<u8>, MessageError>(
            MessageError::RandomUnavailable,
        ) || exists|nonce: Seq<u8>|
            nonce.len() == ENVELOPE_NONCE_LEN && bytes_result_is(
                result,
                #[trigger] sealed_envelope(key_bytes@, nonce, inner_frame_bytes@),
            ),
        result matches Ok(envelope) ==> (fits_envelope(inner_frame_bytes@.len()) ==> open_envelope(
            key_bytes@,
            envelope@,
        ) == Ok::<Seq<u8>, MessageError>(inner_frame_bytes@)),
{
    let key = match parse_key_32(key_bytes) {
        Ok(key) => key,
        Err(e) => return Err(e),
    };
    let nonce = match os_random_nonce() {
        Ok(nonce) => nonce,
        Err(_) => return Err(MessageError::RandomUnavailable),
    };
    seal_envelope(&key, &nonce, inner_frame_bytes)
}

/// Seals `inner_frame_bytes` under `key_bytes` with the nonce the caller
/// supplies, which must not have been used with this key before.
pub fn encrypt_envelope_v1_with_nonce(
    key_bytes: &[u8],
    nonce_bytes: &[u8],
    inner_frame_bytes: &[u8],
) -> (result: Result<Vec<u8>, MessageError>)
    ensures
        bytes_result_is(result, seal_with(key_bytes@, nonce_bytes@, inner_frame_bytes@)),
        result matches Ok(envelope) ==> (fits_envelope(inner_frame_bytes@.len()) ==> open_envelope(
            key_bytes@,
            envelope@,
        ) == Ok::<Seq<u8>, MessageError>(inner_frame_bytes@)),
{
    let key = match parse_key_32(key_bytes) {
        Ok(key) => key,
        Err(e) => return Err(e),
    };
    let nonce = match parse_nonce_24(nonce_bytes) {
        Ok(nonce) => nonce,
        Err(e) => return Err(e),
    };
    seal_envelope(&key, &nonce, inner_frame_bytes)
}

/// Opens the envelope frame at the front of `envelope_frame_bytes` under
/// `key_bytes` and returns the inner frame's bytes.
pub fn decrypt_envelope_v1(key_bytes: &[u8], envelope_frame_bytes: &[u8]) -> (result: Result<
    Vec<u8>,
    MessageError,
>)
    ensures
        bytes_result_is(result, open_envelope(key_bytes@, envelope_frame_bytes@)),
{
    let key = match parse_key_32(key_bytes) {
        Ok(key) => key,
        Err(e) => return Err(e),
    };
    let payload = match decode_payload_of(envelope_frame_bytes, FrameType::EncryptedEnvelope) {
        Ok(payload) => payload,
        Err(e) => return Err(e),
    };
    let (nonce, ciphertext) = match decode_encrypted_envelope_payload_v1(payload.as_slice()) {
        Ok(pair) => pair,
        Err(e) => return Err(MessageError::Payload(e)),
    };
    match aead_open(&key, &nonce, ciphertext.as_slice()) {
        Ok(plaintext) => Ok(plaintext),
        Err(_) => Err(MessageError::DecryptFailed),
    }
}

} // verus!
