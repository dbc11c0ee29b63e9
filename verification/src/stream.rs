use vstd::prelude::*;
use chacha20poly1305::aead::stream::{NewStream, StreamBE32, StreamPrimitive};
use chacha20poly1305::{KeyInit, XChaCha20Poly1305};

verus! {

/// Length of an XChaCha20-Poly1305 key, in bytes.
pub const KEY_LEN: usize = 32;

/// Length of the STREAM nonce prefix: the 24-byte XChaCha20 nonce less the
/// 4-byte big-endian counter and the 1-byte last-chunk flag.
pub const STREAM_NONCE_LEN: usize = 19;

/// Length of the Poly1305 tag that each sealed chunk carries.
pub const TAG_LEN: usize = 16;

/// The longest message sealed as one chunk of the stream, in bytes.
pub const MAX_CHUNK_MSG_LEN: usize = 500;

/// The sealed form of `msg` as chunk `position` of the stream under `key`
/// and `nonce`, `last` telling whether it ends the stream.
pub uninterp spec fn stream_seal(key: Seq<u8>, nonce: Seq<u8>, position: u32, last: bool, msg: Seq<u8>) -> Seq<u8>;

/// What opening `ct` as chunk `position` of the stream gives: `None` where
/// the tag does not authenticate it.
pub uninterp spec fn stream_open(key: Seq<u8>, nonce: Seq<u8>, position: u32, last: bool, ct: Seq<u8>) -> Option<Seq<u8>>;

#[verifier::external_type_specification]
#[verifier::external_body]
pub struct ExAeadError(chacha20poly1305::aead::Error);

/// Seals one chunk: `StreamBE32::<XChaCha20Poly1305>::encrypt(position, last, msg)`
/// with the cipher keyed by `key` and the stream nonce `nonce`.
/// Trusted: a message of at most one chunk is far below the keystream that
/// ChaCha20 offers, so it is sealed; the sealed chunk is the message followed
/// by a 16-byte tag, named `stream_seal`, and opening it at the same key,
/// nonce, position and flag gives the message back.
#[verifier::external_body]
pub(crate) fn seal_chunk(key: &[u8], nonce: &[u8], position: u32, last: bool, msg: &[u8]) -> (res: Result<Vec<u8>, chacha20poly1305::aead::Error>)
    requires
        key@.len() == KEY_LEN,
        nonce@.len() == STREAM_NONCE_LEN,
        msg@.len() <= MAX_CHUNK_MSG_LEN,
    ensures
        res is Ok,
        res matches Ok(c) ==> c@ == stream_seal(key@, nonce@, position, last, msg@),
        res matches Ok(c) ==> c@.len() == msg@.len() + TAG_LEN,
        res matches Ok(c) ==> stream_open(key@, nonce@, position, last, c@) == Some(msg@),
{
    let aead = XChaCha20Poly1305::new(key.into());
    let stream = StreamBE32::from_aead(aead, nonce.into());
    stream.encrypt(position, last, msg)
}

/// Opens one chunk: `StreamBE32::<XChaCha20Poly1305>::decrypt(position, last, ct)`
/// with the cipher keyed by `key` and the stream nonce `nonce`.
/// Trusted: for a chunk of at most one sealed chunk's length, it succeeds
/// exactly where `stream_open` gives a message, returns that message, and the
/// message is the chunk less its 16-byte tag.
#[verifier::external_body]
pub(crate) fn open_chunk(key: &[u8], nonce: &[u8], position: u32, last: bool, ct: &[u8]) -> (res: Result<Vec<u8>, chacha20poly1305::aead::Error>)
    requires
        key@.len() == KEY_LEN,
        nonce@.len() == STREAM_NONCE_LEN,
        ct@.len() <= MAX_CHUNK_MSG_LEN + TAG_LEN,
    ensures
        res is Ok <==> stream_open(key@, nonce@, position, last, ct@) is Some,
        res matches Ok(m) ==> stream_open(key@, nonce@, position, last, ct@) == Some(m@),
        res matches Ok(m) ==> m@.len() + TAG_LEN == ct@.len(),
{
    let aead = XChaCha20Poly1305::new(key.into());
    let stream = StreamBE32::from_aead(aead, nonce.into());
    stream.decrypt(position, last, ct)
}

} // verus!
