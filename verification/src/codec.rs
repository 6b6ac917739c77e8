//! The encrypted container that holds exported records: a 12-byte nonce
//! followed by the AES-256-GCM ciphertext and tag of the interchange text.
//!
//! The key is a constant of this library. The container therefore keeps the
//! text from casual tampering and from being read as plain text on disk; it
//! does not keep it from anyone who has the program.

use vstd::prelude::*;
use vstd::slice::slice_subrange;
use aes_gcm::aead::Aead;
use aes_gcm::{Aes256Gcm, Key, KeyInit, Nonce};

verus! {

/// The length of the nonce that starts a container.
pub const NONCE_LEN: usize = 12;

/// The length of the authentication tag that ends a container.
pub const TAG_LEN: usize = 16;

/// The longest plaintext that the cipher seals, in bytes.
pub const MAX_PLAINTEXT_LEN: u64 = 0x10_0000_0000;

/// The key under which every container is sealed: the 32 ASCII characters
/// `EasyWingetManager_Key_32Chars_!!`.
pub const CONTAINER_KEY: [u8; 32] = [
    0x45, 0x61, 0x73, 0x79, 0x57, 0x69, 0x6e, 0x67,
    0x65, 0x74, 0x4d, 0x61, 0x6e, 0x61, 0x67, 0x65,
    0x72, 0x5f, 0x4b, 0x65, 0x79, 0x5f, 0x33, 0x32,
    0x43, 0x68, 0x61, 0x72, 0x73, 0x5f, 0x21, 0x21,
];

/// Why a container could not be made or read.
#[derive(Debug, Clone, Copy, PartialEq, Eq, Structural)]
pub enum CodecError {
    /// The container is shorter than a nonce.
    Format,
    /// The cipher refused the container: wrong key, or bytes that are not
    /// what was sealed.
    Decryption,
    /// The cipher refused the plaintext.
    Encryption,
}

/// `aes_gcm::Error`: the cipher's refusal, which says nothing of its cause.
#[verifier::external_type_specification]
#[verifier::external_body]
pub struct ExCipherError(aes_gcm::Error);

/// What AES-256-GCM makes of `plaintext` under `key` and `nonce`, without
/// associated data: the ciphertext followed by the tag.
pub uninterp spec fn sealed_bytes(key: Seq<u8>, nonce: Seq<u8>, plaintext: Seq<u8>) -> Seq<u8>;

/// The plaintext that AES-256-GCM recovers from `sealed` under `key` and
/// `nonce`, without associated data; `None` where it rejects `sealed`.
pub uninterp spec fn opened_bytes(key: Seq<u8>, nonce: Seq<u8>, sealed: Seq<u8>) -> Option<
    Seq<u8>,
>;

/// `Aes256Gcm::new` on the key, then `Aead::encrypt` on nonce and plaintext.
/// Assumed of them: a plaintext of at most 2^36 bytes is sealed and a longer
/// one refused; what comes back is the named ciphertext with its 16-byte tag
/// behind it; and decrypting it under the same key and nonce recovers the
/// plaintext.
#[verifier::external_body]
fn aes_gcm_encrypt(key: &[u8], nonce: &[u8], plaintext: &[u8]) -> (out: Result<
    Vec<u8>,
    aes_gcm::Error,
>)
    requires
        key@.len() == 32,
        nonce@.len() == NONCE_LEN,
    ensures
        out is Ok <==> plaintext@.len() <= MAX_PLAINTEXT_LEN,
        out matches Ok(sealed) ==> sealed@ == sealed_bytes(key@, nonce@, plaintext@),
        out matches Ok(sealed) ==> sealed@.len() == plaintext@.len() + TAG_LEN,
        out matches Ok(sealed) ==> opened_bytes(key@, nonce@, sealed@) == Some(plaintext@),
{
    let cipher = Aes256Gcm::new(Key::<Aes256Gcm>::from_slice(key));
    cipher.encrypt(Nonce::from_slice(nonce), plaintext)
}

/// `Aes256Gcm::new` on the key, then `Aead::decrypt` on nonce and sealed
/// bytes. Assumed of them: what comes back is the named result, and a
/// recovered plaintext is 16 bytes, the tag, shorter than what was given.
#[verifier::external_body]
fn aes_gcm_decrypt(key: &[u8], nonce: &[u8], sealed: &[u8]) -> (out: Result<
    Vec<u8>,
    aes_gcm::Error,
>)
    requires
        key@.len() == 32,
        nonce@.len() == NONCE_LEN,
    ensures
        out matches Ok(plaintext) ==> opened_bytes(key@, nonce@, sealed@) == Some(plaintext@),
        out matches Ok(plaintext) ==> plaintext@.len() + TAG_LEN == sealed@.len(),
        out is Err ==> opened_bytes(key@, nonce@, sealed@) is None,
{
    let cipher = Aes256Gcm::new(Key::<Aes256Gcm>::from_slice(key));
    cipher.decrypt(Nonce::from_slice(nonce), sealed)
}

/// `rand::thread_rng`, then `RngCore::fill_bytes` on twelve bytes. Nothing is
/// assumed of the bytes that come back.
#[verifier::external_body]
fn random_nonce() -> (nonce: [u8; 12]) {
    let mut nonce = [0u8; 12];
    rand::RngCore::fill_bytes(&mut rand::thread_rng(), &mut nonce);
    nonce
}

/// What a result that carries bytes holds.
pub open spec fn bytes_of(outcome: Result<Vec<u8>, CodecError>) -> Result<Seq<u8>, CodecError> {
    match outcome {
        Ok(bytes) => Ok(bytes@),
        Err(e) => Err(e),
    }
}

/// The container that holds `plaintext` under `nonce`: the nonce, then what
/// the cipher makes of the plaintext under the library's key.
pub open spec fn container_of(nonce: Seq<u8>, plaintext: Seq<u8>) -> Seq<u8> {
    nonce + sealed_bytes(CONTAINER_KEY@, nonce, plaintext)
}

/// What reading `container` gives: a format error where it is shorter than a
/// nonce; else what the cipher recovers from the bytes behind the nonce, or a
/// decryption error where it rejects them.
pub open spec fn plaintext_of(container: Seq<u8>) -> Result<Seq<u8>, CodecError> {
    if container.len() < NONCE_LEN {
        Err(CodecError::Format)
    } else {
        match opened_bytes(
            CONTAINER_KEY@,
            container.take(NONCE_LEN as int),
            container.skip(NONCE_LEN as int),
        ) {
            Some(plaintext) => Ok(plaintext),
            None => Err(CodecError::Decryption),
        }
    }
}

/// Puts `nonce` before what the cipher returned; a refusal by the cipher
/// becomes an encryption error.
pub fn frame_container(nonce: &[u8], sealed: Result<Vec<u8>, aes_gcm::Error>) -> (out: Result<
    Vec<u8>,
    CodecError,
>)
    ensures
        match sealed {
            Ok(bytes) => bytes_of(out) == Ok::<Seq<u8>, CodecError>(nonce@ + bytes@),
            Err(_) => out == Err::<Vec<u8>, CodecError>(CodecError::Encryption),
        },
{
    match sealed {
        Ok(bytes) => {
            let mut container: Vec<u8> = Vec::new();
            container.extend_from_slice(nonce);
            container.extend_from_slice(bytes.as_slice());
            assert(container@ == nonce@ + bytes@);
            Ok(container)
        },
        Err(_) => Err(CodecError::Encryption),
    }
}

/// Splits a container into its nonce and what follows it; a format error
/// where it is shorter than a nonce.
pub fn split_container<'a>(container: &'a [u8]) -> (out: Result<(&'a [u8], &'a [u8]), CodecError>)
    ensures
        container@.len() < NONCE_LEN ==> out == Err::<(&[u8], &[u8]), CodecError>(
            CodecError::Format,
        ),
        container@.len() >= NONCE_LEN ==> out is Ok && out.unwrap().0@ == container@.take(
            NONCE_LEN as int,
        ) && out.unwrap().1@ == container@.skip(NONCE_LEN as int),
{
    let n = container.len();
    if n < NONCE_LEN {
        Err(CodecError::Format)
    } else {
        Ok((slice_subrange(container, 0, NONCE_LEN), slice_subrange(container, NONCE_LEN, n)))
    }
}

/// Hands on the plaintext that the cipher recovered; a refusal by the cipher
/// becomes a decryption error.
pub fn recovered_plaintext(opened: Result<Vec<u8>, aes_gcm::Error>) -> (out: Result<
    Vec<u8>,
    CodecError,
>)
    ensures
        match opened {
            Ok(bytes) => bytes_of(out) == Ok::<Seq<u8>, CodecError>(bytes@),
            Err(_) => out == Err::<Vec<u8>, CodecError>(CodecError::Decryption),
        },
{
    match opened {
        Ok(bytes) => Ok(bytes),
        Err(_) => Err(CodecError::Decryption),
    }
}

/// Seals `plaintext` under the library's key and the given nonce. A
/// plaintext that the cipher takes gives the container of nonce and
/// plaintext, which reads back as that plaintext; a longer one gives an
/// encryption error.
pub fn encrypt_container_with_nonce(nonce: &[u8; 12], plaintext: &[u8]) -> (out: Result<
    Vec<u8>,
    CodecError,
>)
    ensures
        plaintext@.len() <= MAX_PLAINTEXT_LEN ==> bytes_of(out) == Ok::<Seq<u8>, CodecError>(
            container_of(nonce@, plaintext@),
        ),
        plaintext@.len() > MAX_PLAINTEXT_LEN ==> out == Err::<Vec<u8>, CodecError>(
            CodecError::Encryption,
        ),
        out matches Ok(container) ==> container@.len() == NONCE_LEN + plaintext@.len() + TAG_LEN
            && plaintext_of(container@) == Ok::<Seq<u8>, CodecError>(plaintext@),
{
    let key = CONTAINER_KEY;
    let sealed = aes_gcm_encrypt(key.as_slice(), nonce.as_slice(), plaintext);
    let ghost sealed_view = sealed;
    let out = frame_container(nonce.as_slice(), sealed);
    proof {
        if sealed_view is Ok {
            let bytes = sealed_view.unwrap()@;
            let container = nonce@ + bytes;
            assert(container.take(NONCE_LEN as int) == nonce@);
            assert(container.skip(NONCE_LEN as int) == bytes);
        }
    }
    out
}

/// Seals `plaintext` under the library's key and a nonce drawn afresh. A
/// plaintext that the cipher takes gives the container of some 12-byte nonce
/// and the plaintext, which reads back as that plaintext; a longer one gives
/// an encryption error.
pub fn encrypt_container(plaintext: &[u8]) -> (out: Result<Vec<u8>, CodecError>)
    ensures
        plaintext@.len() <= MAX_PLAINTEXT_LEN ==> out is Ok,
        plaintext@.len() > MAX_PLAINTEXT_LEN ==> out == Err::<Vec<u8>, CodecError>(
            CodecError::Encryption,
        ),
        out matches Ok(container) ==> {
            &&& container@.len() == NONCE_LEN + plaintext@.len() + TAG_LEN
            &&& container@ == container_of(container@.take(NONCE_LEN as int), plaintext@)
            &&& plaintext_of(container@) == Ok::<Seq<u8>, CodecError>(plaintext@)
        },
{
    let nonce = random_nonce();
    let out = encrypt_container_with_nonce(&nonce, plaintext);
    proof {
        if out is Ok {
            assert(out.unwrap()@.take(NONCE_LEN as int) == nonce@);
        }
    }
    out
}

/// Reads a container: the plaintext that was sealed in it, a format error
/// where it is shorter than a nonce, a decryption error where the cipher
/// rejects what follows the nonce.
pub fn decrypt_container(container: &[u8]) -> (out: Result<Vec<u8>, CodecError>)
    ensures
        bytes_of(out) == plaintext_of(container@),
        container@.len() < NONCE_LEN ==> out == Err::<Vec<u8>, CodecError>(CodecError::Format),
        NONCE_LEN <= container@.len() < NONCE_LEN + TAG_LEN ==> out == Err::<Vec<u8>, CodecError>(
            CodecError::Decryption,
        ),
        out matches Ok(plaintext) ==> plaintext@.len() + NONCE_LEN + TAG_LEN == container@.len(),
{
    let (nonce, sealed) = match split_container(container) {
        Ok(parts) => parts,
        Err(e) => {
            return Err(e);
        },
    };
    let key = CONTAINER_KEY;
    recovered_plaintext(aes_gcm_decrypt(key.as_slice(), nonce, sealed))
}

} // verus!
