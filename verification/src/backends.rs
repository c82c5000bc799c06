//! The calls that the archiver makes into zstd, BLAKE3, ChaCha20-Poly1305 and
//! `std::path`. Each wrapper below is trusted: Verus believes its contract and
//! does not read its body. The names without a body stand for results that
//! only the outside code computes; the contracts tie them to the arguments.
use vstd::prelude::*;

use chacha20poly1305::aead::{Aead, KeyInit};

verus! {

/// `std::io::Error`, returned by zstd's one-shot functions.
#[verifier::external_type_specification]
#[verifier::external_body]
pub struct ExIoError(std::io::Error);

/// `aead::Error`, the opaque failure of ChaCha20-Poly1305.
#[verifier::external_type_specification]
#[verifier::external_body]
pub struct ExAeadError(chacha20poly1305::Error);

/// The bytes that `zstd::encode_all` produces for `data` at `level`.
pub uninterp spec fn zstd_encoded(data: Seq<u8>, level: i32) -> Seq<u8>;

/// Whether `zstd::encode_all` succeeds on `data` at `level`.
pub uninterp spec fn zstd_encode_succeeds(data: Seq<u8>, level: i32) -> bool;

/// What `zstd::decode_all` gives back for `frame`: the decompressed bytes,
/// or `None` where it reports an error.
pub uninterp spec fn zstd_decoded(frame: Seq<u8>) -> Option<Seq<u8>>;

/// The 32-byte BLAKE3 digest of `input`.
pub uninterp spec fn blake3_digest(input: Seq<u8>) -> Seq<u8>;

/// The ciphertext (message followed by its tag) that ChaCha20-Poly1305
/// produces for `plaintext` under `key` and `nonce`, without associated data.
pub uninterp spec fn aead_sealed(key: Seq<u8>, nonce: Seq<u8>, plaintext: Seq<u8>) -> Seq<u8>;

/// What ChaCha20-Poly1305 decryption under `key` and `nonce` gives back for
/// `ciphertext`: the plaintext, or `None` where the tag does not verify.
pub uninterp spec fn aead_opened(key: Seq<u8>, nonce: Seq<u8>, ciphertext: Seq<u8>) -> Option<Seq<u8>>;

/// What `Path::parent` returns for the path written `path`.
pub uninterp spec fn path_parent_of(path: Seq<char>) -> Option<Seq<char>>;

/// Whether `Path::starts_with` holds of `path` and `base` (whole components).
pub uninterp spec fn path_has_prefix(path: Seq<char>, base: Seq<char>) -> bool;

/// What `Path::strip_prefix` returns for `path` and `base`, where it succeeds.
pub uninterp spec fn path_stripped(path: Seq<char>, base: Seq<char>) -> Seq<char>;

/// Calls `zstd::encode_all` on `data` at `level`. Claims that it succeeds
/// exactly where the named success holds (zstd's answer on these bytes and
/// this level), that a success is the named compression of `data`, and that
/// zstd's decoder gives `data` back from it (the format is lossless).
#[verifier::external_body]
pub fn zstd_encode_all(data: &[u8], level: i32) -> (r: Result<Vec<u8>, std::io::Error>)
    ensures
        r is Ok <==> zstd_encode_succeeds(data@, level),
        r matches Ok(c) ==> c@ == zstd_encoded(data@, level),
        r matches Ok(c) ==> zstd_decoded(c@) == Some(data@),
{
    zstd::encode_all(data, level)
}

/// Calls `zstd::decode_all` on `frame`. Claims that it fails exactly where
/// the named decoding is `None` and otherwise returns that decoding.
#[verifier::external_body]
pub fn zstd_decode_all(frame: &[u8]) -> (r: Result<Vec<u8>, std::io::Error>)
    ensures
        r is Ok <==> zstd_decoded(frame@) is Some,
        r matches Ok(d) ==> zstd_decoded(frame@) == Some(d@),
{
    zstd::decode_all(frame)
}

/// Calls `blake3::hash` and copies out its 32 bytes (`Hash::as_bytes`).
/// Claims that the bytes are the named digest of `input`.
#[verifier::external_body]
pub fn blake3_hash(input: &[u8]) -> (r: [u8; 32])
    ensures
        r@ == blake3_digest(input@),
{
    *blake3::hash(input).as_bytes()
}

/// Builds a `ChaCha20Poly1305` from `key` (`KeyInit::new`) and calls
/// `Aead::encrypt` with `nonce` on `plaintext`. Required: the message fits
/// the keystream, which starts at block 1 and has `u32::MAX - 1` blocks of
/// 64 bytes left (longer messages either fail the crate's length check or
/// make the stream cipher panic). Claims that it then succeeds, that the
/// result is the named sealing, 16 bytes (the tag) longer than `plaintext`,
/// and that decryption with the same key and nonce gives `plaintext` back.
#[verifier::external_body]
pub fn chacha20poly1305_encrypt(key: &[u8; 32], nonce: &[u8; 12], plaintext: &[u8]) -> (r: Result<
    Vec<u8>,
    chacha20poly1305::Error,
>)
    requires
        plaintext@.len() <= 274_877_906_816,
    ensures
        r is Ok,
        r matches Ok(c) ==> c@ == aead_sealed(key@, nonce@, plaintext@),
        r matches Ok(c) ==> c@.len() == plaintext@.len() + 16,
        r matches Ok(c) ==> aead_opened(key@, nonce@, c@) == Some(plaintext@),
{
    chacha20poly1305::ChaCha20Poly1305::new(&(*key).into()).encrypt(
        &chacha20poly1305::Nonce::from(*nonce),
        plaintext,
    )
}

/// Builds a `ChaCha20Poly1305` from `key` (`KeyInit::new`) and calls
/// `Aead::decrypt` with `nonce` on `ciphertext`. Required: the message (the
/// ciphertext without its 16-byte tag) fits the keystream as for encryption;
/// a longer one with a valid tag makes the stream cipher panic. Claims that
/// it fails exactly
/// where the named opening is `None` and otherwise returns that opening; that
/// input shorter than the 16-byte tag fails; and that a plaintext is the
/// input without its tag.
#[verifier::external_body]
pub fn chacha20poly1305_decrypt(key: &[u8; 32], nonce: &[u8; 12], ciphertext: &[u8]) -> (r: Result<
    Vec<u8>,
    chacha20poly1305::Error,
>)
    requires
        ciphertext@.len() <= 274_877_906_816 + 16,
    ensures
        r is Ok <==> aead_opened(key@, nonce@, ciphertext@) is Some,
        r matches Ok(p) ==> aead_opened(key@, nonce@, ciphertext@) == Some(p@),
        ciphertext@.len() < 16 ==> r is Err,
        r matches Ok(p) ==> p@.len() + 16 == ciphertext@.len(),
{
    chacha20poly1305::ChaCha20Poly1305::new(&(*key).into()).decrypt(
        &chacha20poly1305::Nonce::from(*nonce),
        ciphertext,
    )
}

/// Calls `Path::parent` on `path` and converts the parent back to a string
/// (`to_string_lossy`, which loses nothing here: a parent of a UTF-8 path is
/// a prefix of it ending at a separator). Claims that the result is the named
/// parent and, as the documentation says ("the Path without its final
/// component"), strictly shorter than `path`. Since `starts_with` compares
/// whole components, `path` starts with its parent, and whatever starts with
/// `path` starts with the parent too; where there is no parent, `path` starts
/// with itself (its components are a prefix of themselves).
#[verifier::external_body]
pub fn path_parent(path: &str) -> (r: Option<String>)
    ensures
        r matches Some(q) ==> path_parent_of(path@) == Some(q@),
        r is None ==> path_parent_of(path@) is None,
        r matches Some(q) ==> q@.len() < path@.len(),
        r matches Some(q) ==> path_has_prefix(path@, q@),
        r matches Some(q) ==> forall|x: Seq<char>|
            #[trigger] path_has_prefix(x, path@) ==> path_has_prefix(x, q@),
        r is None ==> path_has_prefix(path@, path@),
{
    std::path::Path::new(path).parent().map(|q| q.to_string_lossy().into_owned())
}

/// Calls `Path::starts_with`. Claims that the result is the named relation.
#[verifier::external_body]
pub fn path_starts_with(path: &str, base: &str) -> (r: bool)
    ensures
        r == path_has_prefix(path@, base@),
{
    std::path::Path::new(path).starts_with(base)
}

/// Calls `Path::strip_prefix` and converts a success back to a string.
/// Claims, as the documentation says, that it fails exactly where
/// `starts_with` is false, and that a success is the named remainder.
#[verifier::external_body]
pub fn path_strip_prefix(path: &str, base: &str) -> (r: Option<String>)
    ensures
        r is Some <==> path_has_prefix(path@, base@),
        r matches Some(q) ==> q@ == path_stripped(path@, base@),
{
    std::path::Path::new(path).strip_prefix(base).ok().map(|q| q.to_string_lossy().into_owned())
}

} // verus!
