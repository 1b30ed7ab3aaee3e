//! Encodings, digests and ciphers done by outside crates: base64 (`base64`),
//! MD5 (`md-5`), AES-128 in ECB mode with PKCS#7 padding (`aes`, `ecb`,
//! `cipher`), zlib inflation (`flate2`) and UTF-8 decoding (std).
//!
//! Each result is named by a function of the inputs alone; the library's
//! contracts speak of these names.
use vstd::prelude::*;
use cipher::{BlockDecryptMut, BlockEncryptMut, KeyInit};
use std::io::Read;

verus! {

/// `base64::engine::general_purpose::STANDARD.encode(bytes)`.
pub uninterp spec fn spec_base64_encode(bytes: Seq<u8>) -> Seq<char>;

/// Encodes bytes as standard padded base64 with `STANDARD.encode`.
#[verifier::external_body]
pub(crate) fn base64_encode(bytes: &[u8]) -> (r: String)
    ensures
        r@ == spec_base64_encode(bytes@),
{
    base64::Engine::encode(&base64::engine::general_purpose::STANDARD, bytes)
}

/// `STANDARD.decode(text)`, with the error as its display text.
pub uninterp spec fn spec_base64_decode(text: Seq<char>) -> Result<Seq<u8>, Seq<char>>;

/// Decodes standard base64 with `STANDARD.decode`; the error becomes its
/// display text.
#[verifier::external_body]
pub(crate) fn base64_decode(text: &str) -> (r: Result<Vec<u8>, String>)
    ensures
        match r {
            Ok(v) => spec_base64_decode(text@) == Ok::<Seq<u8>, Seq<char>>(v@),
            Err(e) => spec_base64_decode(text@) == Err::<Seq<u8>, Seq<char>>(e@),
        },
{
    match base64::Engine::decode(&base64::engine::general_purpose::STANDARD, text) {
        Ok(v) => Ok(v),
        Err(error) => Err(error.to_string()),
    }
}

/// `base64::engine::general_purpose::URL_SAFE_NO_PAD.encode(bytes)`.
pub uninterp spec fn spec_base64_url_encode(bytes: Seq<u8>) -> Seq<char>;

/// Encodes bytes as URL-safe unpadded base64 with `URL_SAFE_NO_PAD.encode`.
#[verifier::external_body]
pub(crate) fn base64_url_encode(bytes: &[u8]) -> (r: String)
    ensures
        r@ == spec_base64_url_encode(bytes@),
{
    base64::Engine::encode(&base64::engine::general_purpose::URL_SAFE_NO_PAD, bytes)
}

/// `URL_SAFE_NO_PAD.decode(text)`, with the error as its display text.
pub uninterp spec fn spec_base64_url_decode(text: Seq<char>) -> Result<Seq<u8>, Seq<char>>;

/// Decodes URL-safe unpadded base64 with `URL_SAFE_NO_PAD.decode`; the error
/// becomes its display text.
#[verifier::external_body]
pub(crate) fn base64_url_decode(text: &str) -> (r: Result<Vec<u8>, String>)
    ensures
        match r {
            Ok(v) => spec_base64_url_decode(text@) == Ok::<Seq<u8>, Seq<char>>(v@),
            Err(e) => spec_base64_url_decode(text@) == Err::<Seq<u8>, Seq<char>>(e@),
        },
{
    match base64::Engine::decode(&base64::engine::general_purpose::URL_SAFE_NO_PAD, text) {
        Ok(v) => Ok(v),
        Err(error) => Err(error.to_string()),
    }
}

/// The MD5 digest of the bytes (`md5::Md5::digest`).
pub uninterp spec fn spec_md5(bytes: Seq<u8>) -> Seq<u8>;

/// Computes the MD5 digest with `Md5::digest`.
#[verifier::external_body]
pub(crate) fn md5_digest(bytes: &[u8]) -> (r: Vec<u8>)
    ensures
        r@ == spec_md5(bytes@),
{
    <md5::Md5 as md5::Digest>::digest(bytes).to_vec()
}

/// AES-128 ECB encryption with PKCS#7 padding of `text` under `key`, or the
/// display text of the key-length error.
pub uninterp spec fn spec_aes_encrypt(text: Seq<u8>, key: Seq<u8>) -> Result<Seq<u8>, Seq<char>>;

/// `ecb::Encryptor::<Aes128>::new_from_slice(key)`, then
/// `encrypt_padded_vec_mut::<Pkcs7>(text)`. `new_from_slice` refuses exactly
/// the keys that are not 16 bytes long (AES-128's key size), and the padded
/// encryption itself cannot fail.
#[verifier::external_body]
pub(crate) fn aes_encrypt(text: &[u8], key: &[u8]) -> (r: Result<Vec<u8>, String>)
    ensures
        r is Ok <==> key@.len() == 16,
        match r {
            Ok(v) => spec_aes_encrypt(text@, key@) == Ok::<Seq<u8>, Seq<char>>(v@),
            Err(e) => spec_aes_encrypt(text@, key@) == Err::<Seq<u8>, Seq<char>>(e@),
        },
{
    match ecb::Encryptor::<aes::Aes128>::new_from_slice(key) {
        Ok(cipher) => Ok(cipher.encrypt_padded_vec_mut::<cipher::block_padding::Pkcs7>(text)),
        Err(error) => Err(error.to_string()),
    }
}

/// AES-128 ECB decryption with PKCS#7 unpadding of `bytes` under `key`, or
/// the display text of the key-length or unpadding error.
pub uninterp spec fn spec_aes_decrypt(bytes: Seq<u8>, key: Seq<u8>) -> Result<Seq<u8>, Seq<char>>;

/// `ecb::Decryptor::<Aes128>::new_from_slice(key)`, then
/// `decrypt_padded_vec_mut::<Pkcs7>(bytes)`; a key that is not 16 bytes long
/// is refused.
#[verifier::external_body]
pub(crate) fn aes_decrypt(bytes: &[u8], key: &[u8]) -> (r: Result<Vec<u8>, String>)
    ensures
        key@.len() != 16 ==> r is Err,
        match r {
            Ok(v) => spec_aes_decrypt(bytes@, key@) == Ok::<Seq<u8>, Seq<char>>(v@),
            Err(e) => spec_aes_decrypt(bytes@, key@) == Err::<Seq<u8>, Seq<char>>(e@),
        },
{
    match ecb::Decryptor::<aes::Aes128>::new_from_slice(key) {
        Ok(cipher) => match cipher.decrypt_padded_vec_mut::<cipher::block_padding::Pkcs7>(bytes) {
            Ok(plain) => Ok(plain),
            Err(error) => Err(error.to_string()),
        },
        Err(error) => Err(error.to_string()),
    }
}

/// The text that zlib-compressed bytes inflate to (`flate2::read::ZlibDecoder`
/// read to a string), or the display text of the error.
pub uninterp spec fn spec_inflate(bytes: Seq<u8>) -> Result<Seq<char>, Seq<char>>;

/// Inflates zlib data with `ZlibDecoder` and `read_to_string`.
#[verifier::external_body]
pub(crate) fn inflate(bytes: &[u8]) -> (r: Result<String, String>)
    ensures
        match r {
            Ok(t) => spec_inflate(bytes@) == Ok::<Seq<char>, Seq<char>>(t@),
            Err(e) => spec_inflate(bytes@) == Err::<Seq<char>, Seq<char>>(e@),
        },
{
    let mut text = String::new();
    match flate2::read::ZlibDecoder::new(bytes).read_to_string(&mut text) {
        Ok(_) => Ok(text),
        Err(error) => Err(error.to_string()),
    }
}

/// The display text of the error `String::from_utf8` gives for bytes that
/// are not UTF-8.
pub uninterp spec fn spec_utf8_error(bytes: Seq<u8>) -> Seq<char>;

/// `String::from_utf8`: the text the bytes encode when they are valid UTF-8
/// (as its documentation states), else the error's display text.
#[verifier::external_body]
pub(crate) fn utf8_text(bytes: Vec<u8>) -> (r: Result<String, String>)
    ensures
        match r {
            Ok(t) => vstd::utf8::valid_utf8(bytes@) && t@ == vstd::utf8::decode_utf8(bytes@),
            Err(e) => !vstd::utf8::valid_utf8(bytes@) && e@ == spec_utf8_error(bytes@),
        },
{
    match String::from_utf8(bytes) {
        Ok(t) => Ok(t),
        Err(error) => Err(error.to_string()),
    }
}

} // verus!
