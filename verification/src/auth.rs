//! Signatures of private requests.
use base64::Engine as _;
use hmac::Mac;
use sha2::Digest;
use vstd::prelude::*;
use vstd::utf8::encode_utf8;

verus! {

/// What `base64`'s standard engine decodes a text to, or `None` if it is not valid.
pub uninterp spec fn base64_decoded(text: Seq<char>) -> Option<Seq<u8>>;

/// What `base64`'s standard engine encodes bytes as.
pub uninterp spec fn base64_encoded(bytes: Seq<u8>) -> Seq<char>;

/// The SHA-256 digest of some bytes.
pub uninterp spec fn sha256_digest(bytes: Seq<u8>) -> Seq<u8>;

/// The HMAC-SHA-512 code of some bytes under a key.
pub uninterp spec fn hmac_sha512_code(key: Seq<u8>, bytes: Seq<u8>) -> Seq<u8>;

/// `base64`'s `Engine::decode` with the standard engine; an error becomes `None`.
#[verifier::external_body]
fn decode_base64(text: &str) -> (r: Option<Vec<u8>>)
    ensures
        match r {
            Some(v) => base64_decoded(text@) == Some(v@),
            None => base64_decoded(text@) is None,
        },
{
    match base64::engine::general_purpose::STANDARD.decode(text) {
        Ok(v) => Some(v),
        Err(_) => None,
    }
}

/// `base64`'s `Engine::encode` with the standard engine. What it writes decodes to the same bytes
/// again.
#[verifier::external_body]
fn encode_base64(bytes: &Vec<u8>) -> (r: String)
    requires
        bytes@.len() <= 0x1000_0000,
    ensures
        r@ == base64_encoded(bytes@),
        base64_decoded(r@) == Some(bytes@),
{
    base64::engine::general_purpose::STANDARD.encode(bytes)
}

/// `sha2`'s `Sha256::digest`, a digest of 32 bytes.
#[verifier::external_body]
fn sha256(bytes: &[u8]) -> (r: Vec<u8>)
    ensures
        r@ == sha256_digest(bytes@),
        r@.len() == 32,
{
    sha2::Sha256::digest(bytes).to_vec()
}

/// `hmac`'s `Hmac<Sha512>`: `new_from_slice`, which takes keys of any length, `update` and
/// `finalize`. The code has 64 bytes.
#[verifier::external_body]
fn hmac_sha512(key: &Vec<u8>, bytes: &Vec<u8>) -> (r: Option<Vec<u8>>)
    ensures
        r matches Some(v) ==> v@ == hmac_sha512_code(key@, bytes@) && v@.len() == 64,
        r is Some,
{
    match hmac::Hmac::<sha2::Sha512>::new_from_slice(key) {
        Ok(mac) => Some(mac.chain_update(bytes).finalize().into_bytes().to_vec()),
        Err(_) => None,
    }
}

/// What is signed: the path, followed by the digest of nonce and body.
pub open spec fn signed_bytes(urlpath: Seq<char>, nonce: Seq<char>, post_data: Seq<char>) -> Seq<u8> {
    encode_utf8(urlpath) + sha256_digest(encode_utf8(nonce + post_data))
}

/// The signature of a request under a decoded secret.
pub open spec fn signature(
    urlpath: Seq<char>,
    nonce: Seq<char>,
    post_data: Seq<char>,
    secret: Seq<u8>,
) -> Seq<char> {
    base64_encoded(hmac_sha512_code(secret, signed_bytes(urlpath, nonce, post_data)))
}

/// Why a request could not be signed.
#[derive(Clone, Copy, Debug, PartialEq, Eq, Structural)]
pub enum SignError {
    /// The secret is not valid base64.
    BadSecret,
}

/// Signs a request with a decoded secret.
pub fn sign_with(urlpath: &str, nonce: &str, post_data: &str, secret: &Vec<u8>) -> (r: String)
    ensures
        r@ == signature(urlpath@, nonce@, post_data@, secret@),
        base64_decoded(r@) matches Some(code) && code.len() == 64,
{
    let sha_input = nonce.to_owned().concat(post_data);
    let digest = sha256(sha_input.as_str().as_bytes());
    let mut input: Vec<u8> = urlpath.as_bytes_vec();
    let mut digest = digest;
    input.append(&mut digest);
    match hmac_sha512(secret, &input) {
        Some(code) => encode_base64(&code),
        None => String::new(),
    }
}

/// Generates the `API-Sign` header of a private request: the base64 form of the HMAC-SHA-512 code,
/// under the decoded secret, of the path and the SHA-256 digest of nonce and body.
pub fn sign_request(urlpath: &str, nonce: &str, post_data: &str, secret_b64: &str) -> (r: Result<
    String,
    SignError,
>)
    ensures
        match base64_decoded(secret_b64@) {
            Some(secret) => r matches Ok(s) && s@ == signature(
                urlpath@,
                nonce@,
                post_data@,
                secret,
            ) && base64_decoded(s@) is Some,
            None => r == Err::<String, SignError>(SignError::BadSecret),
        },
{
    match decode_base64(secret_b64) {
        Some(secret) => Ok(sign_with(urlpath, nonce, post_data, &secret)),
        None => Err(SignError::BadSecret),
    }
}

} // verus!
