//! Trusted boundary of the library: the calls into the cryptographic
//! and encoding crates, each behind a wrapper whose contract states
//! what the outside crate's source and documentation promise.
//!
//! Results that are functions of the arguments alone but too long to
//! state (curve arithmetic, the key derivation, the cipher itself, the
//! base64 alphabet) are given names by bodiless spec functions; every
//! other fact stated here is plainly given by the outside source.
use vstd::prelude::*;
use vstd::utf8::decode_utf8;
use vstd::utf8::valid_utf8;

use aes_gcm::aead::Aead;
use aes_gcm::aead::KeyInit;
use aes_gcm::Aes256Gcm;
use aes_gcm::Nonce;
use base64::engine::general_purpose;
use base64::Engine;
use hkdf::Hkdf;
use rand::RngCore;
use secp256k1::ecdh::SharedSecret;
use secp256k1::PublicKey;
use secp256k1::Secp256k1;
use secp256k1::SecretKey;
use sha2::Sha256;

verus! {

/// The byte sequence as a big-endian natural number.
pub open spec fn spec_be_nat(s: Seq<u8>) -> nat
    decreases s.len(),
{
    if s.len() == 0 {
        0
    } else {
        (spec_be_nat(s.drop_last()) * 256 + s.last()) as nat
    }
}

/// The order of the secp256k1 group.
pub open spec fn spec_secp_order() -> nat {
    0xFFFFFFFFFFFFFFFFFFFFFFFFFFFFFFFEBAAEDCE6AF48A03BFD25E8CD0364141nat
}

/// A valid secret scalar: 32 bytes holding a number in `[1, n-1]`,
/// exactly when `secp256k1::SecretKey::from_slice` accepts it.
pub open spec fn spec_sk_ok(s: Seq<u8>) -> bool {
    s.len() == 32 && 1 <= spec_be_nat(s) < spec_secp_order()
}

/// The compressed serialization of the public point of a secret
/// scalar: what `PublicKey::from_secret_key` then `serialize` return.
pub uninterp spec fn spec_public_of(sk: Seq<u8>) -> Seq<u8>;

/// Whether `PublicKey::from_slice` accepts these bytes as a point.
pub uninterp spec fn spec_point_ok(b: Seq<u8>) -> bool;

/// The compressed serialization of the point parsed from `b`: what
/// `PublicKey::from_slice` then `serialize` return.
pub uninterp spec fn spec_canon_point(b: Seq<u8>) -> Seq<u8>;

/// The 32-byte ECDH shared secret of a point (compressed bytes) and a
/// scalar: what `secp256k1::ecdh::SharedSecret::new` returns.
pub uninterp spec fn spec_shared_of(pk: Seq<u8>, sk: Seq<u8>) -> Seq<u8>;

/// 32 bytes of HKDF-SHA256 with empty salt: what
/// `Hkdf::<Sha256>::new(None, ikm)` then `expand(info, ..)` produce.
pub uninterp spec fn spec_hkdf32_of(ikm: Seq<u8>, info: Seq<u8>) -> Seq<u8>;

/// AES-256-GCM sealing with empty associated data: ciphertext with the
/// 16-byte tag appended, what `Aes256Gcm::encrypt` returns.
pub uninterp spec fn spec_seal_of(key: Seq<u8>, nonce: Seq<u8>, pt: Seq<u8>) -> Seq<u8>;

/// AES-256-GCM opening: the plaintext when the tag verifies, what
/// `Aes256Gcm::decrypt` returns; `None` when it refuses.
pub uninterp spec fn spec_open_of(key: Seq<u8>, nonce: Seq<u8>, ct: Seq<u8>) -> Option<Seq<u8>>;

/// A character of the standard base64 alphabet, or its `=` padding.
pub open spec fn spec_is_b64_char(c: char) -> bool {
    ('A' as u32 <= c as u32 <= 'Z' as u32) || ('a' as u32 <= c as u32 <= 'z' as u32) || ('0' as u32
        <= c as u32 <= '9' as u32) || c == '+' || c == '/' || c == '='
}

/// Standard base64 with padding: what `general_purpose::STANDARD.encode` returns.
pub uninterp spec fn spec_b64_of(b: Seq<u8>) -> Seq<char>;

/// Standard base64 decoding: what `general_purpose::STANDARD.decode`
/// returns, `None` on any rejected input.
pub uninterp spec fn spec_b64_decode(s: Seq<char>) -> Option<Seq<u8>>;

/// The JSON string literal denoting `s`: what `serde_json::to_string`
/// returns for a string (which cannot fail).
pub uninterp spec fn spec_json_of(s: Seq<char>) -> Seq<char>;

/// Relies on `Secp256k1::generate_keypair` with a thread-local CSPRNG:
/// the secret scalar is valid and the public half is its derived
/// compressed point, hex-serializable to 33 bytes starting 0x02/0x03.
#[verifier::external_body]
pub(crate) fn keypair_gen_bytes() -> (r: (Vec<u8>, Vec<u8>))
    ensures
        spec_sk_ok(r.1@),
        r.0@ == spec_public_of(r.1@),
        r.0@.len() == 33,
        r.0@[0] == 2 || r.0@[0] == 3,
        spec_point_ok(r.0@),
        spec_canon_point(r.0@) == r.0@,
{
    let secp = Secp256k1::new();
    let (sk, pk) = secp.generate_keypair(&mut rand::thread_rng());
    (pk.serialize().to_vec(), sk.secret_bytes().to_vec())
}

/// Relies on `SecretKey::from_slice` (accepts exactly 32 bytes in
/// `[1, n-1]`) and `PublicKey::from_secret_key` + `serialize` (the
/// compressed 33-byte point, leading 0x02/0x03, canonical).
#[verifier::external_body]
pub(crate) fn derive_public_bytes(sk: &Vec<u8>) -> (r: Option<Vec<u8>>)
    ensures
        r is Some <==> spec_sk_ok(sk@),
        r is Some ==> {
            let p = r.unwrap()@;
            p == spec_public_of(sk@) && p.len() == 33 && (p[0] == 2 || p[0] == 3)
                && spec_point_ok(p) && spec_canon_point(p) == p
        },
{
    match SecretKey::from_slice(sk.as_slice()) {
        Ok(key) => {
            let secp = Secp256k1::new();
            Some(PublicKey::from_secret_key(&secp, &key).serialize().to_vec())
        },
        Err(_) => None,
    }
}

/// Relies on `PublicKey::from_slice` + `serialize`: parses compressed
/// (33-byte) or uncompressed encodings of curve points and returns the
/// canonical compressed form; a valid 33-byte compressed encoding is
/// returned unchanged.
#[verifier::external_body]
pub(crate) fn canonical_point_bytes(b: &Vec<u8>) -> (r: Option<Vec<u8>>)
    ensures
        r is Some <==> spec_point_ok(b@),
        r is Some ==> {
            let p = r.unwrap()@;
            p == spec_canon_point(b@) && p.len() == 33 && (p[0] == 2 || p[0] == 3)
                && spec_point_ok(p) && spec_canon_point(p) == p
        },
        r is Some && b@.len() == 33 ==> r.unwrap()@ == b@,
{
    match PublicKey::from_slice(b.as_slice()) {
        Ok(pk) => Some(pk.serialize().to_vec()),
        Err(_) => None,
    }
}

/// Relies on `secp256k1::ecdh::SharedSecret::new`: a 32-byte secret
/// that is a function of the point and the scalar alone, and agrees
/// for the two sides of a Diffie-Hellman exchange (shown in the
/// crate's own documentation example).
#[verifier::external_body]
pub(crate) fn ecdh_shared(pk: &Vec<u8>, sk: &Vec<u8>) -> (r: Vec<u8>)
    requires
        spec_point_ok(pk@),
        spec_sk_ok(sk@),
    ensures
        r@ == spec_shared_of(pk@, sk@),
        r@.len() == 32,
        forall|other: Seq<u8>|
            spec_sk_ok(other) && pk@ == spec_public_of(other) ==> r@ == spec_shared_of(
                spec_public_of(sk@),
                other,
            ),
{
    let point = PublicKey::from_slice(pk.as_slice()).unwrap();
    let scalar = SecretKey::from_slice(sk.as_slice()).unwrap();
    SharedSecret::new(&point, &scalar).secret_bytes().to_vec()
}

/// Relies on `Hkdf::<Sha256>::new(None, ikm)` and `expand`: 32 bytes
/// determined by the input keying material and the info string
/// (`expand` cannot fail for a 32-byte output).
#[verifier::external_body]
pub(crate) fn hkdf_sha256_32(ikm: &Vec<u8>, info: &Vec<u8>) -> (r: Vec<u8>)
    ensures
        r@ == spec_hkdf32_of(ikm@, info@),
        r@.len() == 32,
{
    let hk = Hkdf::<Sha256>::new(None, ikm.as_slice());
    let mut okm = [0u8; 32];
    hk.expand(info.as_slice(), &mut okm).unwrap();
    okm.to_vec()
}

/// Relies on `rand::thread_rng().fill_bytes`: 12 bytes from a CSPRNG;
/// nothing is promised of their values.
#[verifier::external_body]
pub(crate) fn random_nonce12() -> (r: Vec<u8>)
    ensures
        r@.len() == 12,
{
    let mut nonce = [0u8; 12];
    rand::thread_rng().fill_bytes(&mut nonce);
    nonce.to_vec()
}

/// Relies on `Aes256Gcm::encrypt` with empty associated data: it
/// succeeds exactly when the plaintext is within the GCM bound of
/// 2^36 bytes; the sealed bytes are the ciphertext with the 16-byte
/// tag appended, a function of key, nonce and plaintext, and
/// `Aes256Gcm::decrypt` opens them back to the plaintext (AEAD
/// correctness).
#[verifier::external_body]
pub(crate) fn aes256gcm_seal(key: &Vec<u8>, nonce: &Vec<u8>, pt: &Vec<u8>) -> (r: Option<Vec<u8>>)
    requires
        key@.len() == 32,
        nonce@.len() == 12,
    ensures
        r is Some <==> pt@.len() <= 0x10_0000_0000,
        r is Some ==> {
            let c = r.unwrap()@;
            c == spec_seal_of(key@, nonce@, pt@) && c.len() == pt@.len() + 16 && spec_open_of(
                key@,
                nonce@,
                c,
            ) == Some(pt@)
        },
{
    let cipher = Aes256Gcm::new(key.as_slice().into());
    match cipher.encrypt(Nonce::from_slice(nonce.as_slice()), pt.as_slice()) {
        Ok(ct) => Some(ct),
        Err(_) => None,
    }
}

/// Relies on `Aes256Gcm::decrypt` with empty associated data: returns
/// the plaintext exactly when the tag verifies, a function of key,
/// nonce and ciphertext alone.
#[verifier::external_body]
pub(crate) fn aes256gcm_open(key: &Vec<u8>, nonce: &Vec<u8>, ct: &Vec<u8>) -> (r: Option<Vec<u8>>)
    requires
        key@.len() == 32,
        nonce@.len() == 12,
    ensures
        r is Some <==> spec_open_of(key@, nonce@, ct@) is Some,
        r is Some ==> r.unwrap()@ == spec_open_of(key@, nonce@, ct@).unwrap(),
{
    let cipher = Aes256Gcm::new(key.as_slice().into());
    match cipher.decrypt(Nonce::from_slice(nonce.as_slice()), ct.as_slice()) {
        Ok(pt) => Some(pt),
        Err(_) => None,
    }
}

/// Relies on `base64::engine::general_purpose::STANDARD.encode`:
/// four output characters for every three input bytes, each from the
/// standard alphabet (with `=` padding), and decoding inverts encoding.
#[verifier::external_body]
pub(crate) fn b64_encode(b: &Vec<u8>) -> (r: String)
    ensures
        r@ == spec_b64_of(b@),
        spec_b64_decode(r@) == Some(b@),
        r@.len() == 4 * ((b@.len() + 2) / 3),
        forall|i: int| 0 <= i < r@.len() ==> spec_is_b64_char(r@[i]),
{
    general_purpose::STANDARD.encode(b.as_slice())
}

/// Relies on `base64::engine::general_purpose::STANDARD.decode`: the
/// decoded bytes, a function of the input alone; `None` exactly on the
/// inputs the engine rejects.
#[verifier::external_body]
pub(crate) fn b64_decode(s: &str) -> (r: Option<Vec<u8>>)
    ensures
        r is Some <==> spec_b64_decode(s@) is Some,
        r is Some ==> r.unwrap()@ == spec_b64_decode(s@).unwrap(),
{
    match general_purpose::STANDARD.decode(s) {
        Ok(b) => Some(b),
        Err(_) => None,
    }
}

/// Relies on `String::from_utf8`: succeeds exactly on valid UTF-8 and
/// returns the decoded characters, per the UTF-8 model of vstd.
#[verifier::external_body]
pub(crate) fn string_from_utf8(v: Vec<u8>) -> (r: Option<String>)
    ensures
        r is Some <==> valid_utf8(v@),
        r is Some ==> r.unwrap()@ == decode_utf8(v@),
{
    match String::from_utf8(v) {
        Ok(s) => Some(s),
        Err(_) => None,
    }
}

/// Relies on `serde_json::to_string`: the JSON string literal for `s`
/// (serializing a string cannot fail).
#[verifier::external_body]
pub(crate) fn json_string(s: &str) -> (r: String)
    ensures
        r@ == spec_json_of(s@),
{
    serde_json::to_string(s).unwrap()
}

} // verus!
