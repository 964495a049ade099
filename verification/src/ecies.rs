//! The value envelope: ECIES over secp256k1 with HKDF-SHA256 and
//! AES-256-GCM, framed as `encrypted:` + base64 of
//! `ephemeral_public (33) || nonce (12) || ciphertext_with_tag (>= 16)`.
use vstd::prelude::*;
use vstd::string::*;
use vstd::utf8::decode_utf8;
use vstd::utf8::encode_utf8;
use vstd::utf8::valid_utf8;

use crate::errors::DotenvxError;
use crate::hex::decode_hex;
use crate::hex::spec_hex_decode;
use crate::keypair::Keypair;
use crate::primitives::aes256gcm_open;
use crate::primitives::aes256gcm_seal;
use crate::primitives::b64_decode;
use crate::primitives::b64_encode;
use crate::primitives::canonical_point_bytes;
use crate::primitives::derive_public_bytes;
use crate::primitives::ecdh_shared;
use crate::primitives::hkdf_sha256_32;
use crate::primitives::keypair_gen_bytes;
use crate::primitives::random_nonce12;
use crate::primitives::spec_b64_decode;
use crate::primitives::spec_b64_of;
use crate::primitives::spec_hkdf32_of;
use crate::primitives::spec_open_of;
use crate::primitives::spec_point_ok;
use crate::primitives::spec_public_of;
use crate::primitives::spec_seal_of;
use crate::primitives::spec_shared_of;
use crate::primitives::spec_sk_ok;
use crate::strutil::begins_with;
use crate::strutil::chars_of;
use crate::strutil::spec_starts_with;
use crate::strutil::sub_bytes;

verus! {

broadcast use vstd::utf8::encode_utf8_valid_utf8, vstd::utf8::encode_utf8_decode_utf8;

/// The token prefix marking an encrypted value.
pub open spec fn spec_prefix() -> Seq<char> {
    "encrypted:"@
}

/// The characters of the token prefix.
pub fn prefix_chars() -> (r: Vec<char>)
    ensures
        r@ == spec_prefix(),
{
    chars_of("encrypted:")
}

/// The HKDF info string of the envelope, as bytes.
pub open spec fn spec_info() -> Seq<u8> {
    encode_utf8("dotenvx-ecies-aes"@)
}

/// The bytes of the HKDF info string.
fn info_bytes() -> (r: Vec<u8>)
    ensures
        r@ == spec_info(),
{
    ("dotenvx-ecies-aes").as_bytes_vec()
}

/// The AES key derived from an ECDH shared secret.
pub open spec fn spec_envelope_key(shared: Seq<u8>) -> Seq<u8> {
    spec_hkdf32_of(shared, spec_info())
}

/// What decrypting a token with a private key yields.
pub enum SpecDecrypt {
    /// No `encrypted:` prefix: the token is returned unchanged.
    Pass,
    /// The decrypted plaintext.
    Good(Seq<char>),
    /// Base64, length, or ephemeral-point structural failure.
    Malformed,
    /// The private key is not hex.
    BadHex,
    /// The private key is not a valid scalar.
    BadPrivate,
    /// Authentication or post-decryption text failure.
    Failed,
}

/// The decryption function: what `decrypt` returns for every token and
/// private key, stated over the models of the cryptographic calls.
pub open spec fn spec_decrypt(token: Seq<char>, priv_hex: Seq<char>) -> SpecDecrypt {
    if !spec_starts_with(token, spec_prefix()) {
        SpecDecrypt::Pass
    } else {
        let body = token.skip(spec_prefix().len() as int);
        match spec_b64_decode(body) {
            None => SpecDecrypt::Malformed,
            Some(data) => {
                if data.len() < 61 {
                    SpecDecrypt::Malformed
                } else {
                    let epk = data.subrange(0, 33);
                    let nonce = data.subrange(33, 45);
                    let ct = data.subrange(45, data.len() as int);
                    if !spec_point_ok(epk) {
                        SpecDecrypt::Malformed
                    } else {
                        match spec_hex_decode(priv_hex) {
                            None => SpecDecrypt::BadHex,
                            Some(sk) => {
                                if !spec_sk_ok(sk) {
                                    SpecDecrypt::BadPrivate
                                } else {
                                    let key = spec_envelope_key(spec_shared_of(epk, sk));
                                    match spec_open_of(key, nonce, ct) {
                                        None => SpecDecrypt::Failed,
                                        Some(pt) => {
                                            if valid_utf8(pt) {
                                                SpecDecrypt::Good(decode_utf8(pt))
                                            } else {
                                                SpecDecrypt::Failed
                                            }
                                        },
                                    }
                                }
                            },
                        }
                    }
                }
            },
        }
    }
}

/// The token produced by one encryption, given the ephemeral secret
/// and nonce that were drawn.
pub open spec fn spec_envelope_parts(
    token: Seq<char>,
    pt: Seq<char>,
    pk_bytes: Seq<u8>,
    esk: Seq<u8>,
    nonce: Seq<u8>,
) -> bool {
    let epk = spec_public_of(esk);
    let key = spec_envelope_key(spec_shared_of(pk_bytes, esk));
    let ct = spec_seal_of(key, nonce, encode_utf8(pt));
    &&& spec_sk_ok(esk)
    &&& epk.len() == 33
    &&& (epk[0] == 2 || epk[0] == 3)
    &&& nonce.len() == 12
    &&& ct.len() == encode_utf8(pt).len() + 16
    &&& token == spec_prefix() + spec_b64_of(epk + nonce + ct)
    &&& spec_b64_decode(spec_b64_of(epk + nonce + ct)) == Some(epk + nonce + ct)
}

/// The token is a well-formed envelope of `pt` under the recipient
/// point `pk_bytes`, for some ephemeral secret and nonce.
pub open spec fn spec_is_envelope_for(token: Seq<char>, pt: Seq<char>, pk_bytes: Seq<u8>) -> bool {
    exists|esk: Seq<u8>, nonce: Seq<u8>| spec_envelope_parts(token, pt, pk_bytes, esk, nonce)
}

/// The textual shape of a token: the `encrypted:` prefix followed by
/// characters of the base64 alphabet only.
pub open spec fn spec_token_wf(token: Seq<char>) -> bool {
    spec_starts_with(token, spec_prefix()) && forall|i: int|
        spec_prefix().len() <= i < token.len() ==> crate::primitives::spec_is_b64_char(token[i])
}

/// Decrypting the token under any private key whose derived point is
/// `pkb` yields `pt`.
pub open spec fn spec_decrypts_to(token: Seq<char>, pt: Seq<char>, pkb: Seq<u8>) -> bool {
    forall|ph: Seq<char>, sk: Seq<u8>|
        #![trigger spec_hex_decode(ph), spec_public_of(sk)]
        (spec_hex_decode(ph) == Some(sk) && spec_sk_ok(sk) && spec_public_of(sk) == pkb)
            ==> spec_decrypt(token, ph) == SpecDecrypt::Good(pt)
}

/// A valid recipient key: hex of exactly 33 bytes accepted as a
/// compressed curve point.
pub open spec fn spec_recipient_ok(pub_hex: Seq<char>) -> bool {
    &&& spec_hex_decode(pub_hex) is Some
    &&& spec_hex_decode(pub_hex).unwrap().len() == 33
    &&& spec_point_ok(spec_hex_decode(pub_hex).unwrap())
}

/// Encrypt a value to the holder of the private half of
/// `public_key_hex` (a compressed 33-byte key in hex). Encryption
/// succeeds whenever the key is valid and the plaintext is within the
/// cipher's bound of 2^36 bytes; the token decrypts back to the
/// plaintext under every private key whose derived point is the
/// recipient point.
pub fn encrypt(plaintext: &str, public_key_hex: &str) -> (r: Result<String, DotenvxError>)
    ensures
        spec_recipient_ok(public_key_hex@) && encode_utf8(plaintext@).len() <= 0x10_0000_0000
            ==> r is Ok,
        r is Ok ==> spec_recipient_ok(public_key_hex@),
        r is Ok ==> spec_token_wf(r->Ok_0@),
        r is Ok ==> spec_is_envelope_for(
            r->Ok_0@,
            plaintext@,
            spec_hex_decode(public_key_hex@).unwrap(),
        ),
        r is Ok ==> spec_decrypts_to(
            r->Ok_0@,
            plaintext@,
            spec_hex_decode(public_key_hex@).unwrap(),
        ),
        r is Err ==> (if spec_hex_decode(public_key_hex@) is None {
            r->Err_0 matches DotenvxError::HexDecode(_)
        } else if spec_hex_decode(public_key_hex@).unwrap().len() != 33 || !spec_point_ok(
            spec_hex_decode(public_key_hex@).unwrap(),
        ) {
            r->Err_0 matches DotenvxError::InvalidPublicKey(_)
        } else {
            r->Err_0 matches DotenvxError::EncryptionFailed(_)
        }),
{
    let keypair = match Keypair::from_public_key(public_key_hex) {
        Ok(k) => k,
        Err(e) => {
            return Err(e);
        },
    };
    let pk_hex = keypair.public_key();
    let pk_bytes = match decode_hex(pk_hex.as_str()) {
        Some(b) => b,
        None => {
            proof {
                assert(false);
            }
            return Err(DotenvxError::Other(String::from_str("unreachable")));
        },
    };
    let ghost pkb = pk_bytes@;
    proof {
        crate::hex::lemma_hex_round_trip(spec_hex_decode(public_key_hex@).unwrap());
    }
    assert(pkb == spec_hex_decode(public_key_hex@).unwrap());

    let (epk, esk) = keypair_gen_bytes();
    let ghost epk0 = epk@;
    let ghost esk0 = esk@;

    let shared = ecdh_shared(&pk_bytes, &esk);
    let info = info_bytes();
    let key = hkdf_sha256_32(&shared, &info);
    let nonce = random_nonce12();
    let ghost n0 = nonce@;
    let pt_bytes = plaintext.as_bytes_vec();
    assert(pt_bytes@ == encode_utf8(plaintext@));

    let ct = match aes256gcm_seal(&key, &nonce, &pt_bytes) {
        Some(c) => c,
        None => {
            return Err(DotenvxError::EncryptionFailed(String::from_str("AES encryption failed")));
        },
    };
    let ghost ct0 = ct@;

    let mut combined = epk;
    let mut nonce_part = nonce;
    let mut ct_part = ct;
    combined.append(&mut nonce_part);
    combined.append(&mut ct_part);
    assert(combined@ == epk0 + n0 + ct0);

    let encoded = b64_encode(&combined);
    let mut out = String::from_str("encrypted:");
    out.append(encoded.as_str());
    assert(out@ == spec_prefix() + spec_b64_of(epk0 + n0 + ct0));

    proof {
        assert(spec_envelope_parts(out@, plaintext@, pkb, esk0, n0)) by {
            assert(key@ == spec_envelope_key(spec_shared_of(pkb, esk0)));
        }
        assert(spec_is_envelope_for(out@, plaintext@, pkb));
        assert(out@.subrange(0, spec_prefix().len() as int) =~= spec_prefix());
        assert(spec_starts_with(out@, spec_prefix()));
        assert forall|i: int|
            spec_prefix().len() <= i < out@.len() implies crate::primitives::spec_is_b64_char(
            out@[i],
        ) by {
            assert(out@[i] == encoded@[i - spec_prefix().len()]);
        }

        assert forall|ph: Seq<char>, sk: Seq<u8>|
            #![trigger spec_hex_decode(ph), spec_public_of(sk)]
            (spec_hex_decode(ph) == Some(sk) && spec_sk_ok(sk) && spec_public_of(sk)
                == pkb) implies spec_decrypt(out@, ph) == SpecDecrypt::Good(plaintext@) by {
            let body = out@.skip(spec_prefix().len() as int);
            assert(body =~= encoded@);
            assert(spec_b64_decode(body) == Some(combined@));
            let data = combined@;
            assert(data.len() == 45 + ct0.len());
            assert(ct0.len() == pt_bytes@.len() + 16);
            assert(data.subrange(0, 33) =~= epk0);
            assert(data.subrange(33, 45) =~= n0);
            assert(data.subrange(45, data.len() as int) =~= ct0);
            assert(spec_point_ok(epk0));
            assert(shared@ == spec_shared_of(spec_public_of(esk0), sk));
            assert(spec_open_of(spec_envelope_key(spec_shared_of(epk0, sk)), n0, ct0) == Some(
                pt_bytes@,
            ));
            assert(valid_utf8(pt_bytes@));
            assert(decode_utf8(pt_bytes@) == plaintext@);
        }
    }
    Ok(out)
}

/// Decrypt a token with the private key, per the decryption function:
/// a value without the `encrypted:` prefix passes through unchanged,
/// and each failure is reported as the matching error.
pub fn decrypt(encrypted: &str, private_key_hex: &str) -> (r: Result<String, DotenvxError>)
    ensures
        match spec_decrypt(encrypted@, private_key_hex@) {
            SpecDecrypt::Pass => r is Ok && r->Ok_0@ == encrypted@,
            SpecDecrypt::Good(p) => r is Ok && r->Ok_0@ == p,
            SpecDecrypt::Malformed => r is Err && r->Err_0 matches DotenvxError::MalformedEncryptedData {
                ..
            },
            SpecDecrypt::BadHex => r is Err && r->Err_0 matches DotenvxError::HexDecode(_),
            SpecDecrypt::BadPrivate => r is Err && r->Err_0 matches DotenvxError::InvalidPrivateKey(
                _,
            ),
            SpecDecrypt::Failed => r is Err && r->Err_0 matches DotenvxError::DecryptionFailed {
                ..
            },
        },
{
    let token_chars = chars_of(encrypted);
    let pre = prefix_chars();
    if !begins_with(&token_chars, &pre) {
        return Ok(String::from_str(encrypted));
    }
    proof {
        reveal_strlit("encrypted:");
    }
    let n = encrypted.unicode_len();
    let body = encrypted.substring_char(10, n);
    assert(body@ =~= encrypted@.skip(spec_prefix().len() as int));

    let data = match b64_decode(body) {
        Some(d) => d,
        None => {
            return Err(
                DotenvxError::MalformedEncryptedData { key: String::from_str("unknown") },
            );
        },
    };
    if data.len() < 61 {
        return Err(DotenvxError::MalformedEncryptedData { key: String::from_str("unknown") });
    }
    let epk = sub_bytes(&data, 0, 33);
    let nonce = sub_bytes(&data, 33, 45);
    let ct = sub_bytes(&data, 45, data.len());

    if canonical_point_bytes(&epk).is_none() {
        return Err(
            DotenvxError::MalformedEncryptedData {
                key: String::from_str("invalid ephemeral public key"),
            },
        );
    }

    let sk_bytes = match decode_hex(private_key_hex) {
        Some(b) => b,
        None => {
            return Err(DotenvxError::HexDecode(String::from_str("invalid hex string")));
        },
    };
    if derive_public_bytes(&sk_bytes).is_none() {
        return Err(DotenvxError::InvalidPrivateKey(String::from_str("malformed secret key")));
    }

    let shared = ecdh_shared(&epk, &sk_bytes);
    let info = info_bytes();
    let key = hkdf_sha256_32(&shared, &info);

    let pt_bytes = match aes256gcm_open(&key, &nonce, &ct) {
        Some(p) => p,
        None => {
            return Err(
                DotenvxError::DecryptionFailed {
                    key: String::from_str("unknown"),
                    private_key_name: String::from_str("provided"),
                },
            );
        },
    };
    match crate::primitives::string_from_utf8(pt_bytes) {
        Some(s) => Ok(s),
        None => Err(
            DotenvxError::DecryptionFailed {
                key: String::from_str("unknown"),
                private_key_name: String::from_str("invalid UTF-8"),
            },
        ),
    }
}

} // verus!
