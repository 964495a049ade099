//! A secp256k1 keypair held in its text form: lowercase hex of the
//! 32-byte secret scalar and of the 33-byte compressed public point.
use vstd::prelude::*;
use vstd::string::*;

use crate::errors::DotenvxError;
use crate::hex::decode_hex;
use crate::hex::encode_hex;
use crate::hex::lemma_hex_of_len;
use crate::hex::lemma_hex_of_lower;
use crate::hex::lemma_hex_round_trip;
use crate::hex::spec_hex_decode;
use crate::hex::spec_hex_of;
use crate::hex::spec_is_lower_hex;
use crate::primitives::canonical_point_bytes;
use crate::primitives::derive_public_bytes;
use crate::primitives::keypair_gen_bytes;
use crate::primitives::spec_canon_point;
use crate::primitives::spec_point_ok;
use crate::primitives::spec_public_of;
use crate::primitives::spec_sk_ok;

verus! {

/// A private hex form decodes to a valid secret scalar and is its
/// normalized (lowercase) encoding.
pub open spec fn spec_priv_hex_wf(s: Seq<char>) -> bool {
    &&& spec_hex_decode(s) is Some
    &&& spec_sk_ok(spec_hex_decode(s).unwrap())
    &&& s == spec_hex_of(spec_hex_decode(s).unwrap())
}

/// A public hex form decodes to 33 bytes accepted as a curve point in
/// compressed form (leading byte 0x02 or 0x03), in normalized
/// (lowercase) encoding.
pub open spec fn spec_pub_hex_wf(s: Seq<char>) -> bool {
    &&& spec_hex_decode(s) is Some
    &&& spec_hex_decode(s).unwrap().len() == 33
    &&& (spec_hex_decode(s).unwrap()[0] == 2 || spec_hex_decode(s).unwrap()[0] == 3)
    &&& spec_point_ok(spec_hex_decode(s).unwrap())
    &&& spec_canon_point(spec_hex_decode(s).unwrap()) == spec_hex_decode(s).unwrap()
    &&& s == spec_hex_of(spec_hex_decode(s).unwrap())
}

/// A keypair for the envelope encryption, held as hex text.
pub struct Keypair {
    public_key_hex: String,
    private_key_hex: String,
}

impl Keypair {
    /// The hex form of the public half.
    pub closed spec fn spec_public(&self) -> Seq<char> {
        self.public_key_hex@
    }

    /// The hex form of the private half.
    pub closed spec fn spec_private(&self) -> Seq<char> {
        self.private_key_hex@
    }

    /// Both halves are normalized hex forms of valid raw keys.
    pub open spec fn wf(&self) -> bool {
        spec_priv_hex_wf(self.spec_private()) && spec_pub_hex_wf(self.spec_public())
    }

    /// The public half is the point derived from the private half.
    /// Holds for generated and private-imported keypairs; a keypair
    /// imported from a public key alone carries a fresh private half
    /// unrelated to it.
    pub open spec fn linked(&self) -> bool {
        spec_hex_decode(self.spec_public()).unwrap() == spec_public_of(
            spec_hex_decode(self.spec_private()).unwrap(),
        )
    }

    /// Generate a new random keypair. The public hex form has 66
    /// lowercase hex characters, the private 64.
    pub fn generate() -> (r: Keypair)
        ensures
            r.wf(),
            r.linked(),
            r.spec_public().len() == 66,
            r.spec_private().len() == 64,
            spec_is_lower_hex(r.spec_public()),
            spec_is_lower_hex(r.spec_private()),
    {
        let (pk, sk) = keypair_gen_bytes();
        proof {
            lemma_hex_round_trip(pk@);
            lemma_hex_round_trip(sk@);
            lemma_hex_of_lower(pk@);
            lemma_hex_of_lower(sk@);
            lemma_hex_of_len(pk@);
            lemma_hex_of_len(sk@);
        }
        Keypair { public_key_hex: encode_hex(&pk), private_key_hex: encode_hex(&sk) }
    }

    /// Import a keypair from the hex form of a compressed public key:
    /// exactly 33 decoded bytes that parse as a curve point. The
    /// private half is a fresh random key, as no private material is
    /// available; only the public half is meaningful.
    pub fn from_public_key(public_key_hex: &str) -> (r: Result<Keypair, DotenvxError>)
        ensures
            r is Ok <==> spec_hex_decode(public_key_hex@) is Some && spec_hex_decode(
                public_key_hex@,
            ).unwrap().len() == 33 && spec_point_ok(spec_hex_decode(public_key_hex@).unwrap()),
            r is Ok ==> {
                let k = r->Ok_0;
                k.wf() && k.spec_public() == spec_hex_of(spec_hex_decode(public_key_hex@).unwrap())
            },
            r is Err ==> (if spec_hex_decode(public_key_hex@) is None {
                r->Err_0 matches DotenvxError::HexDecode(_)
            } else {
                r->Err_0 matches DotenvxError::InvalidPublicKey(_)
            }),
    {
        let bytes = match decode_hex(public_key_hex) {
            Some(b) => b,
            None => {
                return Err(DotenvxError::HexDecode(String::from_str("invalid hex string")));
            },
        };
        if bytes.len() != 33 {
            return Err(
                DotenvxError::InvalidPublicKey(
                    String::from_str("expected a 33-byte compressed public key"),
                ),
            );
        }
        let point = match canonical_point_bytes(&bytes) {
            Some(p) => p,
            None => {
                return Err(
                    DotenvxError::InvalidPublicKey(String::from_str("malformed public key")),
                );
            },
        };
        assert(point@ == bytes@);
        let (_, dummy_secret) = keypair_gen_bytes();
        proof {
            lemma_hex_round_trip(point@);
            lemma_hex_round_trip(dummy_secret@);
        }
        Ok(
            Keypair {
                public_key_hex: encode_hex(&point),
                private_key_hex: encode_hex(&dummy_secret),
            },
        )
    }

    /// Import a keypair from the hex form of a private key; the public
    /// half is derived from it.
    pub fn from_private_key(private_key_hex: &str) -> (r: Result<Keypair, DotenvxError>)
        ensures
            r is Ok <==> spec_hex_decode(private_key_hex@) is Some && spec_sk_ok(
                spec_hex_decode(private_key_hex@).unwrap(),
            ),
            r is Ok ==> {
                let k = r->Ok_0;
                k.wf() && k.linked() && k.spec_private() == spec_hex_of(
                    spec_hex_decode(private_key_hex@).unwrap(),
                )
            },
            r is Err ==> (if spec_hex_decode(private_key_hex@) is None {
                r->Err_0 matches DotenvxError::HexDecode(_)
            } else {
                r->Err_0 matches DotenvxError::InvalidPrivateKey(_)
            }),
    {
        let bytes = match decode_hex(private_key_hex) {
            Some(b) => b,
            None => {
                return Err(DotenvxError::HexDecode(String::from_str("invalid hex string")));
            },
        };
        let public = match derive_public_bytes(&bytes) {
            Some(p) => p,
            None => {
                return Err(
                    DotenvxError::InvalidPrivateKey(String::from_str("malformed secret key")),
                );
            },
        };
        proof {
            lemma_hex_round_trip(public@);
            lemma_hex_round_trip(bytes@);
        }
        Ok(Keypair { public_key_hex: encode_hex(&public), private_key_hex: encode_hex(&bytes) })
    }

    /// The hex form of the public key (66 lowercase hex characters for
    /// a well-formed keypair).
    pub fn public_key(&self) -> (r: String)
        ensures
            r@ == self.spec_public(),
    {
        self.public_key_hex.clone()
    }

    /// The hex form of the private key (64 lowercase hex characters
    /// for a well-formed keypair).
    pub fn private_key(&self) -> (r: String)
        ensures
            r@ == self.spec_private(),
    {
        self.private_key_hex.clone()
    }
}

} // verus!
