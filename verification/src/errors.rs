//! Error type shared by every operation of the library.
//!
//! Each variant carries plain strings; the stable short code of each
//! variant is given by [`DotenvxError::code`].
use vstd::prelude::*;

verus! {

/// Error cases of the library's operations.
#[derive(Debug, Clone)]
pub enum DotenvxError {
    MissingEnvFile { path: String },
    MissingKey { key: String },
    MissingPrivateKey { key_name: String },
    DecryptionFailed { key: String, private_key_name: String },
    MalformedEncryptedData { key: String },
    InvalidPublicKey(String),
    InvalidPrivateKey(String),
    EncryptionFailed(String),
    ParseError { line: usize, message: String },
    CommandFailed(String),
    Io(String),
    Secp256k1(String),
    Base64Decode(String),
    HexDecode(String),
    Utf8(String),
    Regex(String),
    VariableExpansion(String),
    CommandSubstitution(String),
    Other(String),
}

impl DotenvxError {
    /// The stable short code of each variant.
    pub open spec fn spec_code(&self) -> Seq<char> {
        match self {
            DotenvxError::MissingEnvFile { .. } => "MISSING_ENV_FILE"@,
            DotenvxError::MissingKey { .. } => "MISSING_KEY"@,
            DotenvxError::MissingPrivateKey { .. } => "MISSING_PRIVATE_KEY"@,
            DotenvxError::DecryptionFailed { .. } => "DECRYPTION_FAILED"@,
            DotenvxError::MalformedEncryptedData { .. } => "MALFORMED_ENCRYPTED_DATA"@,
            DotenvxError::InvalidPublicKey(_) => "INVALID_PUBLIC_KEY"@,
            DotenvxError::InvalidPrivateKey(_) => "INVALID_PRIVATE_KEY"@,
            DotenvxError::EncryptionFailed(_) => "ENCRYPTION_FAILED"@,
            DotenvxError::ParseError { .. } => "PARSE_ERROR"@,
            DotenvxError::CommandFailed(_) => "COMMAND_FAILED"@,
            DotenvxError::Io(_) => "IO_ERROR"@,
            DotenvxError::Secp256k1(_) => "CRYPTO_ERROR"@,
            DotenvxError::Base64Decode(_) => "BASE64_DECODE_ERROR"@,
            DotenvxError::HexDecode(_) => "HEX_DECODE_ERROR"@,
            DotenvxError::Utf8(_) => "UTF8_ERROR"@,
            DotenvxError::Regex(_) => "REGEX_ERROR"@,
            DotenvxError::VariableExpansion(_) => "VARIABLE_EXPANSION_ERROR"@,
            DotenvxError::CommandSubstitution(_) => "COMMAND_SUBSTITUTION_ERROR"@,
            DotenvxError::Other(_) => "UNKNOWN_ERROR"@,
        }
    }

    /// The stable short code of this error.
    pub fn code(&self) -> (r: &'static str)
        ensures
            r@ == self.spec_code(),
    {
        match self {
            DotenvxError::MissingEnvFile { .. } => "MISSING_ENV_FILE",
            DotenvxError::MissingKey { .. } => "MISSING_KEY",
            DotenvxError::MissingPrivateKey { .. } => "MISSING_PRIVATE_KEY",
            DotenvxError::DecryptionFailed { .. } => "DECRYPTION_FAILED",
            DotenvxError::MalformedEncryptedData { .. } => "MALFORMED_ENCRYPTED_DATA",
            DotenvxError::InvalidPublicKey(_) => "INVALID_PUBLIC_KEY",
            DotenvxError::InvalidPrivateKey(_) => "INVALID_PRIVATE_KEY",
            DotenvxError::EncryptionFailed(_) => "ENCRYPTION_FAILED",
            DotenvxError::ParseError { .. } => "PARSE_ERROR",
            DotenvxError::CommandFailed(_) => "COMMAND_FAILED",
            DotenvxError::Io(_) => "IO_ERROR",
            DotenvxError::Secp256k1(_) => "CRYPTO_ERROR",
            DotenvxError::Base64Decode(_) => "BASE64_DECODE_ERROR",
            DotenvxError::HexDecode(_) => "HEX_DECODE_ERROR",
            DotenvxError::Utf8(_) => "UTF8_ERROR",
            DotenvxError::Regex(_) => "REGEX_ERROR",
            DotenvxError::VariableExpansion(_) => "VARIABLE_EXPANSION_ERROR",
            DotenvxError::CommandSubstitution(_) => "COMMAND_SUBSTITUTION_ERROR",
            DotenvxError::Other(_) => "UNKNOWN_ERROR",
        }
    }
}

} // verus!
