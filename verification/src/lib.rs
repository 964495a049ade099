//! Secure environment-variable toolkit: a line-oriented `.env` parser
//! that preserves the author's formatting, POSIX-style variable
//! expansion and command-substitution splicing, ECIES envelope
//! encryption of individual values (secp256k1 + HKDF-SHA256 +
//! AES-256-GCM behind `encrypted:` base64 tokens), key discovery
//! across the usual sources, and format-preserving file rewriting.
//!
//! Every function is specified and verified; the calls into the
//! cryptographic and encoding crates stand behind the trusted
//! contracts collected in one module.
use vstd::prelude::*;

mod ecies;
mod envmap;
mod errors;
mod expansion;
mod hex;
mod keypair;
mod laws;
mod loadenv;
mod parser;
mod primitives;
mod printenv;
mod resolve;
mod rewrite;
mod strutil;
mod substitution;

pub use ecies::decrypt;
pub use ecies::encrypt;
pub use envmap::EnvMap;
pub use errors::DotenvxError;
pub use keypair::Keypair;
pub use parser::DotenvParser;
pub use expansion::expand_variables;
pub use substitution::find_commands;
pub use substitution::substitute_commands;
pub use resolve::extract_key;
pub use resolve::extract_key_from_content;
pub use resolve::resolve_private_key;
pub use rewrite::decrypt_file;
pub use rewrite::encrypt_file;
pub use rewrite::save_private_key;
pub use rewrite::set_key;
pub use rewrite::write_keys_file;
pub use rewrite::SetKeyOutcome;
pub use rewrite::should_encrypt_key;
pub use rewrite::EncryptedFile;
pub use loadenv::load_env_file;
pub use printenv::printenv_command;
pub use hex::decode_hex;
pub use hex::encode_hex;

verus! {

} // verus!
