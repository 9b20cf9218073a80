//! The sender's key material: base-58 text decoded to exactly 64 raw bytes,
//! a 32-byte seed followed by the 32-byte public key.

use vstd::prelude::*;

verus! {

use crate::base58::decode;
use crate::base58::decode_spec;
use crate::error::CliError;

/// Decode a base-58 sender key to its 64 raw bytes. Text that is not
/// base-58 and text of any other decoded length are rejected, each with its
/// own error, before anything else can happen to the key.
pub fn keypair_bytes_from_base58(s: &str) -> (r: Result<Vec<u8>, CliError>)
    ensures
        match r {
            Ok(b) => decode_spec(s@) == Some(b@) && b@.len() == 64,
            Err(e) => match decode_spec(s@) {
                Option::None => e == CliError::KeyEncoding,
                Option::Some(bytes) => bytes.len() != 64 && e == CliError::KeyLength,
            },
        },
{
    let bytes = match decode(s) {
        Some(b) => b,
        None => {
            return Err(CliError::KeyEncoding);
        },
    };
    if bytes.len() != 64 {
        return Err(CliError::KeyLength);
    }
    Ok(bytes)
}

} // verus!
