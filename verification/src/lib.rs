//! A command-line tool's verified core: resolve four required flags, decode a
//! base-58 sender keypair and two recipient addresses, and assemble one
//! signed transaction carrying two equal transfers, ready for submission.

use vstd::prelude::*;

pub mod args;
pub mod base58;
pub mod digits;
pub mod error;
pub mod keys;
pub mod solana;
pub mod transfer;

verus! {

/// The number of raw bytes in a sender keypair: a 32-byte seed followed by
/// the 32-byte public key.
pub const KEYPAIR_LEN: usize = 64;

/// The number of raw bytes in a ledger address.
pub const ADDRESS_LEN: usize = 32;

} // verus!
