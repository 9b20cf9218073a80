//! The error taxonomy of one run: every failure kind the tool can report,
//! one variant each, so callers and tests can tell them apart.

use vstd::prelude::*;

verus! {

use vstd::string::StringExecFns;

/// The four required command-line values.
#[derive(Clone, Copy, Debug, PartialEq, Eq, Structural)]
pub enum Flag {
    To1,
    To2,
    From,
    Amount,
}

/// Everything that can make a run abort. The first failure wins; none is
/// recovered from.
#[derive(Clone, Copy, Debug, PartialEq, Eq, Structural)]
pub enum CliError {
    /// A required flag was not given.
    MissingFlag(Flag),
    /// The amount is not an unsigned 64-bit decimal number.
    AmountNotNumeric,
    /// The sender key is not valid base-58 text.
    KeyEncoding,
    /// The sender key decodes to a byte string whose length is not 64.
    KeyLength,
    /// The ledger library rejected the 64 key bytes as a keypair.
    KeyRejected,
    /// The named recipient flag does not hold a valid address.
    BadAddress(Flag),
    /// Fetching the freshness token from the node failed.
    NetworkRead,
    /// Submitting the transaction or awaiting its confirmation failed.
    NetworkWrite,
}

impl Flag {
    /// The long name of the flag, as written on the command line.
    pub open spec fn name_spec(&self) -> Seq<char> {
        match self {
            Flag::To1 => "--to1"@,
            Flag::To2 => "--to2"@,
            Flag::From => "--from"@,
            Flag::Amount => "--amount"@,
        }
    }

    /// The long name of the flag, as written on the command line.
    pub fn name(&self) -> (r: String)
        ensures
            r@ == self.name_spec(),
    {
        match self {
            Flag::To1 => String::from_str("--to1"),
            Flag::To2 => String::from_str("--to2"),
            Flag::From => String::from_str("--from"),
            Flag::Amount => String::from_str("--amount"),
        }
    }
}

impl CliError {
    /// The text each failure kind is reported with.
    pub open spec fn message_spec(&self) -> Seq<char> {
        match self {
            CliError::MissingFlag(f) => "missing required flag "@ + f.name_spec(),
            CliError::AmountNotNumeric => "--amount is not an unsigned 64-bit decimal number"@,
            CliError::KeyEncoding => "--from is not valid base-58 text"@,
            CliError::KeyLength => "Keypair byte array length is not 64 bytes"@,
            CliError::KeyRejected => "--from does not hold a valid keypair"@,
            CliError::BadAddress(f) => f.name_spec() + " is not a valid address"@,
            CliError::NetworkRead => "fetching the latest blockhash failed"@,
            CliError::NetworkWrite => "submitting or confirming the transaction failed"@,
        }
    }

    /// A human-readable description, for the process's error output.
    pub fn message(&self) -> (r: String)
        ensures
            r@ == self.message_spec(),
    {
        match self {
            CliError::MissingFlag(f) => String::from_str("missing required flag ").concat(
                f.name().as_str(),
            ),
            CliError::AmountNotNumeric => String::from_str(
                "--amount is not an unsigned 64-bit decimal number",
            ),
            CliError::KeyEncoding => String::from_str("--from is not valid base-58 text"),
            CliError::KeyLength => String::from_str("Keypair byte array length is not 64 bytes"),
            CliError::KeyRejected => String::from_str("--from does not hold a valid keypair"),
            CliError::BadAddress(f) => f.name().concat(" is not a valid address"),
            CliError::NetworkRead => String::from_str("fetching the latest blockhash failed"),
            CliError::NetworkWrite => String::from_str(
                "submitting or confirming the transaction failed",
            ),
        }
    }
}

} // verus!
