//! The model of one run's transfer work: addresses, the pair of transfer
//! instructions, and the resolution pipeline that turns raw flag values into
//! a ready request.

use vstd::prelude::*;

verus! {

use crate::args::amount_spec;
use crate::args::opt_view;
use crate::args::resolve_args;
use crate::args::resolve_error;
use crate::base58::decode;
use crate::base58::decode_spec;
use crate::error::CliError;
use crate::error::Flag;
use crate::keys::keypair_bytes_from_base58;
use vstd::slice::slice_to_vec;

/// A ledger address: exactly 32 raw bytes.
pub struct Address {
    pub bytes: Vec<u8>,
}

impl Address {
    pub open spec fn wf(&self) -> bool {
        self.bytes@.len() == 32
    }

    /// A copy of this address.
    pub fn duplicate(&self) -> (r: Address)
        ensures
            r@ == self@,
    {
        Address { bytes: slice_to_vec(self.bytes.as_slice()) }
    }
}

impl View for Address {
    type V = Seq<u8>;

    open spec fn view(&self) -> Seq<u8> {
        self.bytes@
    }
}

/// What a textual address stands for: base-58 text of exactly 32 bytes.
pub open spec fn address_spec(s: Seq<char>) -> Option<Seq<u8>> {
    match decode_spec(s) {
        Option::Some(b) => if b.len() == 32 {
            Some(b)
        } else {
            None
        },
        Option::None => None,
    }
}

/// Parse a recipient address given under `which`.
pub fn address_from_base58(s: &str, which: Flag) -> (r: Result<Address, CliError>)
    ensures
        match r {
            Ok(a) => address_spec(s@) == Some(a@) && a.wf(),
            Err(e) => address_spec(s@) is None && e == CliError::BadAddress(which),
        },
{
    let bytes = match decode(s) {
        Some(b) => b,
        None => {
            return Err(CliError::BadAddress(which));
        },
    };
    if bytes.len() != 32 {
        return Err(CliError::BadAddress(which));
    }
    Ok(Address { bytes })
}

/// One value transfer: `lamports` from `from` to `to`.
pub struct TransferInstruction {
    pub from: Address,
    pub to: Address,
    pub lamports: u64,
}

impl View for TransferInstruction {
    type V = (Seq<u8>, Seq<u8>, u64);

    open spec fn view(&self) -> (Seq<u8>, Seq<u8>, u64) {
        (self.from@, self.to@, self.lamports)
    }
}

/// The instruction pair of one run: the full amount to each recipient,
/// independently, both paid from the sender.
pub open spec fn transfer_pair_spec(
    sender: Seq<u8>,
    to1: Seq<u8>,
    to2: Seq<u8>,
    lamports: u64,
) -> Seq<(Seq<u8>, Seq<u8>, u64)> {
    seq![(sender, to1, lamports), (sender, to2, lamports)]
}

/// Build the two transfer instructions of a run.
pub fn build_transfer_instructions(
    sender: &Address,
    to1: &Address,
    to2: &Address,
    lamports: u64,
) -> (r: Vec<TransferInstruction>)
    requires
        sender.wf(),
        to1.wf(),
        to2.wf(),
    ensures
        r@.map_values(|ix: TransferInstruction| ix@) == transfer_pair_spec(
            sender@,
            to1@,
            to2@,
            lamports,
        ),
        r@.len() == 2,
        r@[0].from.wf() && r@[0].to.wf() && r@[1].from.wf() && r@[1].to.wf(),
{
    let first = TransferInstruction { from: sender.duplicate(), to: to1.duplicate(), lamports };
    let second = TransferInstruction { from: sender.duplicate(), to: to2.duplicate(), lamports };
    let mut r: Vec<TransferInstruction> = Vec::new();
    r.push(first);
    r.push(second);
    proof {
        assert(r@.map_values(|ix: TransferInstruction| ix@) =~= transfer_pair_spec(
            sender@,
            to1@,
            to2@,
            lamports,
        ));
    }
    r
}

/// Exactly one instruction per recipient: with distinct recipients the pair
/// holds one transfer of the full amount from the sender to each, never a
/// split or combined amount, and the two instructions differ.
pub proof fn lemma_transfer_pair_symmetry(
    sender: Seq<u8>,
    to1: Seq<u8>,
    to2: Seq<u8>,
    lamports: u64,
)
    requires
        to1 != to2,
    ensures
        transfer_pair_spec(sender, to1, to2, lamports).len() == 2,
        transfer_pair_spec(sender, to1, to2, lamports)[0] == (sender, to1, lamports),
        transfer_pair_spec(sender, to1, to2, lamports)[1] == (sender, to2, lamports),
        transfer_pair_spec(sender, to1, to2, lamports)[0] != transfer_pair_spec(
            sender,
            to1,
            to2,
            lamports,
        )[1],
{
}

/// Everything a run needs before it first talks to the network.
pub struct TransferRequest {
    pub key_bytes: Vec<u8>,
    pub to1: Address,
    pub to2: Address,
    pub lamports: u64,
}

impl TransferRequest {
    pub open spec fn wf(&self) -> bool {
        self.key_bytes@.len() == 64 && self.to1.wf() && self.to2.wf()
    }
}

/// Which error the whole pre-network pipeline yields, if any: flags in order,
/// then the amount, then the key, then the two addresses — exactly the order
/// in which a run checks them.
pub open spec fn request_error(
    to1: Option<Seq<char>>,
    to2: Option<Seq<char>>,
    from: Option<Seq<char>>,
    amount: Option<Seq<char>>,
) -> Option<CliError> {
    match resolve_error(to1, to2, from, amount) {
        Option::Some(e) => Some(e),
        Option::None => match decode_spec(from.unwrap()) {
            Option::None => Some(CliError::KeyEncoding),
            Option::Some(kb) => if kb.len() != 64 {
                Some(CliError::KeyLength)
            } else if address_spec(to1.unwrap()) is None {
                Some(CliError::BadAddress(Flag::To1))
            } else if address_spec(to2.unwrap()) is None {
                Some(CliError::BadAddress(Flag::To2))
            } else {
                None
            },
        },
    }
}

/// Resolve the four flags, decode the sender key, and parse both recipient
/// addresses. The first failure aborts the run; nothing here touches the
/// network.
pub fn resolve_and_decode(
    to1: Option<String>,
    to2: Option<String>,
    from: Option<String>,
    amount: Option<String>,
) -> (r: Result<TransferRequest, CliError>)
    ensures
        match r {
            Ok(req) => {
                &&& request_error(opt_view(to1), opt_view(to2), opt_view(from), opt_view(amount))
                    is None
                &&& req.wf()
                &&& from matches Some(f) && decode_spec(f@) == Some(req.key_bytes@)
                &&& to1 matches Some(t1) && address_spec(t1@) == Some(req.to1@)
                &&& to2 matches Some(t2) && address_spec(t2@) == Some(req.to2@)
                &&& amount matches Some(am) && Some(req.lamports) == amount_spec(am@)
            },
            Err(e) => Some(e) == request_error(
                opt_view(to1),
                opt_view(to2),
                opt_view(from),
                opt_view(amount),
            ),
        },
{
    let args = match resolve_args(to1, to2, from, amount) {
        Ok(a) => a,
        Err(e) => {
            return Err(e);
        },
    };
    let key_bytes = match keypair_bytes_from_base58(args.from.as_str()) {
        Ok(b) => b,
        Err(e) => {
            return Err(e);
        },
    };
    let to1_addr = match address_from_base58(args.to1.as_str(), Flag::To1) {
        Ok(a) => a,
        Err(e) => {
            return Err(e);
        },
    };
    let to2_addr = match address_from_base58(args.to2.as_str(), Flag::To2) {
        Ok(a) => a,
        Err(e) => {
            return Err(e);
        },
    };
    Ok(TransferRequest { key_bytes, to1: to1_addr, to2: to2_addr, lamports: args.amount })
}

} // verus!
