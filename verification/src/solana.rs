//! The boundary to the ledger SDK: the sender keypair, the on-wire
//! instructions and the signed transaction are values of solana_sdk, built
//! from the verified model through small trusted wrappers. Each SDK value is
//! carried in a handle beside a ghost record of what it was built from. The
//! handles' fields are private and each handle has one constructor in this
//! module, so every handle in verified code pairs an SDK value with the
//! faithful record of the arguments it was built from.

use vstd::prelude::*;

verus! {

use crate::error::CliError;
use crate::transfer::TransferRequest;
use crate::transfer::Address;
use crate::transfer::TransferInstruction;
use crate::transfer::build_transfer_instructions;
use crate::transfer::transfer_pair_spec;
use solana_sdk::instruction::Instruction;
use solana_sdk::pubkey::Pubkey;
use solana_sdk::signer::keypair::Keypair;
use solana_sdk::transaction::Transaction;
use vstd::slice::slice_subrange;
use vstd::slice::slice_to_vec;

#[verifier::external_type_specification]
#[verifier::external_body]
pub struct ExKeypair(Keypair);

#[verifier::external_type_specification]
#[verifier::external_body]
pub struct ExPubkey(Pubkey);

#[verifier::external_type_specification]
#[verifier::external_body]
pub struct ExInstruction(Instruction);

#[verifier::external_type_specification]
#[verifier::external_body]
pub struct ExTransaction(Transaction);

#[verifier::external_type_specification]
#[verifier::external_body]
pub struct ExHash(solana_sdk::hash::Hash);

/// Whether solana_sdk accepts these bytes as a keypair: 64 bytes whose second
/// half is the public key derived from the first. The answer depends on the
/// bytes alone.
pub uninterp spec fn keypair_accepted(bytes: Seq<u8>) -> bool;

/// Relies on solana_sdk's Keypair::from_bytes: deterministic in the bytes and
/// total (every length is answered with Ok or Err, never a panic), succeeding
/// exactly when the bytes are a 64-byte pair whose second half is the public
/// key derived from the first.
#[verifier::external_body]
fn keypair_try_from_bytes(bytes: &[u8]) -> (r: Option<Keypair>)
    ensures
        r is Some <==> keypair_accepted(bytes@),
{
    match Keypair::from_bytes(bytes) {
        Ok(k) => Some(k),
        Err(_) => None,
    }
}

/// The sender keypair, beside the 64 bytes it was built from. Values exist
/// only through `load_sender_keypair`, so the record is faithful, and bytes
/// 32..64 of it are the keypair's public key.
struct SenderKeypair {
    keypair: Keypair,
    byte_record: Ghost<Seq<u8>>,
}

impl SenderKeypair {
    /// The 64 bytes this keypair was built from.
    closed spec fn key_bytes(&self) -> Seq<u8> {
        self.byte_record@
    }
}

/// Build the sender keypair from its 64 bytes, recording them.
fn load_sender_keypair(bytes: &Vec<u8>) -> (r: Option<SenderKeypair>)
    ensures
        r is Some <==> keypair_accepted(bytes@),
        r matches Some(k) ==> k.key_bytes() == bytes@,
{
    match keypair_try_from_bytes(bytes.as_slice()) {
        Some(k) => Some(SenderKeypair { keypair: k, byte_record: Ghost(bytes@) }),
        None => None,
    }
}

/// Relies on solana_sdk's system_instruction::transfer, a pure constructor
/// that cannot fail: the one transfer instruction of `lamports` from `from`
/// to `to`, whose accounts are the two addresses (the sender marked signer)
/// and whose program is the system program. The 32-byte arguments make the
/// Pubkey conversions total.
#[verifier::external_body]
fn raw_transfer_instruction(from: &[u8], to: &[u8], lamports: u64) -> (r: Instruction)
    requires
        from@.len() == 32,
        to@.len() == 32,
{
    let from_pk = Pubkey::try_from(from).unwrap();
    let to_pk = Pubkey::try_from(to).unwrap();
    solana_sdk::system_instruction::transfer(&from_pk, &to_pk, lamports)
}

/// One on-wire transfer instruction, beside a record of the transfer it
/// encodes: sender bytes, recipient bytes, lamports. Values exist only
/// through `transfer_instruction`, so the record is faithful.
struct WireInstruction {
    ix: Instruction,
    record: Ghost<(Seq<u8>, Seq<u8>, u64)>,
}

impl WireInstruction {
    closed spec fn model(&self) -> (Seq<u8>, Seq<u8>, u64) {
        self.record@
    }
}

/// Build one on-wire transfer instruction, recording what it carries.
fn transfer_instruction(from: &Address, to: &Address, lamports: u64) -> (r: WireInstruction)
    requires
        from.wf(),
        to.wf(),
    ensures
        r.model() == (from@, to@, lamports),
{
    let ix = raw_transfer_instruction(from.bytes.as_slice(), to.bytes.as_slice(), lamports);
    WireInstruction { ix, record: Ghost((from@, to@, lamports)) }
}

/// Relies on solana_sdk's Transaction::new_with_payer: an unsigned
/// transaction holding exactly these instructions with this fee payer, its
/// signature slots sized to the header's signer count. The constructor
/// panics past 255 compiled keys; every WireInstruction is a system transfer
/// (two account keys and the system program), so with the payer at most
/// 3 * 80 + 2 = 242 keys arise under the stated bound. The 32-byte payer
/// makes the Pubkey conversion total.
#[verifier::external_body]
fn raw_transaction_with_payer(instructions: Vec<WireInstruction>, payer: &[u8]) -> (r:
    Transaction)
    requires
        payer@.len() == 32,
        instructions@.len() <= 80,
{
    let payer_pk = Pubkey::try_from(payer).unwrap();
    let ixs: Vec<Instruction> = instructions.into_iter().map(|wi| wi.ix).collect();
    Transaction::new_with_payer(&ixs, Some(&payer_pk))
}

/// A transaction made by the SDK constructor, beside a record of its fee
/// payer's 32 bytes and of the transfers it carries. Values exist only
/// through `transaction_with_payer`, so the records are faithful; such a
/// transaction has its signature slots sized to its header, and its required
/// signers are its payer and its transfers' senders.
pub struct WireTransaction {
    tx: Transaction,
    payer_record: Ghost<Seq<u8>>,
    transfer_records: Ghost<Seq<(Seq<u8>, Seq<u8>, u64)>>,
}

impl WireTransaction {
    /// The fee payer's 32 address bytes.
    pub closed spec fn payer(&self) -> Seq<u8> {
        self.payer_record@
    }

    /// The transfers this transaction carries, in order:
    /// (sender bytes, recipient bytes, lamports) each.
    pub closed spec fn transfers(&self) -> Seq<(Seq<u8>, Seq<u8>, u64)> {
        self.transfer_records@
    }

    /// The SDK transaction itself, for submission.
    pub fn transaction(&self) -> &Transaction {
        &self.tx
    }
}

/// Build the unsigned transaction from the on-wire instructions, recording
/// the payer and the transfers.
fn transaction_with_payer(instructions: Vec<WireInstruction>, payer: &Address) -> (r:
    WireTransaction)
    requires
        payer.wf(),
        instructions@.len() <= 80,
    ensures
        r.payer() == payer@,
        r.transfers() == instructions@.map_values(|wi: WireInstruction| wi.model()),
{
    let ghost records = instructions@.map_values(|wi: WireInstruction| wi.model());
    let tx = raw_transaction_with_payer(instructions, payer.bytes.as_slice());
    WireTransaction { tx, payer_record: Ghost(payer@), transfer_records: Ghost(records) }
}

/// Relies on solana_sdk's Transaction::try_sign with one keypair, on a
/// transaction from `transaction_with_payer`, whose signature slots match its
/// header: the call then returns instead of panicking, and it succeeds
/// exactly when the one keypair covers every required signer. The required
/// signers are the fee payer and each transfer's sender; the keypair's public
/// key is bytes 32..64 of its key bytes. So when the payer is that public key
/// and every transfer is paid by the payer, signing succeeds.
#[verifier::external_body]
fn try_sign_transaction(
    tx: &mut WireTransaction,
    keypair: &SenderKeypair,
    recent_blockhash: solana_sdk::hash::Hash,
) -> (r: bool)
    ensures
        final(tx).payer() == old(tx).payer(),
        final(tx).transfers() == old(tx).transfers(),
        ({
            &&& keypair.key_bytes().len() == 64
            &&& old(tx).payer() == keypair.key_bytes().subrange(32, 64)
            &&& forall|i: int|
                0 <= i < old(tx).transfers().len() ==> (#[trigger] old(tx).transfers()[i]).0
                    == old(tx).payer()
        }) ==> r == true,
{
    tx.tx.try_sign(&[&keypair.keypair], recent_blockhash).is_ok()
}

/// Load the sender keypair from base-58 text, as one step: decode the text,
/// check the 64-byte length, and let the SDK accept or reject the bytes.
/// Each failure keeps its own error.
pub fn keypair_from_base58(s: &str) -> (r: Result<Keypair, CliError>)
    ensures
        match crate::base58::decode_spec(s@) {
            Option::None => r == Err::<Keypair, CliError>(CliError::KeyEncoding),
            Option::Some(b) => {
                &&& b.len() != 64 ==> r == Err::<Keypair, CliError>(CliError::KeyLength)
                &&& b.len() == 64 && keypair_accepted(b) ==> r is Ok
                &&& b.len() == 64 && !keypair_accepted(b) ==> r == Err::<Keypair, CliError>(
                    CliError::KeyRejected,
                )
            },
        },
{
    let bytes = match crate::keys::keypair_bytes_from_base58(s) {
        Ok(b) => b,
        Err(e) => {
            return Err(e);
        },
    };
    match keypair_try_from_bytes(bytes.as_slice()) {
        Some(k) => Ok(k),
        None => Err(CliError::KeyRejected),
    }
}

/// The sender's own address: the second half of the 64 key bytes, which holds
/// the public key.
pub fn sender_address(key_bytes: &Vec<u8>) -> (r: Address)
    requires
        key_bytes@.len() == 64,
    ensures
        r@ == key_bytes@.subrange(32, 64),
        r.wf(),
{
    let half = slice_subrange(key_bytes.as_slice(), 32, 64);
    Address { bytes: slice_to_vec(half) }
}

/// Assemble and sign the one transaction of a run: the verified instruction
/// pair, converted one for one to on-wire instructions, with the sender as
/// fee payer and the freshness token fetched from the node just before.
/// The key bytes are rejected exactly when solana_sdk rejects them; every
/// accepted key yields the signed transaction, which carries exactly the two
/// transfers, paid by the sender.
pub fn assemble_signed_transaction(
    request: &TransferRequest,
    recent_blockhash: solana_sdk::hash::Hash,
) -> (r: Result<WireTransaction, CliError>)
    requires
        request.wf(),
    ensures
        !keypair_accepted(request.key_bytes@) ==> r == Err::<WireTransaction, CliError>(
            CliError::KeyRejected,
        ),
        keypair_accepted(request.key_bytes@) ==> r is Ok,
        r matches Ok(tx) ==> {
            &&& tx.payer() == request.key_bytes@.subrange(32, 64)
            &&& tx.transfers() == transfer_pair_spec(
                request.key_bytes@.subrange(32, 64),
                request.to1@,
                request.to2@,
                request.lamports,
            )
        },
{
    let keypair = match load_sender_keypair(&request.key_bytes) {
        Some(k) => k,
        None => {
            return Err(CliError::KeyRejected);
        },
    };
    let sender = sender_address(&request.key_bytes);
    let plan = build_transfer_instructions(&sender, &request.to1, &request.to2, request.lamports);
    proof {
        assert(plan@.map_values(|ix: TransferInstruction| ix@)[0] == plan@[0]@);
        assert(plan@.map_values(|ix: TransferInstruction| ix@)[1] == plan@[1]@);
    }
    let wi1 = transfer_instruction(&plan[0].from, &plan[0].to, plan[0].lamports);
    let wi2 = transfer_instruction(&plan[1].from, &plan[1].to, plan[1].lamports);
    let mut wires: Vec<WireInstruction> = Vec::new();
    wires.push(wi1);
    wires.push(wi2);
    let mut tx = transaction_with_payer(wires, &sender);
    proof {
        assert(tx.transfers() =~= transfer_pair_spec(
            request.key_bytes@.subrange(32, 64),
            request.to1@,
            request.to2@,
            request.lamports,
        ));
    }
    let signed = try_sign_transaction(&mut tx, &keypair, recent_blockhash);
    proof {
        assert(tx.transfers()[0].0 == tx.payer());
        assert(tx.transfers()[1].0 == tx.payer());
        assert(signed);
    }
    Ok(tx)
}

} // verus!
