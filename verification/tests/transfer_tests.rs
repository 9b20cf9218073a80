use dual_transfer::base58::encode;
use dual_transfer::error::{CliError, Flag};
use dual_transfer::solana::assemble_signed_transaction;
use dual_transfer::transfer::{
    address_from_base58, build_transfer_instructions, resolve_and_decode, Address,
};
use solana_sdk::signature::Signer;
use solana_sdk::signer::keypair::Keypair;

fn addr(byte: u8) -> (String, Vec<u8>) {
    let bytes = vec![byte; 32];
    (encode(&bytes), bytes)
}

#[test]
fn address_parsing_accepts_32_bytes_only() {
    let (text, bytes) = addr(7);
    let a = address_from_base58(&text, Flag::To1).unwrap();
    assert_eq!(a.bytes, bytes);

    let short = encode(&vec![7u8; 31]);
    assert!(matches!(
        address_from_base58(&short, Flag::To2),
        Err(CliError::BadAddress(Flag::To2))
    ));
    assert!(matches!(
        address_from_base58("0", Flag::To1),
        Err(CliError::BadAddress(Flag::To1))
    ));
}

#[test]
fn two_instructions_one_per_recipient() {
    let sender = Address { bytes: vec![1; 32] };
    let to1 = Address { bytes: vec![2; 32] };
    let to2 = Address { bytes: vec![3; 32] };
    let pair = build_transfer_instructions(&sender, &to1, &to2, 1000);
    assert_eq!(pair.len(), 2);
    assert_eq!(pair[0].from.bytes, vec![1; 32]);
    assert_eq!(pair[0].to.bytes, vec![2; 32]);
    assert_eq!(pair[0].lamports, 1000);
    assert_eq!(pair[1].from.bytes, vec![1; 32]);
    assert_eq!(pair[1].to.bytes, vec![3; 32]);
    assert_eq!(pair[1].lamports, 1000);
}

#[test]
fn pipeline_resolves_a_complete_invocation() {
    let keypair = Keypair::new();
    let key_text = encode(&keypair.to_bytes());
    let (to1_text, to1_bytes) = addr(2);
    let (to2_text, to2_bytes) = addr(3);
    let req = resolve_and_decode(
        Some(to1_text),
        Some(to2_text),
        Some(key_text),
        Some("1000".to_string()),
    )
    .unwrap();
    assert_eq!(req.key_bytes, keypair.to_bytes().to_vec());
    assert_eq!(req.to1.bytes, to1_bytes);
    assert_eq!(req.to2.bytes, to2_bytes);
    assert_eq!(req.lamports, 1000);
}

#[test]
fn pipeline_rejects_a_32_byte_key_before_any_network_use() {
    let key_text = encode(&vec![9u8; 32]);
    let (to1_text, _) = addr(2);
    let (to2_text, _) = addr(3);
    let r = resolve_and_decode(
        Some(to1_text),
        Some(to2_text),
        Some(key_text),
        Some("1000".to_string()),
    );
    assert!(matches!(r, Err(CliError::KeyLength)));
}

#[test]
fn assembles_and_signs_a_transaction() {
    let keypair = Keypair::new();
    let key_text = encode(&keypair.to_bytes());
    let (to1_text, to1_bytes) = addr(2);
    let (to2_text, to2_bytes) = addr(3);
    let req = resolve_and_decode(
        Some(to1_text),
        Some(to2_text),
        Some(key_text),
        Some("1000".to_string()),
    )
    .unwrap();
    let blockhash = solana_sdk::hash::hash(b"test blockhash");
    let wire = assemble_signed_transaction(&req, blockhash).unwrap();
    let tx = wire.transaction();
    assert_eq!(tx.message.instructions.len(), 2);
    assert!(tx.is_signed());
    assert!(tx.verify().is_ok());
    let keys = &tx.message.account_keys;
    assert_eq!(keys[0], keypair.pubkey());
    let to1_pk = solana_sdk::pubkey::Pubkey::try_from(to1_bytes.as_slice()).unwrap();
    let to2_pk = solana_sdk::pubkey::Pubkey::try_from(to2_bytes.as_slice()).unwrap();
    assert!(keys.contains(&to1_pk));
    assert!(keys.contains(&to2_pk));
}

#[test]
fn rejects_key_bytes_the_sdk_refuses() {
    let keypair = Keypair::new();
    let mut bytes = keypair.to_bytes().to_vec();
    for b in bytes[32..].iter_mut() {
        *b = b.wrapping_add(1);
    }
    let key_text = encode(&bytes);
    let (to1_text, _) = addr(2);
    let (to2_text, _) = addr(3);
    let req = resolve_and_decode(
        Some(to1_text),
        Some(to2_text),
        Some(key_text),
        Some("1".to_string()),
    )
    .unwrap();
    let blockhash = solana_sdk::hash::hash(b"test blockhash");
    let r = assemble_signed_transaction(&req, blockhash);
    assert!(matches!(r, Err(CliError::KeyRejected)));
}
