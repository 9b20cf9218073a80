use dual_transfer::base58::encode;
use dual_transfer::error::CliError;
use dual_transfer::keys::keypair_bytes_from_base58;

#[test]
fn accepts_a_64_byte_key() {
    let bytes: Vec<u8> = (0..64u8).collect();
    let text = encode(&bytes);
    assert_eq!(keypair_bytes_from_base58(&text), Ok(bytes));
}

#[test]
fn rejects_malformed_base58() {
    assert_eq!(
        keypair_bytes_from_base58("not base58 0OIl"),
        Err(CliError::KeyEncoding)
    );
}

#[test]
fn rejects_wrong_length_before_anything_else_sees_the_key() {
    let short: Vec<u8> = (0..32u8).collect();
    let text = encode(&short);
    assert_eq!(keypair_bytes_from_base58(&text), Err(CliError::KeyLength));

    let long: Vec<u8> = (0..65u8).collect();
    let text = encode(&long);
    assert_eq!(keypair_bytes_from_base58(&text), Err(CliError::KeyLength));
}

#[test]
fn loads_an_sdk_keypair_from_base58() {
    let keypair = solana_sdk::signer::keypair::Keypair::new();
    let text = encode(&keypair.to_bytes());
    let loaded = dual_transfer::solana::keypair_from_base58(&text).unwrap();
    assert_eq!(loaded.to_bytes(), keypair.to_bytes());
}

#[test]
fn reports_rejected_key_material() {
    let keypair = solana_sdk::signer::keypair::Keypair::new();
    let mut bytes = keypair.to_bytes().to_vec();
    for b in bytes[32..].iter_mut() {
        *b = b.wrapping_add(1);
    }
    let text = encode(&bytes);
    assert!(matches!(
        dual_transfer::solana::keypair_from_base58(&text),
        Err(CliError::KeyRejected)
    ));
}
