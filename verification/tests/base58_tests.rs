use dual_transfer::base58::{decode, encode};

#[test]
fn decode_simple_values() {
    assert_eq!(decode("2"), Some(vec![1u8]));
    assert_eq!(decode("z"), Some(vec![57u8]));
    assert_eq!(decode("21"), Some(vec![58u8]));
    assert_eq!(decode(""), Some(vec![]));
}

#[test]
fn decode_leading_ones_are_zero_bytes() {
    assert_eq!(decode("1"), Some(vec![0u8]));
    assert_eq!(decode("111"), Some(vec![0u8, 0, 0]));
    assert_eq!(decode("12"), Some(vec![0u8, 1]));
}

#[test]
fn decode_rejects_characters_outside_the_alphabet() {
    assert_eq!(decode("0"), None);
    assert_eq!(decode("O"), None);
    assert_eq!(decode("I"), None);
    assert_eq!(decode("l"), None);
    assert_eq!(decode("ab cd"), None);
    assert_eq!(decode("héllo"), None);
}

#[test]
fn encode_simple_values() {
    assert_eq!(encode(&[1]), "2");
    assert_eq!(encode(&[58]), "21");
    assert_eq!(encode(&[0, 0]), "11");
    assert_eq!(encode(&[0, 1]), "12");
    assert_eq!(encode(&[]), "");
}

#[test]
fn round_trip_64_bytes() {
    let bytes: Vec<u8> = (0..64u8).map(|i| i.wrapping_mul(37).wrapping_add(5)).collect();
    let text = encode(&bytes);
    assert_eq!(decode(&text), Some(bytes));
}

#[test]
fn round_trip_with_leading_zeros() {
    let bytes = vec![0u8, 0, 255, 254, 7, 0, 1];
    let text = encode(&bytes);
    assert!(text.starts_with("11"));
    assert_eq!(decode(&text), Some(bytes));
}

#[test]
fn agrees_with_the_sdk_codec() {
    let samples: Vec<Vec<u8>> = vec![
        vec![],
        vec![0],
        vec![0, 0, 0],
        vec![255; 32],
        vec![0, 1, 2, 3, 4, 5],
        (0..64u8).collect(),
    ];
    for bytes in samples {
        let ours = encode(&bytes);
        let theirs = solana_sdk::bs58::encode(&bytes).into_string();
        assert_eq!(ours, theirs);
        assert_eq!(
            decode(&ours),
            Some(solana_sdk::bs58::decode(&theirs).into_vec().unwrap())
        );
    }
}

#[test]
fn decode_matches_sdk_on_text() {
    for text in ["", "1", "z", "3mJr7AoUXx2Wqd", "11233QC4", "Jxf9"] {
        let theirs = solana_sdk::bs58::decode(text).into_vec().unwrap();
        assert_eq!(decode(text), Some(theirs));
    }
}
