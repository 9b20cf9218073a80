use dual_transfer::args::{parse_amount, resolve_args};
use dual_transfer::error::{CliError, Flag};

#[test]
fn parse_amount_plain_numbers() {
    assert_eq!(parse_amount("0"), Some(0));
    assert_eq!(parse_amount("1000"), Some(1000));
    assert_eq!(parse_amount("18446744073709551615"), Some(u64::MAX));
}

#[test]
fn parse_amount_rejects_non_numeric() {
    assert_eq!(parse_amount(""), None);
    assert_eq!(parse_amount("ten"), None);
    assert_eq!(parse_amount("-5"), None);
    assert_eq!(parse_amount("10.5"), None);
    assert_eq!(parse_amount("1e3"), None);
}

#[test]
fn parse_amount_rejects_overflow() {
    assert_eq!(parse_amount("18446744073709551616"), None);
    assert_eq!(parse_amount("99999999999999999999999"), None);
}

fn four() -> (Option<String>, Option<String>, Option<String>, Option<String>) {
    (
        Some("addr1".to_string()),
        Some("addr2".to_string()),
        Some("key".to_string()),
        Some("1000".to_string()),
    )
}

#[test]
fn resolve_args_accepts_complete_input() {
    let (a, b, c, d) = four();
    let args = resolve_args(a, b, c, d).unwrap();
    assert_eq!(args.to1, "addr1");
    assert_eq!(args.to2, "addr2");
    assert_eq!(args.from, "key");
    assert_eq!(args.amount, 1000);
}

#[test]
fn resolve_args_rejects_each_missing_flag() {
    let (_, b, c, d) = four();
    assert!(matches!(
        resolve_args(None, b, c, d),
        Err(CliError::MissingFlag(Flag::To1))
    ));
    let (a, _, c, d) = four();
    assert!(matches!(
        resolve_args(a, None, c, d),
        Err(CliError::MissingFlag(Flag::To2))
    ));
    let (a, b, _, d) = four();
    assert!(matches!(
        resolve_args(a, b, None, d),
        Err(CliError::MissingFlag(Flag::From))
    ));
    let (a, b, c, _) = four();
    assert!(matches!(
        resolve_args(a, b, c, None),
        Err(CliError::MissingFlag(Flag::Amount))
    ));
}

#[test]
fn resolve_args_rejects_bad_amount_before_touching_the_key() {
    let r = resolve_args(
        Some("addr1".to_string()),
        Some("addr2".to_string()),
        Some("not even base58 \u{2603}".to_string()),
        Some("twelve".to_string()),
    );
    assert!(matches!(r, Err(CliError::AmountNotNumeric)));
}
