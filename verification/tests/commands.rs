use q3x_backend::codec::{find_separator, format_decimal, parse_decimal, starts_with};
use q3x_backend::command::{add_signer_message, parse_sign_command, remove_signer_message, set_threshold_message, transfer_message, SignCommand};

/// The anonymous principal: one byte, 4, whose text is `2vxsx-fae`.
const ANONYMOUS: [u8; 1] = [4];

/// The management canister's principal: no bytes, text `aaaaa-aa`.
const MANAGEMENT: [u8; 0] = [];

#[test]
fn decimal_parsing() {
    assert_eq!(parse_decimal(b"0", 255), Some(0));
    assert_eq!(parse_decimal(b"255", 255), Some(255));
    assert_eq!(parse_decimal(b"256", 255), None);
    assert_eq!(parse_decimal(b"007", 255), Some(7));
    assert_eq!(parse_decimal(b"+7", 255), Some(7));
    assert_eq!(parse_decimal(b"+", 255), None);
    assert_eq!(parse_decimal(b"", 255), None);
    assert_eq!(parse_decimal(b"-1", 255), None);
    assert_eq!(parse_decimal(b"1a", 255), None);
    assert_eq!(parse_decimal(b"18446744073709551615", u64::MAX), Some(u64::MAX));
    assert_eq!(parse_decimal(b"18446744073709551616", u64::MAX), None);
}

#[test]
fn decimal_formatting() {
    assert_eq!(format_decimal(0), b"0".to_vec());
    assert_eq!(format_decimal(42), b"42".to_vec());
    assert_eq!(format_decimal(u64::MAX), b"18446744073709551615".to_vec());
    for n in [0u64, 1, 9, 10, 99, 100, 12345, 1_000_000_000] {
        assert_eq!(parse_decimal(&format_decimal(n), u64::MAX), Some(n));
    }
}

#[test]
fn prefixes_and_separators() {
    assert!(starts_with(b"ADD_SIGNER::x", b"ADD_SIGNER::"));
    assert!(starts_with(b"abc", b""));
    assert!(!starts_with(b"AD", b"ADD"));
    assert!(!starts_with(b"ABD", b"ADD"));
    assert_eq!(find_separator(b"100::abc"), Some(3));
    assert_eq!(find_separator(b"::"), Some(0));
    assert_eq!(find_separator(b":a:"), None);
    assert_eq!(find_separator(b""), None);
    assert_eq!(find_separator(b"a:::b"), Some(1));
}

#[test]
fn add_signer_command() {
    match parse_sign_command(b"ADD_SIGNER::2vxsx-fae") {
        SignCommand::AddSigner(Some(p)) => assert_eq!(p, ANONYMOUS.to_vec()),
        _ => panic!("expected an add-signer command"),
    }
    match parse_sign_command(b"ADD_SIGNER::aaaaa-aa") {
        SignCommand::AddSigner(Some(p)) => assert_eq!(p, MANAGEMENT.to_vec()),
        _ => panic!("expected an add-signer command"),
    }
    assert!(matches!(parse_sign_command(b"ADD_SIGNER::not a principal"), SignCommand::AddSigner(None)));
    assert!(matches!(parse_sign_command(b"ADD_SIGNER::"), SignCommand::AddSigner(None)));
}

#[test]
fn remove_signer_command() {
    match parse_sign_command(b"REMOVE_SIGNER::2vxsx-fae") {
        SignCommand::RemoveSigner(Some(p)) => assert_eq!(p, ANONYMOUS.to_vec()),
        _ => panic!("expected a remove-signer command"),
    }
    assert!(matches!(parse_sign_command(b"REMOVE_SIGNER::2vxsx-fa"), SignCommand::RemoveSigner(None)));
}

#[test]
fn threshold_command() {
    assert!(matches!(parse_sign_command(b"SET_THRESHOLD::3"), SignCommand::SetThreshold(Some(3))));
    assert!(matches!(parse_sign_command(b"SET_THRESHOLD::255"), SignCommand::SetThreshold(Some(255))));
    assert!(matches!(parse_sign_command(b"SET_THRESHOLD::256"), SignCommand::SetThreshold(None)));
    assert!(matches!(parse_sign_command(b"SET_THRESHOLD::two"), SignCommand::SetThreshold(None)));
}

#[test]
fn transfer_command() {
    match parse_sign_command(b"TRANSFER::1000::2vxsx-fae") {
        SignCommand::Transfer(args) => {
            assert_eq!(args.amount, 1000);
            assert_eq!(args.to_principal, ANONYMOUS.to_vec());
            assert!(args.to_subaccount.is_none());
        },
        _ => panic!("expected a transfer"),
    }
    match parse_sign_command(b"TRANSFER::5::2vxsx-fae::ignored") {
        SignCommand::Transfer(args) => {
            assert_eq!(args.amount, 5);
            assert_eq!(args.to_principal, ANONYMOUS.to_vec());
        },
        _ => panic!("expected a transfer"),
    }
    assert!(matches!(parse_sign_command(b"TRANSFER::abc::2vxsx-fae"), SignCommand::MalformedTransfer));
    assert!(matches!(parse_sign_command(b"TRANSFER::1000"), SignCommand::MalformedTransfer));
    assert!(matches!(parse_sign_command(b"TRANSFER::1000::nope"), SignCommand::MalformedTransfer));
    assert!(matches!(parse_sign_command(b"TRANSFER::18446744073709551616::2vxsx-fae"), SignCommand::MalformedTransfer));
}

#[test]
fn plain_messages() {
    assert!(matches!(parse_sign_command(b"hello"), SignCommand::Plain));
    assert!(matches!(parse_sign_command(b""), SignCommand::Plain));
    assert!(matches!(parse_sign_command(&[0xff, 0xfe]), SignCommand::Plain));
    assert!(matches!(parse_sign_command(b"add_signer::2vxsx-fae"), SignCommand::Plain));
    assert!(parse_sign_command(b"hello").needs_signature());
    assert!(!parse_sign_command(b"SET_THRESHOLD::1").needs_signature());
    assert!(!parse_sign_command(b"ADD_SIGNER::bad").needs_signature());
}

#[test]
fn special_messages_are_hex_of_their_text() {
    assert_eq!(add_signer_message(&ANONYMOUS), hex::encode("ADD_SIGNER::2vxsx-fae"));
    assert_eq!(remove_signer_message(&ANONYMOUS), hex::encode("REMOVE_SIGNER::2vxsx-fae"));
    assert_eq!(set_threshold_message(7), hex::encode("SET_THRESHOLD::7"));
    assert_eq!(transfer_message(1000, &ANONYMOUS), hex::encode("TRANSFER::1000::2vxsx-fae"));
    assert_eq!(add_signer_message(&MANAGEMENT), hex::encode("ADD_SIGNER::aaaaa-aa"));
}

#[test]
fn special_messages_carry_their_command() {
    let principal = vec![1u8, 2, 3, 4, 5, 6, 7, 8, 9, 10];
    let bytes = |h: String| hex::decode(h).unwrap();
    match parse_sign_command(&bytes(add_signer_message(&principal))) {
        SignCommand::AddSigner(Some(p)) => assert_eq!(p, principal),
        _ => panic!("expected an add-signer command"),
    }
    match parse_sign_command(&bytes(remove_signer_message(&principal))) {
        SignCommand::RemoveSigner(Some(p)) => assert_eq!(p, principal),
        _ => panic!("expected a remove-signer command"),
    }
    assert!(matches!(parse_sign_command(&bytes(set_threshold_message(200))), SignCommand::SetThreshold(Some(200))));
    match parse_sign_command(&bytes(transfer_message(u64::MAX, &principal))) {
        SignCommand::Transfer(args) => {
            assert_eq!(args.amount, u64::MAX);
            assert_eq!(args.to_principal, principal);
        },
        _ => panic!("expected a transfer"),
    }
}
