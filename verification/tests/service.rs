use q3x_backend::command::SignCommand;
use q3x_backend::crypto::WalletPublicKey;
use q3x_backend::registry::{SignStep, WalletRegistry};
use q3x_backend::vetkey::{wallet_public_key_from_response, KeyResponse};

const PUBLIC_KEY_HEX: &str = "a9caf9ae8af0c7c7272f8a122133e2e0c7c0899b75e502bda9e109ca8193ded3ef042ed96db1125e1bdaad77d8cc60d917e122fe2501c45b96274f43705edf0cfd455bc66c3c060faa2fcd15486e76351edf91fecb993797273bbc8beaa47404";

fn key() -> Result<WalletPublicKey, String> {
    wallet_public_key_from_response(&Ok(KeyResponse { key_hex: PUBLIC_KEY_HEX.to_string() }))
}

fn no_key() -> Result<WalletPublicKey, String> {
    Err("PublicKeyError".to_string())
}

fn alice() -> Vec<u8> {
    vec![1]
}

fn bob() -> Vec<u8> {
    vec![2]
}

fn carol() -> Vec<u8> {
    vec![3]
}

/// A service holding wallet `w` with signers alice and bob and threshold 2.
fn service() -> WalletRegistry {
    let mut r = WalletRegistry::new();
    r.create_wallet("w".to_string(), &vec![alice(), bob()], 2, &key()).unwrap();
    r
}

#[test]
fn creating_wallets() {
    let mut r = service();
    assert!(r.wallet_exists("w"));
    assert!(!r.wallet_exists("v"));
    assert_eq!(r.get_wallets_for_principal(&alice()), vec!["w".to_string()]);
    assert_eq!(r.get_wallets_for_principal(&bob()), vec!["w".to_string()]);
    assert!(r.get_wallets_for_principal(&carol()).is_empty());
    let w = r.wallet("w").unwrap();
    assert_eq!(w.get_default_threshold(), 2);
    assert_eq!(w.get_signers().len(), 2);
    assert!(w.get_signers().iter().all(|s| s.len() > 0 && s.chars().all(|c| c.is_ascii_hexdigit())));
    assert!(w.has_signer(&alice(), "w", &key()));
    assert!(!w.has_signer(&carol(), "w", &key()));
    assert!(!w.has_signer(&alice(), "w", &no_key()));
    assert_eq!(r.create_wallet("w".to_string(), &vec![carol()], 0, &key()), Err("WalletAlreadyExists".to_string()));
}

#[test]
fn creation_errors() {
    let mut r = WalletRegistry::new();
    assert_eq!(
        r.create_wallet("v".to_string(), &vec![alice()], 2, &key()),
        Err("WalletSignersNotMatchThreshold".to_string())
    );
    assert!(!r.wallet_exists("v"));
    assert!(r.get_wallets_for_principal(&alice()).is_empty());
    assert_eq!(
        r.create_wallet("v".to_string(), &vec![alice()], 1, &no_key()),
        Err("Failed to encrypt signers: PublicKeyError".to_string())
    );
    assert!(!r.wallet_exists("v"));
}

#[test]
fn wallets_are_listed_per_signer() {
    let mut r = WalletRegistry::new();
    r.create_wallet("x".to_string(), &vec![alice()], 1, &key()).unwrap();
    r.create_wallet("y".to_string(), &vec![alice(), bob(), alice()], 1, &key()).unwrap();
    let mut ids = r.get_wallets_for_principal(&alice());
    ids.sort();
    assert_eq!(ids, vec!["x".to_string(), "y".to_string()]);
    assert_eq!(r.get_wallets_for_principal(&bob()), vec!["y".to_string()]);
    assert_eq!(r.wallet("y").unwrap().get_signers().len(), 2);
}

#[test]
fn proposing() {
    let mut r = service();
    let msg = hex::encode("hello");
    assert_eq!(r.propose("w", "zz", &alice(), &key()), Err("InvalidMessage".to_string()));
    assert_eq!(r.propose("v", &msg, &alice(), &key()), Err("WalletNotFound".to_string()));
    assert_eq!(r.propose("w", &msg, &carol(), &key()), Err("WalletInvalidSignature".to_string()));
    assert_eq!(r.propose("w", &msg, &alice(), &no_key()), Err("EncryptionError".to_string()));
    assert_eq!(r.propose("w", &msg, &alice(), &key()), Ok(()));
    assert_eq!(r.propose("w", &msg, &bob(), &key()), Err("WalletMsgAlreadyQueued".to_string()));
    let queue = r.wallet("w").unwrap().get_encrypted_messages_with_signers();
    assert_eq!(queue.len(), 1);
    assert!(queue[0].1.is_empty());
    assert_ne!(queue[0].0, b"hello".to_vec());
}

#[test]
fn approving() {
    let mut r = service();
    let msg = hex::encode("hello");
    assert_eq!(r.approve("w", &msg, &alice(), &key()), Err("WalletMsgNotQueued".to_string()));
    r.propose("w", &msg, &alice(), &key()).unwrap();
    assert_eq!(r.can_sign("w", &msg, &key()), false);
    assert_eq!(r.approve("w", &msg, &carol(), &key()), Err("WalletInvalidSignature".to_string()));
    assert_eq!(r.approve("w", &msg, &alice(), &key()), Ok(1));
    assert_eq!(r.approve("w", &msg, &alice(), &key()), Err("WalletMsgAlreadySignedBySigner".to_string()));
    assert_eq!(r.can_sign("w", &msg, &key()), false);
    assert_eq!(r.approve("w", &msg, &bob(), &key()), Ok(2));
    assert_eq!(r.can_sign("w", &msg, &key()), true);
    assert_eq!(r.can_sign("w", &msg, &no_key()), false);
    assert_eq!(r.can_sign("v", &msg, &key()), false);
    assert_eq!(r.approve("w", "x", &alice(), &key()), Err("InvalidMessage".to_string()));
    assert_eq!(r.approve("v", &msg, &alice(), &key()), Err("WalletNotFound".to_string()));
}

#[test]
fn signing_a_plain_message() {
    let mut r = service();
    let msg = hex::encode("pay the rent");
    assert!(matches!(r.sign_prepare("w", &msg, &key()), SignStep::Refused(e) if e == "WalletCannotSign"));
    r.propose("w", &msg, &alice(), &key()).unwrap();
    r.approve("w", &msg, &alice(), &key()).unwrap();
    assert!(matches!(r.sign_prepare("w", &msg, &key()), SignStep::Refused(e) if e == "WalletCannotSign"));
    r.approve("w", &msg, &bob(), &key()).unwrap();
    assert!(matches!(r.sign_prepare("w", "q", &key()), SignStep::Refused(e) if e == "InvalidMessage"));
    assert!(matches!(r.sign_prepare("w", &msg, &no_key()), SignStep::Refused(e) if e == "EncryptionError"));
    assert!(matches!(r.sign_prepare("v", &msg, &key()), SignStep::Refused(e) if e == "WalletNotFound"));
    match r.sign_prepare("w", &msg, &key()) {
        SignStep::Proceed(bytes, command) => {
            assert_eq!(bytes, b"pay the rent".to_vec());
            assert!(matches!(command, SignCommand::Plain));
            assert!(command.needs_signature());
            assert_eq!(r.sign_finish("w", &bytes, &alice(), &key()), Ok(()));
        },
        _ => panic!("the message has its approvals"),
    }
    assert!(r.wallet("w").unwrap().get_encrypted_messages_with_signers().is_empty());
    assert_eq!(r.can_sign("w", &msg, &key()), false);
    assert_eq!(r.sign_finish("v", &b"x".to_vec(), &alice(), &key()), Err("WalletNotFound".to_string()));
}

#[test]
fn signing_by_a_non_signer_keeps_the_message() {
    let mut r = WalletRegistry::new();
    r.create_wallet("w".to_string(), &vec![alice()], 0, &key()).unwrap();
    let msg = hex::encode("m");
    r.propose("w", &msg, &alice(), &key()).unwrap();
    assert_eq!(r.sign_finish("w", &b"m".to_vec(), &carol(), &key()), Ok(()));
    assert_eq!(r.wallet("w").unwrap().get_encrypted_messages_with_signers().len(), 1);
}

#[test]
fn signing_sets_the_threshold() {
    let mut r = service();
    let msg = r.propose_set_threshold("w", 1, &alice(), &key()).unwrap();
    assert_eq!(msg, hex::encode("SET_THRESHOLD::1"));
    r.approve("w", &msg, &alice(), &key()).unwrap();
    r.approve("w", &msg, &bob(), &key()).unwrap();
    match r.sign_prepare("w", &msg, &key()) {
        SignStep::Proceed(_, command) => {
            assert!(matches!(command, SignCommand::SetThreshold(Some(1))));
            assert!(!command.needs_signature());
        },
        _ => panic!("the message has its approvals"),
    }
    assert_eq!(r.wallet("w").unwrap().get_default_threshold(), 1);
}

#[test]
fn an_unreachable_threshold_is_refused() {
    let mut r = service();
    let msg = r.propose_set_threshold("w", 9, &alice(), &key()).unwrap();
    r.approve("w", &msg, &alice(), &key()).unwrap();
    r.approve("w", &msg, &bob(), &key()).unwrap();
    assert!(matches!(r.sign_prepare("w", &msg, &key()), SignStep::Refused(e) if e == "WalletSignersNotMatchThreshold"));
    assert_eq!(r.wallet("w").unwrap().get_default_threshold(), 2);
}

#[test]
fn signing_adds_a_signer() {
    let mut r = service();
    let msg = r.propose_add_signer("w", &carol(), &alice(), &key()).unwrap();
    assert_eq!(msg, hex::encode(format!("ADD_SIGNER::{}", candid::Principal::from_slice(&carol()).to_text())));
    r.approve("w", &msg, &alice(), &key()).unwrap();
    r.approve("w", &msg, &bob(), &key()).unwrap();
    match r.sign_prepare("w", &msg, &key()) {
        SignStep::Proceed(_, SignCommand::AddSigner(Some(p))) => {
            assert_eq!(p, carol());
            r.sign_add_signer("w", &p, &key());
        },
        _ => panic!("expected an add-signer command"),
    }
    assert!(r.wallet("w").unwrap().has_signer(&carol(), "w", &key()));
    assert_eq!(r.wallet("w").unwrap().get_signers().len(), 3);
    assert_eq!(r.get_wallets_for_principal(&carol()), vec!["w".to_string()]);
}

#[test]
fn signing_removes_a_signer() {
    let mut r = service();
    let msg = r.propose_remove_signer("w", &bob(), &alice(), &key()).unwrap();
    assert_eq!(msg, hex::encode(format!("REMOVE_SIGNER::{}", candid::Principal::from_slice(&bob()).to_text())));
    r.approve("w", &msg, &alice(), &key()).unwrap();
    r.approve("w", &msg, &bob(), &key()).unwrap();
    match r.sign_prepare("w", &msg, &key()) {
        SignStep::Proceed(_, SignCommand::RemoveSigner(Some(p))) => {
            assert_eq!(p, bob());
            r.sign_remove_signer("w", &p, &key());
        },
        _ => panic!("expected a remove-signer command"),
    }
    assert!(!r.wallet("w").unwrap().has_signer(&bob(), "w", &key()));
    assert!(r.get_wallets_for_principal(&bob()).is_empty());
    assert_eq!(r.get_wallets_for_principal(&alice()), vec!["w".to_string()]);
}

#[test]
fn signer_changes_need_the_key() {
    let mut r = service();
    r.sign_add_signer("w", &carol(), &no_key());
    assert_eq!(r.wallet("w").unwrap().get_signers().len(), 2);
    assert!(r.get_wallets_for_principal(&carol()).is_empty());
    r.sign_remove_signer("w", &bob(), &no_key());
    assert_eq!(r.wallet("w").unwrap().get_signers().len(), 2);
    r.sign_add_signer("v", &carol(), &key());
    assert!(r.get_wallets_for_principal(&carol()).is_empty());
}

#[test]
fn signing_a_transfer() {
    let mut r = service();
    let msg = r.propose_transfer("w", 250_000, &carol(), &alice(), &key()).unwrap();
    assert_eq!(msg, hex::encode(format!("TRANSFER::250000::{}", candid::Principal::from_slice(&carol()).to_text())));
    r.approve("w", &msg, &alice(), &key()).unwrap();
    r.approve("w", &msg, &bob(), &key()).unwrap();
    match r.sign_prepare("w", &msg, &key()) {
        SignStep::Proceed(_, SignCommand::Transfer(args)) => {
            assert_eq!(args.amount, 250_000);
            assert_eq!(args.to_principal, carol());
            let req = r.wallet("w").unwrap().transfer_request(&args);
            assert_eq!(req.amount_e8s, 250_000);
        },
        _ => panic!("expected a transfer"),
    }
}

#[test]
fn a_malformed_transfer_is_refused() {
    let mut r = service();
    let msg = hex::encode("TRANSFER::lots::nobody");
    r.propose("w", &msg, &alice(), &key()).unwrap();
    r.approve("w", &msg, &alice(), &key()).unwrap();
    r.approve("w", &msg, &bob(), &key()).unwrap();
    assert!(matches!(r.sign_prepare("w", &msg, &key()), SignStep::Refused(e) if e == "InvalidTransfer"));
}

#[test]
fn special_proposals_report_errors() {
    let mut r = service();
    assert_eq!(r.propose_set_threshold("v", 1, &alice(), &key()), Err("WalletNotFound".to_string()));
    assert_eq!(r.propose_add_signer("w", &carol(), &carol(), &key()), Err("WalletInvalidSignature".to_string()));
    assert_eq!(r.propose_transfer("w", 1, &carol(), &alice(), &no_key()), Err("EncryptionError".to_string()));
    r.propose_remove_signer("w", &bob(), &alice(), &key()).unwrap();
    assert_eq!(r.propose_remove_signer("w", &bob(), &bob(), &key()), Err("WalletMsgAlreadyQueued".to_string()));
}

#[test]
fn metadata_is_attached_once() {
    let mut r = service();
    let msg = hex::encode("hello");
    assert_eq!(r.add_metadata("w", &msg, "note".to_string(), &alice(), &key()), Err("Cannot add metadata: Message not found.".to_string()));
    r.propose("w", &msg, &alice(), &key()).unwrap();
    assert_eq!(r.add_metadata("w", &msg, "note".to_string(), &carol(), &key()), Err("Cannot add metadata: No signer.".to_string()));
    assert_eq!(r.add_metadata("w", &msg, "note".to_string(), &alice(), &no_key()), Err("EncryptionError".to_string()));
    assert_eq!(r.add_metadata("w", "!", "note".to_string(), &alice(), &key()), Err("InvalidMessage".to_string()));
    assert_eq!(r.add_metadata("v", &msg, "note".to_string(), &alice(), &key()), Err("WalletNotFound".to_string()));
    assert_eq!(r.add_metadata("w", &msg, "note".to_string(), &alice(), &key()), Ok(()));
    assert_eq!(
        r.add_metadata("w", &msg, "other".to_string(), &bob(), &key()),
        Err("Metadata already exists for this message".to_string())
    );
    let metadata = r.wallet("w").unwrap().get_all_metadata();
    assert_eq!(metadata.len(), 1);
    assert_ne!(metadata[0].1, "note");
}

#[test]
fn proposing_with_metadata() {
    let mut r = service();
    let msg = hex::encode("hello");
    assert_eq!(r.propose_with_metadata("w", &msg, "note".to_string(), &carol(), &key()), Err("WalletInvalidSignature".to_string()));
    assert_eq!(r.propose_with_metadata("w", &msg, "note".to_string(), &alice(), &key()), Ok(()));
    assert_eq!(r.wallet("w").unwrap().get_all_metadata().len(), 1);
    assert_eq!(
        r.propose_with_metadata("w", &msg, "note".to_string(), &alice(), &key()),
        Err("WalletMsgAlreadyQueued".to_string())
    );
}

#[test]
fn metadata_needs_the_decryption_key() {
    let mut r = service();
    let msg = hex::encode("hello");
    r.propose_with_metadata("w", &msg, "note".to_string(), &alice(), &key()).unwrap();
    assert_eq!(r.get_metadata("w", &msg, &alice(), &key(), &None), Err("MetadataNotFound".to_string()));
    assert_eq!(r.get_metadata("w", &msg, &alice(), &key(), &Some(Err("DeriveKeyError".to_string()))), Err("MetadataNotFound".to_string()));
    assert_eq!(r.get_metadata("w", &msg, &carol(), &key(), &None), Err("MetadataNotFound".to_string()));
    assert_eq!(r.get_metadata("w", "?", &alice(), &key(), &None), Err("InvalidMessage".to_string()));
    assert_eq!(r.get_metadata("v", &msg, &alice(), &key(), &None), Err("WalletNotFound".to_string()));
}

#[test]
fn queries_without_the_decryption_key_show_ciphertexts() {
    let mut r = service();
    let msg = hex::encode("hello");
    r.propose("w", &msg, &alice(), &key()).unwrap();
    r.approve("w", &msg, &bob(), &key()).unwrap();
    let stored = r.wallet("w").unwrap().get_encrypted_messages_with_signers();
    let proposed = r.get_proposed_messages("w", &alice(), &key(), &None).unwrap();
    assert_eq!(proposed, vec![hex::encode(&stored[0].0)]);
    assert!(r.get_messages_to_sign("w", &alice(), &key(), &None).unwrap().is_empty());
    let with_signers = r.get_messages_with_signers("w", &alice(), &key(), &None).unwrap();
    assert_eq!(with_signers, vec![(hex::encode(&stored[0].0), stored[0].1.clone())]);
    assert_eq!(r.get_proposed_messages("v", &alice(), &key(), &None), Err("WalletNotFound".to_string()));
    assert_eq!(r.get_messages_to_sign("v", &alice(), &key(), &None), Err("WalletNotFound".to_string()));
    assert_eq!(r.get_messages_with_signers("v", &alice(), &key(), &None), Err("WalletNotFound".to_string()));
    r.approve("w", &msg, &alice(), &key()).unwrap();
    assert_eq!(r.get_messages_to_sign("w", &carol(), &key(), &None).unwrap(), vec![hex::encode(&stored[0].0)]);
}

#[test]
fn reading_a_wallet() {
    let r = service();
    assert!(r.get_wallet("v", &alice(), &key(), &None).is_none());
    let w = r.get_wallet("w", &alice(), &key(), &None).unwrap();
    assert_eq!(w.get_default_threshold(), 2);
    assert_eq!(w.get_signers().len(), 2);
    let outsider = r.get_wallet("w", &carol(), &key(), &None).unwrap();
    let mut a = w.get_signers();
    let mut b = outsider.get_signers();
    a.sort();
    b.sort();
    assert_eq!(a, b);
    let failed = r.get_wallet("w", &alice(), &key(), &Some(Err("VetKeyError".to_string()))).unwrap();
    assert_eq!(failed.get_signers().len(), 2);
}

#[test]
fn adding_then_removing_a_signer_restores_the_signers() {
    let mut r = service();
    let mut before = r.wallet("w").unwrap().get_signers();
    before.sort();
    r.sign_add_signer("w", &carol(), &key());
    assert_eq!(r.wallet("w").unwrap().get_signers().len(), 3);
    r.sign_remove_signer("w", &carol(), &key());
    let mut after = r.wallet("w").unwrap().get_signers();
    after.sort();
    assert_eq!(before, after);
    assert!(r.get_wallets_for_principal(&carol()).is_empty());
    assert_eq!(r.wallet("w").unwrap().get_default_threshold(), 2);
}

#[test]
fn refused_requests_change_nothing() {
    let mut r = service();
    let msg = hex::encode("hello");
    r.propose("w", &msg, &alice(), &key()).unwrap();
    let before = r.wallet("w").unwrap().get_encrypted_messages_with_signers();
    assert!(r.propose("w", &msg, &bob(), &key()).is_err());
    assert!(r.approve("w", &msg, &carol(), &key()).is_err());
    assert!(r.add_metadata("w", &msg, "x".to_string(), &carol(), &key()).is_err());
    assert!(r.propose_with_metadata("w", &msg, "x".to_string(), &alice(), &key()).is_err());
    assert_eq!(r.wallet("w").unwrap().get_encrypted_messages_with_signers(), before);
    assert!(r.wallet("w").unwrap().get_all_metadata().is_empty());
}

#[test]
fn messages_are_checked_for_hex() {
    assert!(WalletRegistry::is_hex_message("00ff"));
    assert!(WalletRegistry::is_hex_message("AbCd"));
    assert!(WalletRegistry::is_hex_message(""));
    assert!(!WalletRegistry::is_hex_message("0"));
    assert!(!WalletRegistry::is_hex_message("zz"));
    let mut r = service();
    assert!(matches!(r.sign_prepare("w", "0", &key()), SignStep::Refused(e) if e == "InvalidMessage"));
}
