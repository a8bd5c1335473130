use candid::Principal;
use ic_ledger_types::{AccountIdentifier, Subaccount, DEFAULT_SUBACCOUNT};
use q3x_backend::wallet::{TransferArgs, Wallet, WalletError, TRANSFER_FEE_E8S};

fn signer(name: &str) -> String {
    format!("enc-{name}")
}

fn wallet_with(signers: &[&str], threshold: u8) -> Wallet {
    Wallet::new_with_data(signers.iter().map(|s| signer(s)).collect(), threshold, vec![], vec![])
}

#[test]
fn default_wallet_is_empty() {
    let w = Wallet::default();
    assert!(w.get_signers().is_empty());
    assert_eq!(w.get_default_threshold(), 0);
    assert!(w.get_encrypted_messages_with_signers().is_empty());
    assert!(w.get_all_metadata().is_empty());
}

#[test]
fn new_with_data_keeps_what_it_is_given() {
    let w = Wallet::new_with_data(
        vec![signer("a"), signer("b"), signer("a")],
        2,
        vec![(vec![1], vec![signer("a")]), (vec![2], vec![]), (vec![1], vec![signer("b")])],
        vec![(vec![2], "note".to_string())],
    );
    let mut signers = w.get_signers();
    signers.sort();
    assert_eq!(signers, vec![signer("a"), signer("b")]);
    assert_eq!(w.get_default_threshold(), 2);
    let mut queue = w.get_encrypted_messages_with_signers();
    queue.sort();
    assert_eq!(queue, vec![(vec![1], vec![signer("b")]), (vec![2], vec![])]);
    assert_eq!(w.get_all_metadata(), vec![(vec![2], "note".to_string())]);
    assert!(w.has_encrypted_signer("enc-a"));
    assert!(!w.has_encrypted_signer("enc-c"));
}

#[test]
fn threshold_cannot_exceed_signers() {
    let mut w = wallet_with(&["a", "b"], 0);
    assert_eq!(w.set_default_threshold(3), Err(WalletError::NotEnoughSigners));
    assert_eq!(w.get_default_threshold(), 0);
    assert_eq!(w.set_default_threshold(2), Ok(()));
    assert_eq!(w.get_default_threshold(), 2);
    assert_eq!(w.set_default_threshold(0), Ok(()));
    assert_eq!(w.get_default_threshold(), 0);
}

#[test]
fn signers_are_a_set() {
    let mut w = Wallet::default();
    w.add_signer_principal_hex(signer("a"));
    w.add_signer_principal_hex(signer("a"));
    w.add_signer_principal_hex(signer("b"));
    assert_eq!(w.get_signers().len(), 2);
    assert_eq!(w.set_default_threshold(2), Ok(()));
}

#[test]
fn propose_rules() {
    let mut w = wallet_with(&["a", "b"], 2);
    assert_eq!(w.propose_encrypted(&signer("c"), vec![7]), Err(WalletError::InvalidSignature));
    assert_eq!(w.propose_encrypted(&signer("a"), vec![7]), Ok(()));
    assert_eq!(w.propose_encrypted(&signer("b"), vec![7]), Err(WalletError::MsgAlreadyQueued));
    assert_eq!(w.get_encrypted_messages_with_signers(), vec![(vec![7], vec![])]);
    assert_eq!(w.proposed_messages(), vec![vec![7]]);
}

#[test]
fn approvals_reach_the_threshold() {
    let mut w = wallet_with(&["a", "b", "c"], 2);
    assert_eq!(w.approve_encrypted(signer("a"), &vec![7]), Err(WalletError::MsgNotQueued));
    w.propose_encrypted(&signer("a"), vec![7]).unwrap();
    assert!(!w.can_sign(&vec![7]));
    assert_eq!(w.approve_encrypted(signer("a"), &vec![7]), Ok(1));
    assert!(!w.can_sign(&vec![7]));
    assert_eq!(w.approve_encrypted(signer("a"), &vec![7]), Err(WalletError::MsgAlreadySignedBySigner));
    assert_eq!(w.approve_encrypted(signer("z"), &vec![7]), Err(WalletError::InvalidSignature));
    assert_eq!(w.approve_encrypted(signer("c"), &vec![7]), Ok(2));
    assert!(w.can_sign(&vec![7]));
    assert!(!w.can_sign(&vec![8]));
    assert_eq!(w.get_encrypted_messages_with_signers(), vec![(vec![7], vec![signer("a"), signer("c")])]);
    assert_eq!(w.messages_ready_to_sign(), vec![vec![7]]);
}

#[test]
fn threshold_zero_signs_at_once() {
    let mut w = wallet_with(&["a"], 0);
    w.propose_encrypted(&signer("a"), vec![1]).unwrap();
    w.propose_encrypted(&signer("a"), vec![2]).unwrap();
    assert!(w.can_sign(&vec![1]));
    let mut ready = w.messages_ready_to_sign();
    ready.sort();
    assert_eq!(ready, vec![vec![1], vec![2]]);
}

#[test]
fn only_approved_messages_are_ready() {
    let mut w = wallet_with(&["a", "b"], 1);
    w.propose_encrypted(&signer("a"), vec![1]).unwrap();
    w.propose_encrypted(&signer("a"), vec![2]).unwrap();
    w.approve_encrypted(signer("b"), &vec![2]).unwrap();
    assert_eq!(w.messages_ready_to_sign(), vec![vec![2]]);
    let mut proposed = w.proposed_messages();
    proposed.sort();
    assert_eq!(proposed, vec![vec![1], vec![2]]);
}

#[test]
fn transfer_request_to_default_subaccount() {
    let w = Wallet::default();
    let to = vec![4u8];
    let req = w.transfer_request(&TransferArgs { amount: 12_345, to_principal: to.clone(), to_subaccount: None });
    assert_eq!(req.memo, 0);
    assert_eq!(req.amount_e8s, 12_345);
    assert_eq!(req.fee_e8s, TRANSFER_FEE_E8S);
    assert_eq!(req.fee_e8s, 10_000);
    assert!(req.from_subaccount.is_none());
    assert!(req.created_at_time.is_none());
    let expected = AccountIdentifier::new(&Principal::from_slice(&to), &DEFAULT_SUBACCOUNT);
    assert_eq!(req.to, expected.as_ref().to_vec());
    assert_eq!(req.to.len(), 32);
    assert_ne!(req.to, to);
}

#[test]
fn transfer_request_to_given_subaccount() {
    let w = Wallet::default();
    let to = vec![1u8, 2, 3];
    let sub = [7u8; 32];
    let req = w.transfer_request(&TransferArgs { amount: 1, to_principal: to.clone(), to_subaccount: Some(sub) });
    let expected = AccountIdentifier::new(&Principal::from_slice(&to), &Subaccount(sub));
    assert_eq!(req.to, expected.as_ref().to_vec());
    let default = w.transfer_request(&TransferArgs { amount: 1, to_principal: to, to_subaccount: None });
    assert_ne!(req.to, default.to);
}
