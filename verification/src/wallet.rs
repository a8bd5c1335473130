//! A multi-signature wallet: a set of signers, a signing threshold, a queue of
//! proposed messages with the signers who approved each, and metadata for
//! queued messages. Signers and messages are held encrypted (see `privacy`).

use crate::collections::{
    copy_bytes, copy_texts, entries_view_of, map_from_entries, texts_contain, ByteMap, TextSet,
};
use crate::codec::{hex_encode, lemma_hex_roundtrip};
use crate::crypto::{account_identifier, account_identifier_of, ibe_plaintext, max_principal_len, WalletPublicKey, WalletVetKey};
use crate::privacy::{
    decrypt_messages_with_vetkeys, decrypt_metadata_with_vetkeys, decrypt_wallet_data, decrypted_wallet, encrypt_metadata_with_vetkeys,
    encrypt_principal_and_message_with_vetkeys, encrypt_principals_with_vetkeys, first_error, message_decryption,
    message_encryption, metadata_decryption, metadata_encryption, principal_encryption, principal_reads_back, principals_fit, queued_message_decryption, text_reads_back,
    wallet_decryption_checks,
};
use vstd::utf8::encode_utf8;
use vstd::prelude::*;
use vstd::string::StringSliceAdditionalSpecFns;

verus! {

/// Why a wallet operation was refused.
#[derive(Debug, PartialEq, Eq, Structural, Clone, Copy)]
pub enum WalletError {
    /// The caller is not one of the wallet's signers.
    InvalidSignature,
    /// The message is already queued for signing.
    MsgAlreadyQueued,
    /// The caller has already approved the message.
    MsgAlreadySignedBySigner,
    /// The message is not in the queue.
    MsgNotQueued,
    /// The wallet has fewer signers than the requested threshold.
    NotEnoughSigners,
    /// Encrypting the caller or the message failed.
    EncryptionError,
}

/// A token transfer out of the wallet: an amount in e8s, the receiving
/// principal (its bytes) and, optionally, the receiver's subaccount.
pub struct TransferArgs {
    pub amount: u64,
    pub to_principal: Vec<u8>,
    pub to_subaccount: Option<[u8; 32]>,
}

/// The request that a transfer becomes at the ledger.
pub struct LedgerTransferRequest {
    pub memo: u64,
    pub amount_e8s: u64,
    pub fee_e8s: u64,
    pub from_subaccount: Option<[u8; 32]>,
    pub to: Vec<u8>,
    pub created_at_time: Option<u64>,
}

/// The fee that every ledger transfer pays, in e8s.
pub const TRANSFER_FEE_E8S: u64 = 10_000;

/// The abstract state of a wallet.
pub ghost struct WalletView {
    /// The encrypted signers.
    pub signers: Set<Seq<char>>,
    /// How many approvals a message needs before it can be signed.
    pub threshold: u8,
    /// Each queued (encrypted) message with the encrypted signers who
    /// approved it, in order of approval.
    pub queue: Map<Seq<u8>, Seq<Seq<char>>>,
    /// The encrypted metadata of queued messages.
    pub metadata: Map<Seq<u8>, Seq<char>>,
}

/// A multi-signature wallet.
pub struct Wallet {
    signers: TextSet,
    threshold: u8,
    message_queue: ByteMap<Vec<String>>,
    metadata: ByteMap<String>,
}

impl View for Wallet {
    type V = WalletView;

    closed spec fn view(&self) -> WalletView {
        WalletView {
            signers: self.signers@,
            threshold: self.threshold,
            queue: self.message_queue@,
            metadata: self.metadata@,
        }
    }
}

/// Whether a message is queued with at least `threshold` approvals.
pub open spec fn signable(w: WalletView, message: Seq<u8>) -> bool {
    w.queue.contains_key(message) && w.queue[message].len() >= w.threshold
}

/// Proposing an (encrypted) message as an (encrypted) signer: the outcome and
/// the wallet after it.
pub open spec fn propose_step(w: WalletView, signer: Seq<char>, message: Seq<u8>) -> (Result<(), WalletError>, WalletView) {
    if !w.signers.contains(signer) {
        (Err(WalletError::InvalidSignature), w)
    } else if w.queue.contains_key(message) {
        (Err(WalletError::MsgAlreadyQueued), w)
    } else {
        (Ok(()), WalletView { queue: w.queue.insert(message, Seq::empty()), ..w })
    }
}

/// Approving an (encrypted) message as an (encrypted) signer: the outcome (the
/// number of approvals, kept in a byte) and the wallet after it.
pub open spec fn approve_step(w: WalletView, signer: Seq<char>, message: Seq<u8>) -> (Result<u8, WalletError>, WalletView) {
    if !w.queue.contains_key(message) {
        (Err(WalletError::MsgNotQueued), w)
    } else if !w.signers.contains(signer) {
        (Err(WalletError::InvalidSignature), w)
    } else if w.queue[message].contains(signer) {
        (Err(WalletError::MsgAlreadySignedBySigner), w)
    } else {
        let approvals = w.queue[message].push(signer);
        (Ok((approvals.len() % 256) as u8), WalletView { queue: w.queue.insert(message, approvals), ..w })
    }
}

/// Attaching (encrypted) metadata to an (encrypted) message as an (encrypted)
/// signer, given the outcome of encrypting the metadata.
pub open spec fn add_metadata_step(w: WalletView, signer: Seq<char>, message: Seq<u8>, metadata: Result<Seq<char>, Seq<char>>) -> (Result<(), Seq<char>>, WalletView) {
    if !w.signers.contains(signer) {
        (Err("Cannot add metadata: No signer."@), w)
    } else if !w.queue.contains_key(message) {
        (Err("Cannot add metadata: Message not found."@), w)
    } else if w.metadata.contains_key(message) {
        (Err("Metadata already exists for this message"@), w)
    } else {
        match metadata {
            Ok(m) => (Ok(()), WalletView { metadata: w.metadata.insert(message, m), ..w }),
            Err(_) => (Err("EncryptionError"@), w),
        }
    }
}

/// Removing an (encrypted) message and its metadata as an (encrypted) signer.
pub open spec fn remove_step(w: WalletView, signer: Seq<char>, message: Seq<u8>) -> (Result<(), Seq<char>>, WalletView) {
    if !w.signers.contains(signer) {
        (Err("CallerNotSigner"@), w)
    } else {
        (Ok(()), WalletView { queue: w.queue.remove(message), metadata: w.metadata.remove(message), ..w })
    }
}

/// The encrypted form of the caller and of a message, given the outcome of
/// fetching the wallet's public key: `None` when either cannot be had.
pub open spec fn encrypted_call(public_key: Result<Seq<u8>, ()>, wallet_id: Seq<u8>, caller: Seq<u8>, message: Seq<u8>) -> Option<(Seq<char>, Seq<u8>)> {
    match public_key {
        Ok(k) => match principal_encryption(k, wallet_id, caller) {
            Ok(signer) => Some((signer, message_encryption(k, wallet_id, message))),
            Err(_) => None,
        },
        Err(_) => None,
    }
}

/// The view of the outcome of fetching a public key.
pub open spec fn key_outcome(public_key: &Result<WalletPublicKey, String>) -> Result<Seq<u8>, ()> {
    match public_key {
        Ok(k) => Ok(k@),
        Err(_) => Err(()),
    }
}


/// The view of the outcome of fetching a decryption key, if it was fetched.
pub open spec fn vetkey_outcome(decryption_key: &Option<Result<WalletVetKey, String>>) -> Option<Result<Seq<u8>, ()>> {
    match decryption_key {
        Some(Ok(k)) => Some(Ok(k@)),
        Some(Err(_)) => Some(Err(())),
        None => None,
    }
}

/// Whether a caller is owed the plaintexts of messages: it is a signer, the
/// decryption key was had, and every message decrypts under it.
pub open spec fn plaintexts_owed(messages: Seq<Seq<u8>>, authorized: bool, decryption_key: Option<Result<Seq<u8>, ()>>) -> bool {
    &&& authorized
    &&& decryption_key matches Some(Ok(k))
    &&& forall|i: int| 0 <= i < messages.len() ==> (#[trigger] ibe_plaintext(decryption_key->Some_0->Ok_0, messages[i])) is Some
}

/// Whether every message decrypts under a VetKey.
pub open spec fn all_decrypt(vetkey: Seq<u8>, messages: Seq<Seq<u8>>) -> bool {
    forall|i: int| 0 <= i < messages.len() ==> (#[trigger] ibe_plaintext(vetkey, messages[i])) is Some
}

/// The messages handed to a caller: their plaintexts when the caller is a
/// signer, the decryption key was had and every message decrypts; otherwise
/// the stored (encrypted) messages.
pub open spec fn delivered_messages(messages: Seq<Seq<u8>>, authorized: bool, decryption_key: Option<Result<Seq<u8>, ()>>) -> Seq<Seq<u8>> {
    match decryption_key {
        Some(Ok(k)) => if authorized && all_decrypt(k, messages) {
            messages.map_values(|m: Seq<u8>| ibe_plaintext(k, m)->0)
        } else {
            messages
        },
        _ => messages,
    }
}


/// Whether a list of entries enumerates a map: each key once, with its value.
pub open spec fn describes<V>(entries: Seq<(Seq<u8>, V)>, m: Map<Seq<u8>, V>) -> bool {
    &&& forall|i: int| 0 <= i < entries.len() ==> m.contains_key(#[trigger] entries[i].0) && m[entries[i].0] == entries[i].1
    &&& forall|k: Seq<u8>| #[trigger] m.contains_key(k) ==> exists|i: int| 0 <= i < entries.len() && entries[i].0 == k
    &&& forall|i: int, j: int| 0 <= i < j < entries.len() ==> #[trigger] entries[i].0 != #[trigger] entries[j].0
}

/// The view of a result with a text error.
pub open spec fn text_result(r: Result<(), String>) -> Result<(), Seq<char>> {
    match r {
        Ok(()) => Ok(()),
        Err(e) => Err(e@),
    }
}

fn text(s: &str) -> (t: String)
    ensures
        t@ == s@,
{
    s.to_owned()
}

impl Wallet {
    /// The wallet's internal lists hold no repeated key or signer.
    pub closed spec fn wf(&self) -> bool {
        self.signers.wf() && self.message_queue.wf() && self.metadata.wf()
    }

    /// The signers, in the order in which they are kept.
    pub closed spec fn signers_list(&self) -> Seq<Seq<char>> {
        self.signers.items_view()
    }

    /// The queue, entry by entry, in the order in which it is kept.
    pub closed spec fn queue_list(&self) -> Seq<(Seq<u8>, Seq<Seq<char>>)> {
        self.message_queue.entries_view()
    }

    /// The metadata, entry by entry, in the order in which it is kept.
    pub closed spec fn metadata_list(&self) -> Seq<(Seq<u8>, Seq<char>)> {
        self.metadata.entries_view()
    }

    /// The signer list enumerates the signers once each, the queue list the
    /// queue and the metadata list the metadata.
    pub proof fn lemma_lists(&self)
        requires
            self.wf(),
        ensures
            self.signers_list().no_duplicates(),
            self.signers_list().to_set() == self@.signers,
            self@.signers.finite(),
            self@.signers.len() == self.signers_list().len(),
            forall|i: int| 0 <= i < self.queue_list().len() ==>
                self@.queue.contains_key(#[trigger] self.queue_list()[i].0) && self@.queue[self.queue_list()[i].0] == self.queue_list()[i].1,
            forall|k: Seq<u8>| #[trigger] self@.queue.contains_key(k) ==> exists|i: int| 0 <= i < self.queue_list().len() && self.queue_list()[i].0 == k,
            forall|i: int, j: int| 0 <= i < j < self.queue_list().len() ==> #[trigger] self.queue_list()[i].0 != #[trigger] self.queue_list()[j].0,
            forall|i: int| 0 <= i < self.metadata_list().len() ==>
                self@.metadata.contains_key(#[trigger] self.metadata_list()[i].0) && self@.metadata[self.metadata_list()[i].0] == self.metadata_list()[i].1,
            forall|k: Seq<u8>| #[trigger] self@.metadata.contains_key(k) ==> exists|i: int| 0 <= i < self.metadata_list().len() && self.metadata_list()[i].0 == k,
            forall|i: int, j: int| 0 <= i < j < self.metadata_list().len() ==> #[trigger] self.metadata_list()[i].0 != #[trigger] self.metadata_list()[j].0,
    {
        self.signers.lemma_items();
        self.message_queue.lemma_entries();
        self.metadata.lemma_entries();
        assert forall|k: Seq<u8>| #[trigger] self@.queue.contains_key(k) implies
            exists|i: int| 0 <= i < self.queue_list().len() && self.queue_list()[i].0 == k by {
            assert(self.message_queue@.contains_key(k));
            let i = choose|i: int| 0 <= i < self.message_queue.entries_view().len() && self.message_queue.entries_view()[i].0 == k;
            assert(self.queue_list()[i].0 == k);
        }
        assert forall|k: Seq<u8>| #[trigger] self@.metadata.contains_key(k) implies
            exists|i: int| 0 <= i < self.metadata_list().len() && self.metadata_list()[i].0 == k by {
            assert(self.metadata@.contains_key(k));
            let i = choose|i: int| 0 <= i < self.metadata.entries_view().len() && self.metadata.entries_view()[i].0 == k;
            assert(self.metadata_list()[i].0 == k);
        }
    }

    /// A wallet with the given signers, threshold, queue and metadata; entries
    /// are taken in order, a later entry for a message replacing an earlier one.
    pub fn new_with_data(
        signers: Vec<String>,
        threshold: u8,
        message_queue: Vec<(Vec<u8>, Vec<String>)>,
        metadata: Vec<(Vec<u8>, String)>,
    ) -> (w: Self)
        ensures
            w.wf(),
            w@.signers == signers.deep_view().to_set(),
            w@.threshold == threshold,
            w@.queue == map_from_entries(message_queue@),
            w@.metadata == map_from_entries(metadata@),
    {
        Wallet {
            signers: TextSet::from_vec(signers),
            threshold,
            message_queue: ByteMap::from_entries(message_queue),
            metadata: ByteMap::from_entries(metadata),
        }
    }

    /// A copy of the wallet.
    pub fn duplicate(&self) -> (w: Self)
        requires
            self.wf(),
        ensures
            w.wf(),
            w@ == self@,
            w.signers_list() == self.signers_list(),
            w.queue_list() == self.queue_list(),
            w.metadata_list() == self.metadata_list(),
    {
        Wallet {
            signers: self.signers.duplicate(),
            threshold: self.threshold,
            message_queue: self.message_queue.duplicate(),
            metadata: self.metadata.duplicate(),
        }
    }

    /// Adds an (encrypted) signer.
    pub fn add_signer_principal_hex(&mut self, signer: String)
        requires
            old(self).wf(),
        ensures
            final(self).wf(),
            final(self)@ == (WalletView { signers: old(self)@.signers.insert(signer@), ..old(self)@ }),
    {
        self.signers.insert(signer);
    }

    /// Adds a signer, given by its principal's bytes, encrypted under the
    /// wallet's public key (the outcome of fetching it is `public_key`).
    pub fn add_signer(&mut self, signer: &[u8], wallet_id: &str, public_key: &Result<WalletPublicKey, String>) -> (r: Result<(), String>)
        requires
            old(self).wf(),
            signer@.len() <= max_principal_len(),
        ensures
            final(self).wf(),
            match public_key {
                Err(e) => r matches Err(x) && x@ == e@ && final(self)@ == old(self)@,
                Ok(k) => match principal_encryption(k@, wallet_id.spec_bytes(), signer@) {
                    Ok(s) => r is Ok && final(self)@ == (WalletView { signers: old(self)@.signers.insert(s), ..old(self)@ }),
                    Err(t) => r matches Err(x) && x@ == t && final(self)@ == old(self)@,
                },
            },
            r is Ok ==> principal_reads_back(signer@),
    {
        let mut one: Vec<Vec<u8>> = Vec::new();
        one.push(vstd::slice::slice_to_vec(signer));
        assert(principals_fit(one@));
        let encrypted = match encrypt_principals_with_vetkeys(&one, wallet_id, public_key) {
            Ok(v) => v,
            Err(e) => return Err(e),
        };
        if encrypted.len() == 0 {
            return Err(text("Failed to encrypt signer"));
        }
        let encrypted_hex = encrypted[0].clone();
        self.signers.insert(encrypted_hex);
        Ok(())
    }

    /// Removes a signer, given by its principal's bytes, encrypted under the
    /// wallet's public key (the outcome of fetching it is `public_key`).
    pub fn remove_signer(&mut self, signer: &[u8], wallet_id: &str, public_key: &Result<WalletPublicKey, String>) -> (r: Result<(), String>)
        requires
            old(self).wf(),
            signer@.len() <= max_principal_len(),
        ensures
            final(self).wf(),
            match public_key {
                Err(e) => r matches Err(x) && x@ == e@ && final(self)@ == old(self)@,
                Ok(k) => match principal_encryption(k@, wallet_id.spec_bytes(), signer@) {
                    Ok(s) => r is Ok && final(self)@ == (WalletView { signers: old(self)@.signers.remove(s), ..old(self)@ }),
                    Err(t) => r matches Err(x) && x@ == t && final(self)@ == old(self)@,
                },
            },
    {
        let mut one: Vec<Vec<u8>> = Vec::new();
        one.push(vstd::slice::slice_to_vec(signer));
        assert(principals_fit(one@));
        let encrypted = match encrypt_principals_with_vetkeys(&one, wallet_id, public_key) {
            Ok(v) => v,
            Err(e) => return Err(e),
        };
        if encrypted.len() == 0 {
            return Err(text("Failed to encrypt signer"));
        }
        self.signers.remove(&encrypted[0]);
        Ok(())
    }

    /// The (encrypted) signers, each once.
    pub fn get_signers(&self) -> (v: Vec<String>)
        requires
            self.wf(),
        ensures
            v.deep_view() == self.signers_list(),
            v.deep_view().no_duplicates(),
            v.deep_view().to_set() == self@.signers,
    {
        proof {
            self.lemma_lists();
        }
        self.signers.to_vec()
    }

    /// Sets the signing threshold; refused when the wallet has fewer signers.
    pub fn set_default_threshold(&mut self, threshold: u8) -> (r: Result<(), WalletError>)
        requires
            old(self).wf(),
        ensures
            final(self).wf(),
            (r is Err) <==> old(self)@.signers.len() < threshold,
            r matches Err(e) ==> e == WalletError::NotEnoughSigners && final(self)@ == old(self)@,
            r is Ok ==> final(self)@ == (WalletView { threshold, ..old(self)@ }),
    {
        if self.signers.len() < threshold as usize {
            return Err(WalletError::NotEnoughSigners);
        }
        self.threshold = threshold;
        Ok(())
    }

    /// The ledger request for a transfer out of the wallet: memo 0, the
    /// standard fee, from the default subaccount, to the receiver's account
    /// (its default subaccount when none is given).
    pub fn transfer_request(&self, args: &TransferArgs) -> (req: LedgerTransferRequest)
        requires
            args.to_principal@.len() <= max_principal_len(),
        ensures
            req.memo == 0,
            req.amount_e8s == args.amount,
            req.fee_e8s == TRANSFER_FEE_E8S,
            req.from_subaccount is None,
            req.created_at_time is None,
            req.to@ == account_identifier_of(args.to_principal@, match args.to_subaccount {
                Some(s) => s@,
                None => Seq::new(32, |i: int| 0u8),
            }),
    {
        let to_subaccount: [u8; 32] = match args.to_subaccount {
            Some(s) => s,
            None => [0u8; 32],
        };
        assert(to_subaccount@ =~= match args.to_subaccount {
            Some(s) => s@,
            None => Seq::new(32, |i: int| 0u8),
        });
        LedgerTransferRequest {
            memo: 0,
            amount_e8s: args.amount,
            fee_e8s: TRANSFER_FEE_E8S,
            from_subaccount: None,
            to: account_identifier(args.to_principal.as_slice(), &to_subaccount),
            created_at_time: None,
        }
    }

    /// Whether the caller (its principal's bytes), encrypted under the
    /// wallet's public key, is a signer; false when it cannot be encrypted.
    pub fn has_signer(&self, caller: &[u8], wallet_id: &str, public_key: &Result<WalletPublicKey, String>) -> (r: bool)
        requires
            self.wf(),
            caller@.len() <= max_principal_len(),
        ensures
            r == match public_key {
                Ok(k) => match principal_encryption(k@, wallet_id.spec_bytes(), caller@) {
                    Ok(s) => self@.signers.contains(s),
                    Err(_) => false,
                },
                Err(_) => false,
            },
    {
        let mut one: Vec<Vec<u8>> = Vec::new();
        one.push(vstd::slice::slice_to_vec(caller));
        assert(principals_fit(one@));
        if let Ok(encrypted) = encrypt_principals_with_vetkeys(&one, wallet_id, public_key) {
            if encrypted.len() > 0 {
                return self.signers.contains(&encrypted[0]);
            }
        }
        false
    }

    /// Whether an encrypted signer is one of the wallet's signers.
    pub fn has_encrypted_signer(&self, encrypted_signer: &str) -> (r: bool)
        ensures
            r == self@.signers.contains(encrypted_signer@),
    {
        let s = text(encrypted_signer);
        self.signers.contains(&s)
    }

    /// The signing threshold.
    pub fn get_default_threshold(&self) -> (t: u8)
        ensures
            t == self@.threshold,
    {
        self.threshold
    }

    /// Queues an encrypted message proposed by an encrypted signer.
    pub fn propose_encrypted(&mut self, encrypted_principal: &String, encrypted_message: Vec<u8>) -> (r: Result<(), WalletError>)
        requires
            old(self).wf(),
        ensures
            final(self).wf(),
            (r, final(self)@) == propose_step(old(self)@, encrypted_principal@, encrypted_message@),
    {
        if !self.signers.contains(encrypted_principal) {
            return Err(WalletError::InvalidSignature);
        }
        if self.message_queue.contains_key(encrypted_message.as_slice()) {
            return Err(WalletError::MsgAlreadyQueued);
        }
        let ghost before = self@;
        let ghost m = encrypted_message@;
        let empty: Vec<String> = Vec::new();
        assert(empty.deep_view() =~= Seq::<Seq<char>>::empty());
        self.message_queue.insert(encrypted_message, empty);
        Ok(())
    }

    /// Proposes a message as the caller (its principal's bytes): both are
    /// encrypted under the wallet's public key (the outcome of fetching it is
    /// `public_key`) and the encrypted message is queued.
    pub fn propose_message(&mut self, msg: Vec<u8>, caller: &[u8], wallet_id: &str, public_key: &Result<WalletPublicKey, String>) -> (r: Result<(), WalletError>)
        requires
            old(self).wf(),
            caller@.len() <= max_principal_len(),
        ensures
            final(self).wf(),
            (r, final(self)@) == match encrypted_call(key_outcome(public_key), wallet_id.spec_bytes(), caller@, msg@) {
                Some((signer, message)) => propose_step(old(self)@, signer, message),
                None => (Err(WalletError::EncryptionError), old(self)@),
            },
    {
        let (encrypted_principal, encrypted_message) = match encrypt_principal_and_message_with_vetkeys(caller, &msg, wallet_id, public_key) {
            Ok(pair) => pair,
            Err(_) => return Err(WalletError::EncryptionError),
        };
        self.propose_encrypted(&encrypted_principal, encrypted_message)
    }

    /// Whether an encrypted message is queued with at least `threshold`
    /// approvals.
    pub fn can_sign(&self, encrypted_msg: &Vec<u8>) -> (r: bool)
        requires
            self.wf(),
        ensures
            r == signable(self@, encrypted_msg@),
    {
        match self.message_queue.get(encrypted_msg.as_slice()) {
            None => false,
            Some(approvals) => approvals.len() >= self.threshold as usize,
        }
    }

    /// Records an encrypted signer's approval of an encrypted message.
    pub fn approve_encrypted(&mut self, encrypted_principal: String, encrypted_message: &Vec<u8>) -> (r: Result<u8, WalletError>)
        requires
            old(self).wf(),
        ensures
            final(self).wf(),
            (r, final(self)@) == approve_step(old(self)@, encrypted_principal@, encrypted_message@),
    {
        let current = match self.message_queue.get(encrypted_message.as_slice()) {
            None => return Err(WalletError::MsgNotQueued),
            Some(q) => q,
        };
        if !self.signers.contains(&encrypted_principal) {
            return Err(WalletError::InvalidSignature);
        }
        if texts_contain(current, &encrypted_principal) {
            return Err(WalletError::MsgAlreadySignedBySigner);
        }
        let mut queue = copy_texts(current);
        let ghost p = encrypted_principal@;
        queue.push(encrypted_principal);
        let count = queue.len();
        proof {
            assert(queue.deep_view() =~= old(self)@.queue[encrypted_message@].push(p));
        }
        self.message_queue.insert(copy_bytes(encrypted_message), queue);
        Ok((count % 256) as u8)
    }

    /// Approves a message as the caller (its principal's bytes): both are
    /// encrypted under the wallet's public key (the outcome of fetching it is
    /// `public_key`) and the approval is recorded; the result is the number of
    /// approvals, kept in a byte.
    pub fn approve(&mut self, msg: Vec<u8>, caller: &[u8], wallet_id: &str, public_key: &Result<WalletPublicKey, String>) -> (r: Result<u8, WalletError>)
        requires
            old(self).wf(),
            caller@.len() <= max_principal_len(),
        ensures
            final(self).wf(),
            (r, final(self)@) == match encrypted_call(key_outcome(public_key), wallet_id.spec_bytes(), caller@, msg@) {
                Some((signer, message)) => approve_step(old(self)@, signer, message),
                None => (Err(WalletError::EncryptionError), old(self)@),
            },
    {
        let (encrypted_principal, encrypted_message) = match encrypt_principal_and_message_with_vetkeys(caller, &msg, wallet_id, public_key) {
            Ok(pair) => pair,
            Err(_) => return Err(WalletError::EncryptionError),
        };
        self.approve_encrypted(encrypted_principal, &encrypted_message)
    }

    /// The queued messages that can be signed, in queue order.
    pub fn messages_ready_to_sign(&self) -> (v: Vec<Vec<u8>>)
        requires
            self.wf(),
        ensures
            v@.map_values(|m: Vec<u8>| m@) == self.queue_list().map_values(|e: (Seq<u8>, Seq<Seq<char>>)| e.0).filter(|m: Seq<u8>| signable(self@, m)),
    {
        let ghost keys = self.queue_list().map_values(|e: (Seq<u8>, Seq<Seq<char>>)| e.0);
        let ghost pred = |m: Seq<u8>| signable(self@, m);
        let mut v: Vec<Vec<u8>> = Vec::new();
        let mut i: usize = 0;
        proof {
            self.lemma_lists();
            self.message_queue.lemma_entries();
        }
        while i < self.message_queue.len()
            invariant
                self.wf(),
                i <= self.queue_list().len(),
                self.queue_list().len() == self.message_queue.spec_len(),
                keys == self.queue_list().map_values(|e: (Seq<u8>, Seq<Seq<char>>)| e.0),
                pred == (|m: Seq<u8>| signable(self@, m)),
                forall|j: int| 0 <= j < self.queue_list().len() ==>
                    self@.queue.contains_key(#[trigger] self.queue_list()[j].0) && self@.queue[self.queue_list()[j].0] == self.queue_list()[j].1,
                v@.map_values(|m: Vec<u8>| m@) == keys.take(i as int).filter(pred),
            decreases self.queue_list().len() - i,
        {
            let key = self.message_queue.key_at(i);
            let ghost before = v@.map_values(|m: Vec<u8>| m@);
            proof {
                reveal_with_fuel(Seq::filter, 1);
                assert(keys.take(i as int + 1).drop_last() =~= keys.take(i as int));
                assert(keys.take(i as int + 1).last() == key@);
            }
            if self.can_sign(key) {
                v.push(copy_bytes(key));
                assert(v@.map_values(|m: Vec<u8>| m@) =~= before.push(key@));
            } else {
                assert(v@.map_values(|m: Vec<u8>| m@) =~= before);
            }
            i = i + 1;
        }
        assert(keys.take(i as int) =~= keys);
        v
    }

    /// The queue's messages with their approvers, entry by entry.
    pub fn get_encrypted_messages_with_signers(&self) -> (v: Vec<(Vec<u8>, Vec<String>)>)
        ensures
            entries_view_of(v@) == self.queue_list(),
    {
        self.message_queue.to_vec()
    }

    /// The metadata, entry by entry.
    pub fn get_all_metadata(&self) -> (v: Vec<(Vec<u8>, String)>)
        ensures
            entries_view_of(v@) == self.metadata_list(),
    {
        self.metadata.to_vec()
    }

    /// The queued messages, in queue order.
    pub fn proposed_messages(&self) -> (v: Vec<Vec<u8>>)
        requires
            self.wf(),
        ensures
            v@.map_values(|m: Vec<u8>| m@) == self.queue_list().map_values(|e: (Seq<u8>, Seq<Seq<char>>)| e.0),
    {
        proof {
            self.message_queue.lemma_entries();
        }
        let mut v: Vec<Vec<u8>> = Vec::new();
        let mut i: usize = 0;
        while i < self.message_queue.len()
            invariant
                i <= self.queue_list().len(),
                self.queue_list().len() == self.message_queue.spec_len(),
                v@.len() == i,
                forall|j: int| 0 <= j < i ==> (#[trigger] v@[j])@ == self.queue_list()[j].0,
            decreases self.queue_list().len() - i,
        {
            v.push(copy_bytes(self.message_queue.key_at(i)));
            i = i + 1;
        }
        assert(v@.map_values(|m: Vec<u8>| m@) =~= self.queue_list().map_values(|e: (Seq<u8>, Seq<Seq<char>>)| e.0));
        v
    }

    /// The messages that can be signed, decrypted for a caller who is a
    /// signer (see `delivered_messages`); `authorization` is the outcome of
    /// fetching the wallet's public key, `decryption_key` that of fetching its
    /// decryption key, if it was fetched.
    pub fn get_messages_to_sign(&self, caller: &[u8], wallet_id: &str, public_key: &Result<WalletPublicKey, String>, decryption_key: &Option<Result<WalletVetKey, String>>) -> (r: Result<Vec<Vec<u8>>, String>)
        requires
            self.wf(),
            caller@.len() <= max_principal_len(),
        ensures
            r matches Ok(v) && v@.map_values(|m: Vec<u8>| m@) == delivered_messages(
                self.queue_list().map_values(|e: (Seq<u8>, Seq<Seq<char>>)| e.0).filter(|m: Seq<u8>| signable(self@, m)),
                self.caller_is_signer(caller@, wallet_id.spec_bytes(), key_outcome(public_key)),
                vetkey_outcome(decryption_key),
            ),
            ({
                let ready = self.queue_list().map_values(|e: (Seq<u8>, Seq<Seq<char>>)| e.0).filter(|m: Seq<u8>| signable(self@, m));
                plaintexts_owed(ready, self.caller_is_signer(caller@, wallet_id.spec_bytes(), key_outcome(public_key)), vetkey_outcome(decryption_key))
                    ==> (r matches Ok(v) && v@.map_values(|m: Vec<u8>| m@) == ready.map_values(|m: Seq<u8>| ibe_plaintext(vetkey_outcome(decryption_key)->Some_0->Ok_0, m)->0))
            }),
    {
        let messages = self.messages_ready_to_sign();
        let authorized = self.has_signer(caller, wallet_id, public_key);
        Ok(deliver_messages(messages, authorized, decryption_key))
    }

    /// The queued messages, decrypted for a caller who is a signer (see
    /// `delivered_messages`).
    pub fn get_proposed_messages(&self, caller: &[u8], wallet_id: &str, public_key: &Result<WalletPublicKey, String>, decryption_key: &Option<Result<WalletVetKey, String>>) -> (r: Result<Vec<Vec<u8>>, String>)
        requires
            self.wf(),
            caller@.len() <= max_principal_len(),
        ensures
            r matches Ok(v) && v@.map_values(|m: Vec<u8>| m@) == delivered_messages(
                self.queue_list().map_values(|e: (Seq<u8>, Seq<Seq<char>>)| e.0),
                self.caller_is_signer(caller@, wallet_id.spec_bytes(), key_outcome(public_key)),
                vetkey_outcome(decryption_key),
            ),
            ({
                let queued = self.queue_list().map_values(|e: (Seq<u8>, Seq<Seq<char>>)| e.0);
                plaintexts_owed(queued, self.caller_is_signer(caller@, wallet_id.spec_bytes(), key_outcome(public_key)), vetkey_outcome(decryption_key))
                    ==> (r matches Ok(v) && v@.map_values(|m: Vec<u8>| m@) == queued.map_values(|m: Seq<u8>| ibe_plaintext(vetkey_outcome(decryption_key)->Some_0->Ok_0, m)->0))
            }),
    {
        let messages = self.proposed_messages();
        let authorized = self.has_signer(caller, wallet_id, public_key);
        Ok(deliver_messages(messages, authorized, decryption_key))
    }

    /// Whether the caller, encrypted under the fetched public key, is a signer.
    pub open spec fn caller_is_signer(&self, caller: Seq<u8>, wallet_id: Seq<u8>, public_key: Result<Seq<u8>, ()>) -> bool {
        match public_key {
            Ok(k) => match principal_encryption(k, wallet_id, caller) {
                Ok(s) => self@.signers.contains(s),
                Err(_) => false,
            },
            Err(_) => false,
        }
    }

    /// Whether the wallet decrypts for a caller: the caller is a signer, the
    /// decryption key was had and every decryption succeeds.
    pub open spec fn decrypts_for(&self, caller: Seq<u8>, wallet_id: Seq<u8>, public_key: Result<Seq<u8>, ()>, decryption_key: Option<Result<Seq<u8>, ()>>) -> bool {
        match decryption_key {
            Some(Ok(k)) => self.caller_is_signer(caller, wallet_id, public_key)
                && first_error(wallet_decryption_checks(k, self.signers_list(), self.queue_list(), self.metadata_list())) is None,
            _ => false,
        }
    }

    /// Whether a list is the queue with its approvers as handed to a caller:
    /// an enumeration of the decrypted queue when the wallet decrypts for the
    /// caller, otherwise the stored entries.
    pub open spec fn messages_with_signers_for(&self, caller: Seq<u8>, wallet_id: Seq<u8>, public_key: Result<Seq<u8>, ()>, decryption_key: Option<Result<Seq<u8>, ()>>, v: Seq<(Seq<u8>, Seq<Seq<char>>)>) -> bool {
        if self.decrypts_for(caller, wallet_id, public_key, decryption_key) {
            describes(v, decrypted_wallet(decryption_key->Some_0->Ok_0, self.signers_list(), self@.threshold, self.queue_list(), self.metadata_list()).queue)
        } else {
            v == self.queue_list()
        }
    }

    /// The queue with its approvers: decrypted (see `decrypt_wallet_data`) for
    /// a caller who is a signer when the decryption key was had and the whole
    /// wallet decrypts, otherwise as stored.
    pub fn get_messages_with_signers(&self, caller: &[u8], wallet_id: &str, public_key: &Result<WalletPublicKey, String>, decryption_key: &Option<Result<WalletVetKey, String>>) -> (r: Result<Vec<(Vec<u8>, Vec<String>)>, String>)
        requires
            self.wf(),
            caller@.len() <= max_principal_len(),
        ensures
            r matches Ok(v) && self.messages_with_signers_for(caller@, wallet_id.spec_bytes(), key_outcome(public_key), vetkey_outcome(decryption_key), entries_view_of(v@)),
            self.decrypts_for(caller@, wallet_id.spec_bytes(), key_outcome(public_key), vetkey_outcome(decryption_key)) ==> (r matches Ok(v)
                && describes(entries_view_of(v@), decrypted_wallet(vetkey_outcome(decryption_key)->Some_0->Ok_0, self.signers_list(), self@.threshold, self.queue_list(), self.metadata_list()).queue)),
            !self.decrypts_for(caller@, wallet_id.spec_bytes(), key_outcome(public_key), vetkey_outcome(decryption_key)) ==> (r matches Ok(v)
                && entries_view_of(v@) == self.queue_list()),
    {
        let messages_with_signers = self.get_encrypted_messages_with_signers();
        if self.has_signer(caller, wallet_id, public_key) {
            if let Some(key) = decryption_key {
                let signers = self.get_signers();
                let queue = self.get_encrypted_messages_with_signers();
                let metadata = self.get_all_metadata();
                match decrypt_wallet_data(&signers, &self.threshold, &queue, &metadata, key) {
                    Ok(decrypted) => {
                        let v = decrypted.get_encrypted_messages_with_signers();
                        proof {
                            decrypted.lemma_lists();
                            let k = key->Ok_0;
                            assert(decryption_key->Some_0->Ok_0@ == k@);
                            assert(self.caller_is_signer(caller@, wallet_id.spec_bytes(), key_outcome(public_key)));
                            assert(first_error(wallet_decryption_checks(k@, self.signers_list(), self.queue_list(), self.metadata_list())) is None);
                            assert(decrypted@ == decrypted_wallet(k@, self.signers_list(), self@.threshold, self.queue_list(), self.metadata_list()));
                            assert(entries_view_of(v@) == decrypted.queue_list());
                            let q = decrypted@.queue;
                            let ev = entries_view_of(v@);
                            assert(vetkey_outcome(decryption_key)->Some_0->Ok_0 == k@);
                            assert(ev.len() == v@.len());
                            assert forall|i: int| 0 <= i < v@.len() implies q.contains_key(#[trigger] ev[i].0) && q[ev[i].0] == ev[i].1 by {
                                assert(decrypted.queue_list()[i] == ev[i]);
                            }
                            assert forall|kk: Seq<u8>| #[trigger] q.contains_key(kk) implies exists|i: int| 0 <= i < v@.len() && ev[i].0 == kk by {
                                let i = choose|i: int| 0 <= i < decrypted.queue_list().len() && decrypted.queue_list()[i].0 == kk;
                                assert(ev[i].0 == kk);
                            }
                            assert forall|i: int, j: int| 0 <= i < j < v@.len() implies #[trigger] ev[i].0 != #[trigger] ev[j].0 by {
                                assert(decrypted.queue_list()[i].0 != decrypted.queue_list()[j].0);
                            }
                            assert(describes(ev, q));
                        }
                        return Ok(v);
                    },
                    Err(_) => {
                        return Ok(messages_with_signers);
                    },
                }
            }
        }
        Ok(messages_with_signers)
    }

    /// Attaches metadata to a message as the caller (its principal's bytes):
    /// the caller, message and metadata are encrypted under the wallet's
    /// public key (the outcome of fetching it is `public_key`).
    pub fn add_metadata(&mut self, message: Vec<u8>, metadata: String, caller: &[u8], wallet_id: &str, public_key: &Result<WalletPublicKey, String>) -> (r: Result<(), String>)
        requires
            old(self).wf(),
            caller@.len() <= max_principal_len(),
        ensures
            final(self).wf(),
            (text_result(r), final(self)@) == match (encrypted_call(key_outcome(public_key), wallet_id.spec_bytes(), caller@, message@), public_key) {
                (Some((signer, msg)), Ok(k)) => add_metadata_step(old(self)@, signer, msg, metadata_encryption(k@, wallet_id.spec_bytes(), metadata@)),
                _ => (Err("EncryptionError"@), old(self)@),
            },
            r is Ok ==> text_reads_back(metadata@),
    {
        let (encrypted_principal, encrypted_message) = match encrypt_principal_and_message_with_vetkeys(caller, &message, wallet_id, public_key) {
            Ok(pair) => pair,
            Err(_) => return Err(text("EncryptionError")),
        };
        if !self.signers.contains(&encrypted_principal) {
            return Err(text("Cannot add metadata: No signer."));
        }
        if !self.message_queue.contains_key(encrypted_message.as_slice()) {
            return Err(text("Cannot add metadata: Message not found."));
        }
        if self.metadata.contains_key(encrypted_message.as_slice()) {
            return Err(text("Metadata already exists for this message"));
        }
        let encrypted_metadata = match encrypt_metadata_with_vetkeys(metadata, wallet_id, public_key) {
            Ok(m) => m,
            Err(_) => return Err(text("EncryptionError")),
        };
        self.metadata.insert(encrypted_message, encrypted_metadata);
        Ok(())
    }

    /// The encrypted metadata of a message, for a caller (its principal's
    /// bytes) who is a signer; `None` when the caller or message cannot be
    /// encrypted, the caller is not a signer, or there is no metadata.
    pub fn encrypted_metadata_for(&self, message: &Vec<u8>, caller: &[u8], wallet_id: &str, public_key: &Result<WalletPublicKey, String>) -> (r: Option<String>)
        requires
            self.wf(),
            caller@.len() <= max_principal_len(),
        ensures
            match encrypted_call(key_outcome(public_key), wallet_id.spec_bytes(), caller@, message@) {
                Some((signer, msg)) => if self@.signers.contains(signer) && self@.metadata.contains_key(msg) {
                    r matches Some(h) && h@ == self@.metadata[msg]
                } else {
                    r is None
                },
                None => r is None,
            },
    {
        let (encrypted_principal, encrypted_message) = match encrypt_principal_and_message_with_vetkeys(caller, message, wallet_id, public_key) {
            Ok(pair) => pair,
            Err(_) => return None,
        };
        if !self.signers.contains(&encrypted_principal) {
            return None;
        }
        match self.metadata.get(encrypted_message.as_slice()) {
            Some(m) => Some(m.clone()),
            None => None,
        }
    }

    /// The metadata of a message, decrypted, for a caller who is a signer:
    /// `None` unless `encrypted_metadata_for` finds it, the decryption key
    /// was had, and it decrypts.
    pub fn get_metadata(&self, message: Vec<u8>, caller: &[u8], wallet_id: &str, public_key: &Result<WalletPublicKey, String>, decryption_key: &Option<Result<WalletVetKey, String>>) -> (r: Option<String>)
        requires
            self.wf(),
            caller@.len() <= max_principal_len(),
        ensures
            match encrypted_call(key_outcome(public_key), wallet_id.spec_bytes(), caller@, message@) {
                Some((signer, msg)) => if self@.signers.contains(signer) && self@.metadata.contains_key(msg) {
                    match decryption_key {
                        Some(Ok(k)) => match metadata_decryption(k@, encode_utf8(self@.metadata[msg])) {
                            Ok(t) => r matches Some(x) && x@ == t,
                            Err(_) => r is None,
                        },
                        _ => r is None,
                    }
                } else {
                    r is None
                },
                None => r is None,
            },
    {
        let encrypted = match self.encrypted_metadata_for(&message, caller, wallet_id, public_key) {
            Some(h) => h,
            None => return None,
        };
        match decryption_key {
            Some(key) => match decrypt_metadata_with_vetkeys(encrypted.as_str(), key) {
                Ok(t) => Some(t),
                Err(_) => None,
            },
            None => None,
        }
    }

    /// Removes a message and its metadata, as the caller (its principal's
    /// bytes), who must be a signer.
    pub fn remove_message_and_metadata(&mut self, msg: Vec<u8>, caller: &[u8], wallet_id: &str, public_key: &Result<WalletPublicKey, String>) -> (r: Result<(), String>)
        requires
            old(self).wf(),
            caller@.len() <= max_principal_len(),
        ensures
            final(self).wf(),
            (text_result(r), final(self)@) == match encrypted_call(key_outcome(public_key), wallet_id.spec_bytes(), caller@, msg@) {
                Some((signer, message)) => remove_step(old(self)@, signer, message),
                None => (Err("EncryptionError"@), old(self)@),
            },
    {
        let (encrypted_principal, encrypted_message) = match encrypt_principal_and_message_with_vetkeys(caller, &msg, wallet_id, public_key) {
            Ok(pair) => pair,
            Err(_) => return Err(text("EncryptionError")),
        };
        if !self.signers.contains(&encrypted_principal) {
            return Err(text("CallerNotSigner"));
        }
        self.message_queue.remove(encrypted_message.as_slice());
        self.metadata.remove(encrypted_message.as_slice());
        Ok(())
    }
}

impl Default for Wallet {
    /// A wallet with no signers, threshold zero, and nothing queued.
    fn default() -> (w: Self)
        ensures
            w.wf(),
            w@.signers == Set::<Seq<char>>::empty(),
            w@.threshold == 0,
            w@.queue == Map::<Seq<u8>, Seq<Seq<char>>>::empty(),
            w@.metadata == Map::<Seq<u8>, Seq<char>>::empty(),
    {
        Wallet { signers: TextSet::new(), threshold: 0, message_queue: ByteMap::new(), metadata: ByteMap::new() }
    }
}

/// The messages handed to a caller (see `delivered_messages`).
fn deliver_messages(messages: Vec<Vec<u8>>, authorized: bool, decryption_key: &Option<Result<WalletVetKey, String>>) -> (r: Vec<Vec<u8>>)
    ensures
        r@.map_values(|m: Vec<u8>| m@) == delivered_messages(messages@.map_values(|m: Vec<u8>| m@), authorized, vetkey_outcome(decryption_key)),
        plaintexts_owed(messages@.map_values(|m: Vec<u8>| m@), authorized, vetkey_outcome(decryption_key))
            ==> r@.map_values(|m: Vec<u8>| m@) == messages@.map_values(|m: Vec<u8>| ibe_plaintext(vetkey_outcome(decryption_key)->Some_0->Ok_0, m@)->0),
{
    let ghost ms = messages@.map_values(|m: Vec<u8>| m@);
    if !authorized {
        return messages;
    }
    let key = match decryption_key {
        Some(k) => k,
        None => return messages,
    };
    let mut hex_list: Vec<String> = Vec::new();
    let mut i: usize = 0;
    while i < messages.len()
        invariant
            i <= messages@.len(),
            ms == messages@.map_values(|m: Vec<u8>| m@),
            hex_list@.len() == i,
            forall|j: int| 0 <= j < i ==> match key {
                Ok(k) => message_decryption(k@, encode_utf8((#[trigger] hex_list@[j])@)) == queued_message_decryption(k@, ms[j]),
                Err(_) => true,
            },
        decreases messages@.len() - i,
    {
        let h = hex_encode(messages[i].as_slice());
        proof {
            lemma_hex_roundtrip(messages@[i as int]@);
        }
        hex_list.push(h);
        i = i + 1;
    }
    match decrypt_messages_with_vetkeys(&hex_list, key) {
        Ok(decrypted) => {
            proof {
                let k = key->Ok_0;
                assert forall|j: int| 0 <= j < ms.len() implies (#[trigger] ibe_plaintext(k@, ms[j])) is Some by {
                    assert(message_decryption(k@, encode_utf8(hex_list@[j]@)) is Ok);
                }
                assert(decrypted@.map_values(|m: Vec<u8>| m@) =~= ms.map_values(|m: Seq<u8>| ibe_plaintext(k@, m)->0)) by {
                    assert forall|j: int| 0 <= j < ms.len() implies decrypted@[j]@ == ibe_plaintext(k@, ms[j])->0 by {
                        assert(message_decryption(k@, encode_utf8(hex_list@[j]@)) == Ok::<Seq<u8>, Seq<char>>(decrypted@[j]@));
                    }
                }
            }
            decrypted
        },
        Err(_) => {
            proof {
                if let Ok(k) = key {
                    if all_decrypt(k@, ms) {
                        assert forall|j: int| 0 <= j < hex_list@.len() implies
                            (#[trigger] message_decryption(k@, encode_utf8(hex_list@[j]@))) is Ok by {
                            assert(ibe_plaintext(k@, ms[j]) is Some);
                        }
                    }
                }
            }
            messages
        },
    }
}

} // verus!
