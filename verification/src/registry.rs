//! The service's state: the wallets by id, and for each principal the ids of
//! the wallets it was made a signer of. Each operation of the service is a
//! step on this state, given the outcomes of the key fetches it needs.

use crate::codec::{decimal_text, hex_decode, hex_decoding, hex_encode, hex_encoding, lemma_hex_roundtrip};
use crate::collections::{copy_texts, entries_view_of, ByteMap, TextSet};
use crate::command::{
    add_signer_message, add_signer_tag, command_of, parse_sign_command, remove_signer_message, remove_signer_tag, separator, set_threshold_message,
    set_threshold_tag, transfer_message, transfer_tag, CommandView, SignCommand,
};
use crate::crypto::{candid_principal_args, max_principal_len, principal_text, WalletPublicKey, WalletVetKey};
use crate::privacy::{decrypt_wallet_data, decrypted_wallet, encrypt_message_with_vetkeys, encrypt_principals_with_vetkeys, first_error, message_encryption, metadata_decryption, metadata_encryption, principal_encryption, principal_reads_back, text_reads_back, principals_fit, wallet_decryption_checks};
use crate::wallet::{
    add_metadata_step, approve_step, delivered_messages, encrypted_call, key_outcome, propose_step, remove_step, signable, text_result, vetkey_outcome,
    Wallet, WalletError, WalletView,
};
use vstd::prelude::*;
use vstd::string::StringSliceAdditionalSpecFns;
use vstd::utf8::encode_utf8;

verus! {

/// The abstract state of the service.
pub ghost struct RegistryView {
    /// The wallets, by id.
    pub wallets: Map<Seq<char>, WalletView>,
    /// For each principal (its bytes), the ids of the wallets it was made a
    /// signer of.
    pub principal_wallets: Map<Seq<u8>, Set<Seq<char>>>,
}

/// The service's state.
pub struct WalletRegistry {
    wallets: Vec<(String, Wallet)>,
    principal_wallets: ByteMap<Vec<String>>,
}

/// Whether no id occurs twice in a list of wallets.
pub open spec fn distinct_ids(entries: Seq<(String, Wallet)>) -> bool {
    forall|i: int, j: int| 0 <= i < j < entries.len() ==> #[trigger] entries[i].0@ != #[trigger] entries[j].0@
}

/// The position of the entry with an id.
spec fn entry_index(entries: Seq<(String, Wallet)>, k: Seq<char>) -> int {
    choose|i: int| 0 <= i < entries.len() && #[trigger] entries[i].0@ == k
}

/// The wallets that a list describes, by id.
pub closed spec fn wallet_map(entries: Seq<(String, Wallet)>) -> Map<Seq<char>, WalletView> {
    Map::new(
        |k: Seq<char>| exists|i: int| 0 <= i < entries.len() && #[trigger] entries[i].0@ == k,
        |k: Seq<char>| entries[entry_index(entries, k)].1@,
    )
}

proof fn lemma_wallet_map_at(entries: Seq<(String, Wallet)>, i: int)
    requires
        distinct_ids(entries),
        0 <= i < entries.len(),
    ensures
        wallet_map(entries).contains_key(entries[i].0@),
        wallet_map(entries)[entries[i].0@] == entries[i].1@,
        entry_index(entries, entries[i].0@) == i,
{
    let k = entries[i].0@;
    assert(entries[i].0@ == k);
    let c = entry_index(entries, k);
    if c != i {
        if c < i {
            assert(entries[c].0@ != entries[i].0@);
        } else {
            assert(entries[i].0@ != entries[c].0@);
        }
    }
}

/// The set view of each principal's wallet list.
pub closed spec fn principal_sets(m: Map<Seq<u8>, Seq<Seq<char>>>) -> Map<Seq<u8>, Set<Seq<char>>> {
    Map::new(|k: Seq<u8>| m.contains_key(k), |k: Seq<u8>| m[k].to_set())
}

impl View for WalletRegistry {
    type V = RegistryView;

    closed spec fn view(&self) -> RegistryView {
        RegistryView { wallets: wallet_map(self.wallets@), principal_wallets: principal_sets(self.principal_wallets@) }
    }
}

/// The error when no wallet has the id.
pub open spec fn wallet_not_found() -> Seq<char> {
    "WalletNotFound"@
}

/// The error when a wallet with the id exists already.
pub open spec fn wallet_already_exists() -> Seq<char> {
    "WalletAlreadyExists"@
}

/// The error when a proposed message is queued already.
pub open spec fn wallet_msg_already_queued() -> Seq<char> {
    "WalletMsgAlreadyQueued"@
}

/// The error when the caller is not a signer.
pub open spec fn wallet_invalid_signature() -> Seq<char> {
    "WalletInvalidSignature"@
}

/// The error when a message cannot be signed yet.
pub open spec fn wallet_cannot_sign() -> Seq<char> {
    "WalletCannotSign"@
}

/// The error when a new wallet has fewer signers than its threshold.
pub open spec fn wallet_signers_not_match_threshold() -> Seq<char> {
    "WalletSignersNotMatchThreshold"@
}

/// The error when a message has no metadata the caller may read.
pub open spec fn metadata_not_found() -> Seq<char> {
    "MetadataNotFound"@
}

/// The error when a message is not hexadecimal text.
pub open spec fn invalid_message() -> Seq<char> {
    "InvalidMessage"@
}

/// How a proposal's refusal is reported.
pub open spec fn propose_error_text(e: WalletError) -> Seq<char> {
    match e {
        WalletError::InvalidSignature => wallet_invalid_signature(),
        WalletError::MsgAlreadyQueued => wallet_msg_already_queued(),
        WalletError::EncryptionError => "EncryptionError"@,
        _ => "UnknownError"@,
    }
}

/// How an approval's refusal is reported.
pub open spec fn approve_error_text(e: WalletError) -> Seq<char> {
    match e {
        WalletError::MsgNotQueued => "WalletMsgNotQueued"@,
        WalletError::InvalidSignature => wallet_invalid_signature(),
        WalletError::MsgAlreadySignedBySigner => "WalletMsgAlreadySignedBySigner"@,
        _ => "UnknownError"@,
    }
}

/// The bytes that a hex text spells, if it is one.
pub open spec fn hex_message(text: &str) -> Option<Seq<u8>> {
    hex_decoding(text.spec_bytes())
}


/// The principals' wallet lists after recording each principal as a signer
/// of the wallet `id`, in order.
pub open spec fn add_wallet_to_principals(pw: Map<Seq<u8>, Set<Seq<char>>>, principals: Seq<Seq<u8>>, id: Seq<char>) -> Map<Seq<u8>, Set<Seq<char>>>
    decreases principals.len(),
{
    if principals.len() == 0 {
        pw
    } else {
        let m = add_wallet_to_principals(pw, principals.drop_last(), id);
        let p = principals.last();
        m.insert(p, if m.contains_key(p) { m[p].insert(id) } else { set![id] })
    }
}

/// The encrypted forms of a list of principals, when all can be encrypted.
pub open spec fn encrypted_signers(key: Seq<u8>, wallet_id: Seq<u8>, signers: Seq<Vec<u8>>) -> Option<Seq<Seq<char>>> {
    if forall|i: int| 0 <= i < signers.len() ==> (#[trigger] candid_principal_args(signers[i]@)) is Some {
        Some(Seq::new(signers.len(), |i: int| principal_encryption(key, wallet_id, signers[i]@)->Ok_0))
    } else {
        None
    }
}

/// A new wallet with the given (encrypted) signers and threshold.
pub open spec fn new_wallet_view(signers: Set<Seq<char>>, threshold: u8) -> WalletView {
    WalletView {
        signers,
        threshold,
        queue: Map::empty(),
        metadata: Map::empty(),
    }
}

/// What a proposal does to a wallet, given the encrypted caller and message.
pub open spec fn wallet_propose(w: WalletView, call: Option<(Seq<char>, Seq<u8>)>) -> (Result<(), WalletError>, WalletView) {
    match call {
        Some((signer, message)) => propose_step(w, signer, message),
        None => (Err(WalletError::EncryptionError), w),
    }
}

/// What an approval does to a wallet, given the encrypted caller and message.
pub open spec fn wallet_approve(w: WalletView, call: Option<(Seq<char>, Seq<u8>)>) -> (Result<u8, WalletError>, WalletView) {
    match call {
        Some((signer, message)) => approve_step(w, signer, message),
        None => (Err(WalletError::EncryptionError), w),
    }
}

/// Proposing a message (its bytes, when its hex text decodes) to a wallet as
/// the caller (a principal's bytes), given the outcome of fetching the
/// wallet's public key: the reply and the state after it.
pub open spec fn registry_propose(s: RegistryView, wallet_id: Seq<char>, message: Option<Seq<u8>>, caller: Seq<u8>, public_key: Result<Seq<u8>, ()>) -> (Result<(), Seq<char>>, RegistryView) {
    match message {
        None => (Err(invalid_message()), s),
        Some(m) => if !s.wallets.contains_key(wallet_id) {
            (Err(wallet_not_found()), s)
        } else {
            match wallet_propose(s.wallets[wallet_id], encrypted_call(public_key, encode_utf8(wallet_id), caller, m)) {
                (Ok(()), w) => (Ok(()), RegistryView { wallets: s.wallets.insert(wallet_id, w), ..s }),
                (Err(e), _) => (Err(propose_error_text(e)), s),
            }
        },
    }
}

/// Approving a message (its bytes, when its hex text decodes) in a wallet as
/// the caller: the reply and the state after it.
pub open spec fn registry_approve(s: RegistryView, wallet_id: Seq<char>, message: Option<Seq<u8>>, caller: Seq<u8>, public_key: Result<Seq<u8>, ()>) -> (Result<u8, Seq<char>>, RegistryView) {
    match message {
        None => (Err(invalid_message()), s),
        Some(m) => if !s.wallets.contains_key(wallet_id) {
            (Err(wallet_not_found()), s)
        } else {
            match wallet_approve(s.wallets[wallet_id], encrypted_call(public_key, encode_utf8(wallet_id), caller, m)) {
                (Ok(n), w) => (Ok(n), RegistryView { wallets: s.wallets.insert(wallet_id, w), ..s }),
                (Err(e), _) => (Err(approve_error_text(e)), s),
            }
        },
    }
}

/// Attaching metadata to a message (its bytes, when its hex text decodes) in
/// a wallet as the caller: the reply and the state after it.
pub open spec fn registry_add_metadata(s: RegistryView, wallet_id: Seq<char>, message: Option<Seq<u8>>, metadata: Seq<char>, caller: Seq<u8>, public_key: Result<Seq<u8>, ()>) -> (Result<(), Seq<char>>, RegistryView) {
    match message {
        None => (Err(invalid_message()), s),
        Some(m) => if !s.wallets.contains_key(wallet_id) {
            (Err(wallet_not_found()), s)
        } else {
            let w = s.wallets[wallet_id];
            let id = encode_utf8(wallet_id);
            let (r, w2) = match (encrypted_call(public_key, id, caller, m), public_key) {
                (Some((signer, msg)), Ok(k)) => add_metadata_step(w, signer, msg, metadata_encryption(k, id, metadata)),
                _ => (Err("EncryptionError"@), w),
            };
            match r {
                Ok(()) => (Ok(()), RegistryView { wallets: s.wallets.insert(wallet_id, w2), ..s }),
                Err(e) => (Err(e), s),
            }
        },
    }
}

/// Proposing a message and then attaching metadata to it.
pub open spec fn registry_propose_with_metadata(s: RegistryView, wallet_id: Seq<char>, message: Option<Seq<u8>>, metadata: Seq<char>, caller: Seq<u8>, public_key: Result<Seq<u8>, ()>) -> (Result<(), Seq<char>>, RegistryView) {
    let (r, s1) = registry_propose(s, wallet_id, message, caller, public_key);
    match r {
        Ok(()) => registry_add_metadata(s1, wallet_id, message, metadata, caller, public_key),
        Err(e) => (Err(e), s1),
    }
}

/// A proposal's reply when it proposed a special message: the message's hex
/// text on success.
pub open spec fn reply_with(outcome: (Result<(), Seq<char>>, RegistryView), message: Seq<char>) -> (Result<Seq<char>, Seq<char>>, RegistryView) {
    match outcome.0 {
        Ok(()) => (Ok(message), outcome.1),
        Err(e) => (Err(e), outcome.1),
    }
}

/// The view of a reply with a text error.
pub open spec fn reply<T>(r: Result<T, String>) -> Result<T, Seq<char>> {
    match r {
        Ok(v) => Ok(v),
        Err(e) => Err(e@),
    }
}

/// The view of a reply that is a text.
pub open spec fn text_reply(r: Result<String, String>) -> Result<Seq<char>, Seq<char>> {
    match r {
        Ok(v) => Ok(v@),
        Err(e) => Err(e@),
    }
}

/// Whether signing a message (hex text) with a wallet gets past its checks:
/// the message decodes, the wallet's public key was had, the wallet exists,
/// and the encrypted message has enough approvals.
pub open spec fn signing_ready(s: RegistryView, wallet_id: Seq<char>, msg: &str, public_key: Result<Seq<u8>, ()>) -> bool {
    &&& hex_message(msg) is Some
    &&& public_key is Ok
    &&& s.wallets.contains_key(wallet_id)
    &&& signable(s.wallets[wallet_id], message_encryption(public_key->Ok_0, encode_utf8(wallet_id), hex_message(msg)->0))
}

/// The error when a transfer's amount or receiver cannot be read.
pub open spec fn invalid_transfer() -> Seq<char> {
    "InvalidTransfer"@
}

/// What carrying out a command does to a wallet before the message is
/// signed: a readable threshold is set when the wallet has that many signers.
/// The request is refused when the threshold is out of reach or a transfer
/// cannot be read.
pub open spec fn command_effect(w: WalletView, command: CommandView) -> Result<WalletView, Seq<char>> {
    match command {
        CommandView::SetThreshold(Some(t)) => if w.signers.len() < t {
            Err(wallet_signers_not_match_threshold())
        } else {
            Ok(WalletView { threshold: t, ..w })
        },
        CommandView::MalformedTransfer => Err(invalid_transfer()),
        _ => Ok(w),
    }
}

/// The state after a signed add-signer command: the principal, encrypted
/// under the wallet's public key, joins the wallet and is recorded as its
/// signer; nothing changes when it cannot be encrypted.
pub open spec fn signer_added(s: RegistryView, wallet_id: Seq<char>, signer: Seq<u8>, public_key: Result<Seq<u8>, ()>) -> RegistryView {
    if !s.wallets.contains_key(wallet_id) {
        s
    } else {
        match public_key {
            Ok(k) => match principal_encryption(k, encode_utf8(wallet_id), signer) {
                Ok(e) => RegistryView {
                    wallets: s.wallets.insert(wallet_id, WalletView { signers: s.wallets[wallet_id].signers.insert(e), ..s.wallets[wallet_id] }),
                    principal_wallets: add_wallet_to_principals(s.principal_wallets, seq![signer], wallet_id),
                },
                Err(_) => s,
            },
            Err(_) => s,
        }
    }
}

/// The state after a signed remove-signer command: the principal, encrypted
/// under the wallet's public key, leaves the wallet and the wallet leaves its
/// list; nothing changes when it cannot be encrypted.
pub open spec fn signer_removed(s: RegistryView, wallet_id: Seq<char>, signer: Seq<u8>, public_key: Result<Seq<u8>, ()>) -> RegistryView {
    if !s.wallets.contains_key(wallet_id) {
        s
    } else {
        match public_key {
            Ok(k) => match principal_encryption(k, encode_utf8(wallet_id), signer) {
                Ok(e) => RegistryView {
                    wallets: s.wallets.insert(wallet_id, WalletView { signers: s.wallets[wallet_id].signers.remove(e), ..s.wallets[wallet_id] }),
                    principal_wallets: if s.principal_wallets.contains_key(signer) {
                        s.principal_wallets.insert(signer, s.principal_wallets[signer].remove(wallet_id))
                    } else {
                        s.principal_wallets
                    },
                },
                Err(_) => s,
            },
            Err(_) => s,
        }
    }
}

/// The state after a signed message is taken out of its wallet's queue, with
/// its metadata, as the caller; nothing changes when the caller is not a
/// signer or cannot be encrypted.
pub open spec fn message_retired(s: RegistryView, wallet_id: Seq<char>, message: Seq<u8>, caller: Seq<u8>, public_key: Result<Seq<u8>, ()>) -> RegistryView {
    if !s.wallets.contains_key(wallet_id) {
        s
    } else {
        let w = s.wallets[wallet_id];
        let w2 = match encrypted_call(public_key, encode_utf8(wallet_id), caller, message) {
            Some((signer, m)) => remove_step(w, signer, m).1,
            None => w,
        };
        RegistryView { wallets: s.wallets.insert(wallet_id, w2), ..s }
    }
}

fn text(s: &str) -> (t: String)
    ensures
        t@ == s@,
{
    s.to_owned()
}

fn concat(a: &str, b: &String) -> (t: String)
    ensures
        t@ == a@ + b@,
{
    let mut t = a.to_owned();
    t.append(b.as_str());
    t
}

/// What signing a message leads to before any signature is made.
pub enum SignStep {
    /// The request is refused with this error.
    Refused(String),
    /// The message (its bytes) can be signed and carries this command; a
    /// new threshold has already been set.
    Proceed(Vec<u8>, SignCommand),
}

impl WalletRegistry {
    /// Ids do not repeat, every wallet is well formed, and the principals'
    /// lists are kept as a map.
    pub closed spec fn wf(&self) -> bool {
        &&& distinct_ids(self.wallets@)
        &&& forall|i: int| 0 <= i < self.wallets@.len() ==> (#[trigger] self.wallets@[i]).1.wf()
        &&& self.principal_wallets.wf()
    }

    /// The wallet stored under an id.
    pub closed spec fn stored(&self, wallet_id: Seq<char>) -> Wallet {
        self.wallets@[entry_index(self.wallets@, wallet_id)].1
    }

    /// The wallet stored under an id is well formed and is the one the view
    /// shows.
    pub proof fn lemma_stored(&self, wallet_id: Seq<char>)
        requires
            self.wf(),
            self@.wallets.contains_key(wallet_id),
        ensures
            self.stored(wallet_id).wf(),
            self.stored(wallet_id)@ == self@.wallets[wallet_id],
    {
        let i = choose|i: int| 0 <= i < self.wallets@.len() && #[trigger] self.wallets@[i].0@ == wallet_id;
        lemma_wallet_map_at(self.wallets@, i);
    }

    /// A service with no wallets.
    pub fn new() -> (r: Self)
        ensures
            r.wf(),
            r@.wallets == Map::<Seq<char>, WalletView>::empty(),
            r@.principal_wallets == Map::<Seq<u8>, Set<Seq<char>>>::empty(),
    {
        let r = WalletRegistry { wallets: Vec::new(), principal_wallets: ByteMap::new() };
        assert(r@.wallets =~= Map::<Seq<char>, WalletView>::empty());
        assert(r@.principal_wallets =~= Map::<Seq<u8>, Set<Seq<char>>>::empty());
        r
    }

    fn find(&self, wallet_id: &String) -> (r: Option<usize>)
        requires
            self.wf(),
        ensures
            r is None <==> !self@.wallets.contains_key(wallet_id@),
            r matches Some(i) ==> i < self.wallets@.len() && self.wallets@[i as int].0@ == wallet_id@
                && self@.wallets[wallet_id@] == self.wallets@[i as int].1@ && self.wallets@[i as int].1.wf()
                && self.wallets@[i as int].1 == self.stored(wallet_id@),
    {
        let mut i: usize = 0;
        while i < self.wallets.len()
            invariant
                self.wf(),
                i <= self.wallets@.len(),
                forall|j: int| 0 <= j < i ==> self.wallets@[j].0@ != wallet_id@,
            decreases self.wallets@.len() - i,
        {
            if self.wallets[i].0 == *wallet_id {
                proof {
                    lemma_wallet_map_at(self.wallets@, i as int);
                }
                return Some(i);
            }
            i = i + 1;
        }
        proof {
            if self@.wallets.contains_key(wallet_id@) {
                let j = choose|j: int| 0 <= j < self.wallets@.len() && #[trigger] self.wallets@[j].0@ == wallet_id@;
                assert(self.wallets@[j].0@ == wallet_id@);
            }
        }
        None
    }

    /// Stores a wallet under an id, replacing any wallet with that id.
    fn store(&mut self, wallet_id: String, wallet: Wallet)
        requires
            old(self).wf(),
            wallet.wf(),
        ensures
            final(self).wf(),
            final(self)@ == (RegistryView { wallets: old(self)@.wallets.insert(wallet_id@, wallet@), ..old(self)@ }),
    {
        let ghost before = self@;
        let ghost k = wallet_id@;
        let ghost v = wallet@;
        let ghost old_entries = self.wallets@;
        match self.find(&wallet_id) {
            Some(i) => {
                self.wallets.set(i, (wallet_id, wallet));
                proof {
                    let ne = self.wallets@;
                    assert(ne == old_entries.update(i as int, ne[i as int]));
                    assert forall|a: int, b: int| 0 <= a < b < ne.len() implies #[trigger] ne[a].0@ != #[trigger] ne[b].0@ by {
                        assert(old_entries[a].0@ != old_entries[b].0@);
                    }
                    assert forall|q: Seq<char>| #[trigger] wallet_map(ne).contains_key(q) <==> before.wallets.insert(k, v).contains_key(q) by {
                        if q == k {
                            assert(ne[i as int].0@ == q);
                        } else if before.wallets.contains_key(q) {
                            let j = choose|j: int| 0 <= j < old_entries.len() && #[trigger] old_entries[j].0@ == q;
                            assert(ne[j].0@ == q);
                        } else if wallet_map(ne).contains_key(q) {
                            let j = choose|j: int| 0 <= j < ne.len() && #[trigger] ne[j].0@ == q;
                            assert(old_entries[j].0@ == q);
                        }
                    }
                    assert forall|q: Seq<char>| #[trigger] wallet_map(ne).contains_key(q) implies wallet_map(ne)[q] == before.wallets.insert(k, v)[q] by {
                        let j = choose|j: int| 0 <= j < ne.len() && #[trigger] ne[j].0@ == q;
                        lemma_wallet_map_at(ne, j);
                        if j != i as int {
                            lemma_wallet_map_at(old_entries, j);
                        }
                    }
                    assert(wallet_map(ne) =~= before.wallets.insert(k, v));
                    assert(self@ =~= (RegistryView { wallets: before.wallets.insert(k, v), ..before }));
                }
            },
            None => {
                self.wallets.push((wallet_id, wallet));
                proof {
                    let ne = self.wallets@;
                    assert forall|a: int, b: int| 0 <= a < b < ne.len() implies #[trigger] ne[a].0@ != #[trigger] ne[b].0@ by {
                        if b == old_entries.len() {
                            if old_entries[a].0@ == k {
                                assert(before.wallets.contains_key(k));
                            }
                        } else {
                            assert(old_entries[a].0@ != old_entries[b].0@);
                        }
                    }
                    assert forall|q: Seq<char>| #[trigger] wallet_map(ne).contains_key(q) <==> before.wallets.insert(k, v).contains_key(q) by {
                        if q == k {
                            assert(ne[old_entries.len() as int].0@ == q);
                        } else if before.wallets.contains_key(q) {
                            let j = choose|j: int| 0 <= j < old_entries.len() && #[trigger] old_entries[j].0@ == q;
                            assert(ne[j].0@ == q);
                        } else if wallet_map(ne).contains_key(q) {
                            let j = choose|j: int| 0 <= j < ne.len() && #[trigger] ne[j].0@ == q;
                            assert(old_entries[j].0@ == q);
                        }
                    }
                    assert forall|q: Seq<char>| #[trigger] wallet_map(ne).contains_key(q) implies wallet_map(ne)[q] == before.wallets.insert(k, v)[q] by {
                        let j = choose|j: int| 0 <= j < ne.len() && #[trigger] ne[j].0@ == q;
                        lemma_wallet_map_at(ne, j);
                        if j != old_entries.len() as int {
                            lemma_wallet_map_at(old_entries, j);
                        }
                    }
                    assert(wallet_map(ne) =~= before.wallets.insert(k, v));
                    assert(self@ =~= (RegistryView { wallets: before.wallets.insert(k, v), ..before }));
                }
            },
        }
    }

    /// Whether a wallet with the id exists.
    pub fn wallet_exists(&self, wallet_id: &str) -> (r: bool)
        requires
            self.wf(),
        ensures
            r == self@.wallets.contains_key(wallet_id@),
    {
        self.find(&text(wallet_id)).is_some()
    }

    /// The wallet with the id, if there is one.
    pub fn wallet(&self, wallet_id: &str) -> (r: Option<&Wallet>)
        requires
            self.wf(),
        ensures
            r is Some <==> self@.wallets.contains_key(wallet_id@),
            r matches Some(w) ==> w.wf() && w@ == self@.wallets[wallet_id@] && *w == self.stored(wallet_id@),
    {
        match self.find(&text(wallet_id)) {
            Some(i) => Some(&self.wallets[i].1),
            None => None,
        }
    }

    /// Records that a principal is a signer of a wallet.
    fn add_principal_wallet(&mut self, principal: &[u8], wallet_id: &String)
        requires
            old(self).wf(),
        ensures
            final(self).wf(),
            final(self)@.wallets == old(self)@.wallets,
            final(self)@.principal_wallets == old(self)@.principal_wallets.insert(principal@,
                if old(self)@.principal_wallets.contains_key(principal@) {
                    old(self)@.principal_wallets[principal@].insert(wallet_id@)
                } else {
                    set![wallet_id@]
                }),
    {
        let ghost before = self@;
        let mut ids: Vec<String> = match self.principal_wallets.get(principal) {
            Some(list) => copy_texts(list),
            None => Vec::new(),
        };
        let ghost old_ids = ids.deep_view();
        if !crate::collections::texts_contain(&ids, wallet_id) {
            ids.push(wallet_id.clone());
            proof {
                assert(ids.deep_view() =~= old_ids.push(wallet_id@));
                Seq::lemma_to_set_insert_commutes(old_ids, wallet_id@);
                assert(old_ids.push(wallet_id@) =~= old_ids + seq![wallet_id@]);
            }
        } else {
            assert(ids.deep_view().to_set() =~= old_ids.to_set().insert(wallet_id@));
        }
        proof {
            if !before.principal_wallets.contains_key(principal@) {
                assert(old_ids =~= Seq::<Seq<char>>::empty());
                assert(ids.deep_view().to_set() =~= set![wallet_id@]);
            }
        }
        self.principal_wallets.insert(vstd::slice::slice_to_vec(principal), ids);
        proof {
            assert(self@.principal_wallets =~= before.principal_wallets.insert(principal@,
                if before.principal_wallets.contains_key(principal@) {
                    before.principal_wallets[principal@].insert(wallet_id@)
                } else {
                    set![wallet_id@]
                }));
        }
    }

    /// Records that a principal is no longer a signer of a wallet.
    fn remove_principal_wallet(&mut self, principal: &[u8], wallet_id: &String)
        requires
            old(self).wf(),
        ensures
            final(self).wf(),
            final(self)@.wallets == old(self)@.wallets,
            final(self)@.principal_wallets == if old(self)@.principal_wallets.contains_key(principal@) {
                old(self)@.principal_wallets.insert(principal@, old(self)@.principal_wallets[principal@].remove(wallet_id@))
            } else {
                old(self)@.principal_wallets
            },
    {
        let ghost before = self@;
        let list = match self.principal_wallets.get(principal) {
            Some(list) => list,
            None => {
                return;
            },
        };
        let ghost old_ids = list.deep_view();
        let mut kept: Vec<String> = Vec::new();
        let mut i: usize = 0;
        while i < list.len()
            invariant
                i <= list@.len(),
                old_ids == list.deep_view(),
                kept.deep_view().to_set() == old_ids.take(i as int).to_set().remove(wallet_id@),
            decreases list@.len() - i,
        {
            let ghost prev = kept.deep_view();
            proof {
                assert(old_ids.take(i as int + 1) =~= old_ids.take(i as int) + seq![old_ids[i as int]]);
                Seq::lemma_to_set_insert_commutes(old_ids.take(i as int), old_ids[i as int]);
            }
            if list[i] != *wallet_id {
                kept.push(list[i].clone());
                proof {
                    assert(kept.deep_view() =~= prev + seq![old_ids[i as int]]);
                    Seq::lemma_to_set_insert_commutes(prev, old_ids[i as int]);
                    assert(kept.deep_view().to_set() =~= old_ids.take(i as int + 1).to_set().remove(wallet_id@));
                }
            } else {
                assert(kept.deep_view().to_set() =~= old_ids.take(i as int + 1).to_set().remove(wallet_id@));
            }
            i = i + 1;
        }
        assert(old_ids.take(i as int) =~= old_ids);
        self.principal_wallets.insert(vstd::slice::slice_to_vec(principal), kept);
        proof {
            assert(self@.principal_wallets =~= before.principal_wallets.insert(principal@, before.principal_wallets[principal@].remove(wallet_id@)));
        }
    }

    /// Creates a wallet with the given signers (principals' bytes), encrypted
    /// under the wallet's public key (the outcome of fetching it is
    /// `public_key`), and threshold, and records each principal as a signer of
    /// it. Refused when the id is taken, a signer cannot be encrypted, or the
    /// wallet would have fewer signers than the threshold.
    pub fn create_wallet(&mut self, wallet_id: String, signers: &Vec<Vec<u8>>, threshold: u8, public_key: &Result<WalletPublicKey, String>) -> (r: Result<(), String>)
        requires
            old(self).wf(),
            principals_fit(signers@),
        ensures
            final(self).wf(),
            old(self)@.wallets.contains_key(wallet_id@) ==> (r matches Err(e) && e@ == wallet_already_exists() && final(self)@ == old(self)@),
            !old(self)@.wallets.contains_key(wallet_id@) ==> (match public_key {
                Err(e) => r matches Err(x) && x@ == "Failed to encrypt signers: "@ + e@ && final(self)@ == old(self)@,
                Ok(k) => match encrypted_signers(k@, encode_utf8(wallet_id@), signers@) {
                    None => r matches Err(x) && x@ == "Failed to encrypt signers: "@ + "EncodingError"@ && final(self)@ == old(self)@,
                    Some(encrypted) => if encrypted.to_set().len() < threshold {
                        r matches Err(x) && x@ == wallet_signers_not_match_threshold() && final(self)@ == old(self)@
                    } else {
                        r is Ok && final(self)@ == (RegistryView {
                            wallets: old(self)@.wallets.insert(wallet_id@, new_wallet_view(encrypted.to_set(), threshold)),
                            principal_wallets: add_wallet_to_principals(old(self)@.principal_wallets, signers@.map_values(|p: Vec<u8>| p@), wallet_id@),
                        })
                    },
                },
            }),
            r is Ok ==> forall|i: int| 0 <= i < signers@.len() ==> #[trigger] principal_reads_back(signers@[i]@),
    {
        if self.find(&wallet_id).is_some() {
            return Err(text("WalletAlreadyExists"));
        }
        let encrypted = match encrypt_principals_with_vetkeys(signers, wallet_id.as_str(), public_key) {
            Ok(v) => v,
            Err(e) => return Err(concat("Failed to encrypt signers: ", &e)),
        };
        let ghost enc_view = encrypted.deep_view();
        proof {
            if let Ok(k) = public_key {
                assert(enc_view =~= encrypted_signers(k@, encode_utf8(wallet_id@), signers@)->0);
            }
        }
        let mut wallet = Wallet::default();
        assert(enc_view.take(0).to_set() =~= Set::<Seq<char>>::empty());
        assert(wallet@ == new_wallet_view(enc_view.take(0).to_set(), 0));
        let mut i: usize = 0;
        while i < encrypted.len()
            invariant
                i <= encrypted@.len(),
                enc_view == encrypted.deep_view(),
                wallet.wf(),
                wallet@ == new_wallet_view(enc_view.take(i as int).to_set(), 0),
            decreases encrypted@.len() - i,
        {
            wallet.add_signer_principal_hex(encrypted[i].clone());
            proof {
                assert(enc_view.take(i as int + 1) =~= enc_view.take(i as int) + seq![enc_view[i as int]]);
                Seq::lemma_to_set_insert_commutes(enc_view.take(i as int), enc_view[i as int]);
            }
            i = i + 1;
        }
        assert(enc_view.take(i as int) =~= enc_view);
        if wallet.set_default_threshold(threshold).is_err() {
            return Err(text("WalletSignersNotMatchThreshold"));
        }
        let ghost before = self@;
        self.store(wallet_id.clone(), wallet);
        let ghost principals = signers@.map_values(|p: Vec<u8>| p@);
        let mut j: usize = 0;
        while j < signers.len()
            invariant
                self.wf(),
                j <= signers@.len(),
                principals == signers@.map_values(|p: Vec<u8>| p@),
                self@.wallets == before.wallets.insert(wallet_id@, new_wallet_view(enc_view.to_set(), threshold)),
                self@.principal_wallets == add_wallet_to_principals(before.principal_wallets, principals.take(j as int), wallet_id@),
            decreases signers@.len() - j,
        {
            self.add_principal_wallet(signers[j].as_slice(), &wallet_id);
            proof {
                assert(principals.take(j as int + 1).drop_last() =~= principals.take(j as int));
                assert(principals.take(j as int + 1).last() == signers@[j as int]@);
            }
            j = j + 1;
        }
        assert(principals.take(j as int) =~= principals);
        Ok(())
    }

    /// Proposes a message (hex text) to a wallet as the caller (a principal's
    /// bytes); see `Wallet::propose_message`.
    pub fn propose(&mut self, wallet_id: &str, msg: &str, caller: &[u8], public_key: &Result<WalletPublicKey, String>) -> (r: Result<(), String>)
        requires
            old(self).wf(),
            caller@.len() <= max_principal_len(),
        ensures
            final(self).wf(),
            (reply(r), final(self)@) == registry_propose(old(self)@, wallet_id@, hex_message(msg), caller@, key_outcome(public_key)),
    {
        let m = match hex_decode(msg) {
            Some(b) => b,
            None => return Err(text("InvalidMessage")),
        };
        let id = text(wallet_id);
        let i = match self.find(&id) {
            Some(i) => i,
            None => return Err(text("WalletNotFound")),
        };
        let mut w = self.wallets[i].1.duplicate();
        match w.propose_message(m, caller, wallet_id, public_key) {
            Ok(()) => {
                self.store(id, w);
                Ok(())
            },
            Err(e) => Err(propose_error(e)),
        }
    }

    /// Approves a message (hex text) in a wallet as the caller (a principal's
    /// bytes); see `Wallet::approve`.
    pub fn approve(&mut self, wallet_id: &str, msg: &str, caller: &[u8], public_key: &Result<WalletPublicKey, String>) -> (r: Result<u8, String>)
        requires
            old(self).wf(),
            caller@.len() <= max_principal_len(),
        ensures
            final(self).wf(),
            (reply(r), final(self)@) == registry_approve(old(self)@, wallet_id@, hex_message(msg), caller@, key_outcome(public_key)),
    {
        let m = match hex_decode(msg) {
            Some(b) => b,
            None => return Err(text("InvalidMessage")),
        };
        let id = text(wallet_id);
        let i = match self.find(&id) {
            Some(i) => i,
            None => return Err(text("WalletNotFound")),
        };
        let mut w = self.wallets[i].1.duplicate();
        match w.approve(m, caller, wallet_id, public_key) {
            Ok(n) => {
                self.store(id, w);
                Ok(n)
            },
            Err(e) => Err(approve_error(e)),
        }
    }

    /// Whether a message (hex text; anything else counts as the empty
    /// message) can be signed in a wallet: false when the message cannot be
    /// encrypted or the wallet does not exist.
    pub fn can_sign(&self, wallet_id: &str, msg: &str, public_key: &Result<WalletPublicKey, String>) -> (r: bool)
        requires
            self.wf(),
        ensures
            r == match public_key {
                Err(_) => false,
                Ok(k) => self@.wallets.contains_key(wallet_id@)
                    && signable(self@.wallets[wallet_id@], message_encryption(k@, wallet_id.spec_bytes(), match hex_message(msg) {
                        Some(m) => m,
                        None => Seq::empty(),
                    })),
            },
    {
        let decoded = match hex_decode(msg) {
            Some(b) => b,
            None => Vec::new(),
        };
        let encrypted = match encrypt_message_with_vetkeys(&decoded, wallet_id, public_key) {
            Ok(e) => e,
            Err(_) => return false,
        };
        match self.wallet(wallet_id) {
            Some(w) => w.can_sign(&encrypted),
            None => false,
        }
    }

    /// Whether a message is hexadecimal text, as every request that takes a
    /// message needs; it can be asked before any key is fetched.
    pub fn is_hex_message(msg: &str) -> (r: bool)
        ensures
            r == (hex_message(msg) is Some),
    {
        hex_decode(msg).is_some()
    }

    /// The wallet with the id: decrypted (see `decrypt_wallet_data`) for a
    /// caller (a principal's bytes) who is a signer when the decryption key
    /// was had and the whole wallet decrypts, otherwise as stored.
    pub fn get_wallet(&self, wallet_id: &str, caller: &[u8], public_key: &Result<WalletPublicKey, String>, decryption_key: &Option<Result<WalletVetKey, String>>) -> (r: Option<Wallet>)
        requires
            self.wf(),
            caller@.len() <= max_principal_len(),
        ensures
            r is Some <==> self@.wallets.contains_key(wallet_id@),
            r matches Some(w) ==> w@.threshold == self@.wallets[wallet_id@].threshold,
            r matches Some(w) ==> w.wf() && w@ == {
                let s = self.stored(wallet_id@);
                if s.decrypts_for(caller@, wallet_id.spec_bytes(), key_outcome(public_key), vetkey_outcome(decryption_key)) {
                    decrypted_wallet(vetkey_outcome(decryption_key)->Some_0->Ok_0, s.signers_list(), s@.threshold, s.queue_list(), s.metadata_list())
                } else {
                    s@
                }
            },
    {
        let w = match self.wallet(wallet_id) {
            Some(w) => w,
            None => return None,
        };
        if w.has_signer(caller, wallet_id, public_key) {
            if let Some(key) = decryption_key {
                let signers = w.get_signers();
                let queue = w.get_encrypted_messages_with_signers();
                let metadata = w.get_all_metadata();
                let threshold = w.get_default_threshold();
                match decrypt_wallet_data(&signers, &threshold, &queue, &metadata, key) {
                    Ok(d) => {
                        return Some(d);
                    },
                    Err(_) => {
                        return Some(w.duplicate());
                    },
                }
            }
        }
        Some(w.duplicate())
    }

    /// The messages of a wallet that can be signed, as hex texts: their
    /// plaintexts for a caller who is a signer when the decryption key was had
    /// and all decrypt, otherwise the stored ciphertexts.
    pub fn get_messages_to_sign(&self, wallet_id: &str, caller: &[u8], public_key: &Result<WalletPublicKey, String>, decryption_key: &Option<Result<WalletVetKey, String>>) -> (r: Result<Vec<String>, String>)
        requires
            self.wf(),
            caller@.len() <= max_principal_len(),
        ensures
            !self@.wallets.contains_key(wallet_id@) ==> (r matches Err(e) && e@ == wallet_not_found()),
            self@.wallets.contains_key(wallet_id@) ==> (r matches Ok(v) && v.deep_view() == {
                let s = self.stored(wallet_id@);
                delivered_messages(
                    s.queue_list().map_values(|e: (Seq<u8>, Seq<Seq<char>>)| e.0).filter(|m: Seq<u8>| signable(s@, m)),
                    s.caller_is_signer(caller@, wallet_id.spec_bytes(), key_outcome(public_key)),
                    vetkey_outcome(decryption_key),
                ).map_values(|m: Seq<u8>| hex_encoding(m))
            }),
    {
        let w = match self.wallet(wallet_id) {
            Some(w) => w,
            None => return Err(text("WalletNotFound")),
        };
        let messages = match w.get_messages_to_sign(caller, wallet_id, public_key, decryption_key) {
            Ok(m) => m,
            Err(e) => return Err(e),
        };
        Ok(hex_all(&messages))
    }

    /// The messages queued in a wallet, as hex texts: their plaintexts for a
    /// caller who is a signer when the decryption key was had and all
    /// decrypt, otherwise the stored ciphertexts.
    pub fn get_proposed_messages(&self, wallet_id: &str, caller: &[u8], public_key: &Result<WalletPublicKey, String>, decryption_key: &Option<Result<WalletVetKey, String>>) -> (r: Result<Vec<String>, String>)
        requires
            self.wf(),
            caller@.len() <= max_principal_len(),
        ensures
            !self@.wallets.contains_key(wallet_id@) ==> (r matches Err(e) && e@ == wallet_not_found()),
            self@.wallets.contains_key(wallet_id@) ==> (r matches Ok(v) && v.deep_view() == {
                let s = self.stored(wallet_id@);
                delivered_messages(
                    s.queue_list().map_values(|e: (Seq<u8>, Seq<Seq<char>>)| e.0),
                    s.caller_is_signer(caller@, wallet_id.spec_bytes(), key_outcome(public_key)),
                    vetkey_outcome(decryption_key),
                ).map_values(|m: Seq<u8>| hex_encoding(m))
            }),
    {
        let w = match self.wallet(wallet_id) {
            Some(w) => w,
            None => return Err(text("WalletNotFound")),
        };
        let messages = match w.get_proposed_messages(caller, wallet_id, public_key, decryption_key) {
            Ok(m) => m,
            Err(e) => return Err(e),
        };
        Ok(hex_all(&messages))
    }

    /// The queue of a wallet with the approvers of each message, messages as
    /// hex texts: decrypted for a caller who is a signer when the decryption
    /// key was had and the whole wallet decrypts, otherwise as stored.
    pub fn get_messages_with_signers(&self, wallet_id: &str, caller: &[u8], public_key: &Result<WalletPublicKey, String>, decryption_key: &Option<Result<WalletVetKey, String>>) -> (r: Result<Vec<(String, Vec<String>)>, String>)
        requires
            self.wf(),
            caller@.len() <= max_principal_len(),
        ensures
            !self@.wallets.contains_key(wallet_id@) ==> (r matches Err(e) && e@ == wallet_not_found()),
            self@.wallets.contains_key(wallet_id@) ==> (r matches Ok(v) && exists|entries: Seq<(Seq<u8>, Seq<Seq<char>>)>|
                self.stored(wallet_id@).messages_with_signers_for(caller@, wallet_id.spec_bytes(), key_outcome(public_key), vetkey_outcome(decryption_key), entries)
                && v.deep_view() == #[trigger] hex_entry_texts(entries)),
    {
        let w = match self.wallet(wallet_id) {
            Some(w) => w,
            None => return Err(text("WalletNotFound")),
        };
        let entries = match w.get_messages_with_signers(caller, wallet_id, public_key, decryption_key) {
            Ok(m) => m,
            Err(e) => return Err(e),
        };
        Ok(hex_entries(&entries))
    }

    /// Attaches metadata to a message (hex text) of a wallet as the caller;
    /// see `Wallet::add_metadata`.
    pub fn add_metadata(&mut self, wallet_id: &str, msg: &str, metadata: String, caller: &[u8], public_key: &Result<WalletPublicKey, String>) -> (r: Result<(), String>)
        requires
            old(self).wf(),
            caller@.len() <= max_principal_len(),
        ensures
            final(self).wf(),
            (reply(r), final(self)@) == registry_add_metadata(old(self)@, wallet_id@, hex_message(msg), metadata@, caller@, key_outcome(public_key)),
            r is Ok ==> text_reads_back(metadata@),
    {
        let m = match hex_decode(msg) {
            Some(b) => b,
            None => return Err(text("InvalidMessage")),
        };
        let id = text(wallet_id);
        let i = match self.find(&id) {
            Some(i) => i,
            None => return Err(text("WalletNotFound")),
        };
        let mut w = self.wallets[i].1.duplicate();
        match w.add_metadata(m, metadata, caller, wallet_id, public_key) {
            Ok(()) => {
                self.store(id, w);
                Ok(())
            },
            Err(e) => Err(e),
        }
    }

    /// The metadata of a message (hex text) of a wallet, decrypted, for a
    /// caller who is a signer; see `Wallet::get_metadata`.
    pub fn get_metadata(&self, wallet_id: &str, msg: &str, caller: &[u8], public_key: &Result<WalletPublicKey, String>, decryption_key: &Option<Result<WalletVetKey, String>>) -> (r: Result<String, String>)
        requires
            self.wf(),
            caller@.len() <= max_principal_len(),
        ensures
            match hex_message(msg) {
                None => r matches Err(e) && e@ == invalid_message(),
                Some(m) => if !self@.wallets.contains_key(wallet_id@) {
                    r matches Err(e) && e@ == wallet_not_found()
                } else {
                    let w = self@.wallets[wallet_id@];
                    match encrypted_call(key_outcome(public_key), wallet_id.spec_bytes(), caller@, m) {
                        Some((signer, em)) => if w.signers.contains(signer) && w.metadata.contains_key(em) {
                            match decryption_key {
                                Some(Ok(k)) => match metadata_decryption(k@, encode_utf8(w.metadata[em])) {
                                    Ok(t) => r matches Ok(x) && x@ == t,
                                    Err(_) => r matches Err(e) && e@ == metadata_not_found(),
                                },
                                _ => r matches Err(e) && e@ == metadata_not_found(),
                            }
                        } else {
                            r matches Err(e) && e@ == metadata_not_found()
                        },
                        None => r matches Err(e) && e@ == metadata_not_found(),
                    }
                },
            },
    {
        let m = match hex_decode(msg) {
            Some(b) => b,
            None => return Err(text("InvalidMessage")),
        };
        let w = match self.wallet(wallet_id) {
            Some(w) => w,
            None => return Err(text("WalletNotFound")),
        };
        match w.get_metadata(m, caller, wallet_id, public_key, decryption_key) {
            Some(t) => Ok(t),
            None => Err(text("MetadataNotFound")),
        }
    }

    /// Proposes a message (hex text) and then attaches metadata to it.
    pub fn propose_with_metadata(&mut self, wallet_id: &str, msg: &str, metadata: String, caller: &[u8], public_key: &Result<WalletPublicKey, String>) -> (r: Result<(), String>)
        requires
            old(self).wf(),
            caller@.len() <= max_principal_len(),
        ensures
            final(self).wf(),
            (reply(r), final(self)@) == registry_propose_with_metadata(old(self)@, wallet_id@, hex_message(msg), metadata@, caller@, key_outcome(public_key)),
            r is Ok ==> text_reads_back(metadata@),
    {
        match self.propose(wallet_id, msg, caller, public_key) {
            Ok(()) => {},
            Err(e) => {
                return Err(e);
            },
        }
        self.add_metadata(wallet_id, msg, metadata, caller, public_key)
    }

    /// Proposes adding a signer (a principal's bytes) to a wallet; on success
    /// the reply is the proposed message's hex text.
    pub fn propose_add_signer(&mut self, wallet_id: &str, new_signer: &[u8], caller: &[u8], public_key: &Result<WalletPublicKey, String>) -> (r: Result<String, String>)
        requires
            old(self).wf(),
            caller@.len() <= max_principal_len(),
            new_signer@.len() <= max_principal_len(),
        ensures
            final(self).wf(),
            ({
                let m = add_signer_tag() + encode_utf8(principal_text(new_signer@));
                (text_reply(r), final(self)@) == reply_with(registry_propose(old(self)@, wallet_id@, Some(m), caller@, key_outcome(public_key)), hex_encoding(m))
            }),
    {
        let message = add_signer_message(new_signer);
        proof {
            lemma_hex_roundtrip(add_signer_tag() + encode_utf8(principal_text(new_signer@)));
        }
        self.propose_special(wallet_id, message, caller, public_key)
    }

    /// Proposes removing a signer (a principal's bytes) from a wallet; on
    /// success the reply is the proposed message's hex text.
    pub fn propose_remove_signer(&mut self, wallet_id: &str, signer: &[u8], caller: &[u8], public_key: &Result<WalletPublicKey, String>) -> (r: Result<String, String>)
        requires
            old(self).wf(),
            caller@.len() <= max_principal_len(),
            signer@.len() <= max_principal_len(),
        ensures
            final(self).wf(),
            ({
                let m = remove_signer_tag() + encode_utf8(principal_text(signer@));
                (text_reply(r), final(self)@) == reply_with(registry_propose(old(self)@, wallet_id@, Some(m), caller@, key_outcome(public_key)), hex_encoding(m))
            }),
    {
        let message = remove_signer_message(signer);
        proof {
            lemma_hex_roundtrip(remove_signer_tag() + encode_utf8(principal_text(signer@)));
        }
        self.propose_special(wallet_id, message, caller, public_key)
    }

    /// Proposes a new threshold for a wallet; on success the reply is the
    /// proposed message's hex text.
    pub fn propose_set_threshold(&mut self, wallet_id: &str, new_threshold: u8, caller: &[u8], public_key: &Result<WalletPublicKey, String>) -> (r: Result<String, String>)
        requires
            old(self).wf(),
            caller@.len() <= max_principal_len(),
        ensures
            final(self).wf(),
            ({
                let m = set_threshold_tag() + decimal_text(new_threshold as nat);
                (text_reply(r), final(self)@) == reply_with(registry_propose(old(self)@, wallet_id@, Some(m), caller@, key_outcome(public_key)), hex_encoding(m))
            }),
    {
        let message = set_threshold_message(new_threshold);
        proof {
            lemma_hex_roundtrip(set_threshold_tag() + decimal_text(new_threshold as nat));
        }
        self.propose_special(wallet_id, message, caller, public_key)
    }

    /// Proposes a transfer of an amount (in e8s) to a principal (its bytes);
    /// on success the reply is the proposed message's hex text.
    pub fn propose_transfer(&mut self, wallet_id: &str, amount: u64, to_principal: &[u8], caller: &[u8], public_key: &Result<WalletPublicKey, String>) -> (r: Result<String, String>)
        requires
            old(self).wf(),
            caller@.len() <= max_principal_len(),
            to_principal@.len() <= max_principal_len(),
        ensures
            final(self).wf(),
            ({
                let m = transfer_tag() + decimal_text(amount as nat) + separator() + encode_utf8(principal_text(to_principal@));
                (text_reply(r), final(self)@) == reply_with(registry_propose(old(self)@, wallet_id@, Some(m), caller@, key_outcome(public_key)), hex_encoding(m))
            }),
    {
        let message = transfer_message(amount, to_principal);
        proof {
            lemma_hex_roundtrip(transfer_tag() + decimal_text(amount as nat) + separator() + encode_utf8(principal_text(to_principal@)));
        }
        self.propose_special(wallet_id, message, caller, public_key)
    }

    fn propose_special(&mut self, wallet_id: &str, message: String, caller: &[u8], public_key: &Result<WalletPublicKey, String>) -> (r: Result<String, String>)
        requires
            old(self).wf(),
            caller@.len() <= max_principal_len(),
        ensures
            final(self).wf(),
            (text_reply(r), final(self)@) == reply_with(registry_propose(old(self)@, wallet_id@, hex_decoding(encode_utf8(message@)), caller@, key_outcome(public_key)), message@),
    {
        match self.propose(wallet_id, message.as_str(), caller, public_key) {
            Ok(()) => Ok(message),
            Err(e) => Err(e),
        }
    }

    /// The first part of signing a message (hex text) with a wallet, before
    /// any signature is made: the message must decode, be encrypted under
    /// the wallet's public key (the outcome of fetching it is `public_key`)
    /// and have enough approvals; then a set-threshold command in it is
    /// carried out, and the command is handed back for the rest. Every other
    /// outcome is a refusal with an error text that leaves the state as it
    /// was: an unknown wallet, a threshold above the number of signers, or a
    /// transfer that cannot be read.
    pub fn sign_prepare(&mut self, wallet_id: &str, msg: &str, public_key: &Result<WalletPublicKey, String>) -> (r: SignStep)
        requires
            old(self).wf(),
        ensures
            final(self).wf(),
            match hex_message(msg) {
                None => r matches SignStep::Refused(e) && e@ == invalid_message() && final(self)@ == old(self)@,
                Some(m) => match key_outcome(public_key) {
                    Err(_) => r matches SignStep::Refused(e) && e@ == "EncryptionError"@ && final(self)@ == old(self)@,
                    Ok(k) => if !old(self)@.wallets.contains_key(wallet_id@) {
                        r matches SignStep::Refused(e) && e@ == wallet_not_found() && final(self)@ == old(self)@
                    } else if !signable(old(self)@.wallets[wallet_id@], message_encryption(k, wallet_id.spec_bytes(), m)) {
                        r matches SignStep::Refused(e) && e@ == wallet_cannot_sign() && final(self)@ == old(self)@
                    } else {
                        match command_effect(old(self)@.wallets[wallet_id@], command_of(m)) {
                            Err(t) => r matches SignStep::Refused(e) && e@ == t && final(self)@ == old(self)@,
                            Ok(w) => r matches SignStep::Proceed(b, c) && b@ == m && c@ == command_of(m)
                                && final(self)@ == (RegistryView { wallets: old(self)@.wallets.insert(wallet_id@, w), ..old(self)@ }),
                        }
                    },
                },
            },
            signing_ready(old(self)@, wallet_id@, msg, key_outcome(public_key)) ==> match command_of(hex_message(msg)->0) {
                CommandView::SetThreshold(Some(t)) => {
                    &&& (r is Proceed <==> old(self)@.wallets[wallet_id@].signers.len() >= t)
                    &&& r is Proceed ==> final(self)@.wallets[wallet_id@] == (WalletView { threshold: t, ..old(self)@.wallets[wallet_id@] })
                        && final(self)@.wallets.dom() == old(self)@.wallets.dom()
                    &&& r is Refused ==> final(self)@ == old(self)@
                },
                CommandView::Transfer(amount, to) => r matches SignStep::Proceed(b, c) && c@ == CommandView::Transfer(amount, to)
                    && b@ == hex_message(msg)->0 && final(self)@ == old(self)@,
                _ => true,
            },
            r matches SignStep::Proceed(_, SignCommand::AddSigner(Some(p))) ==> p@.len() <= max_principal_len(),
            r matches SignStep::Proceed(_, SignCommand::RemoveSigner(Some(p))) ==> p@.len() <= max_principal_len(),
            r matches SignStep::Proceed(_, SignCommand::Transfer(args)) ==> args.to_principal@.len() <= max_principal_len(),
    {
        let m = match hex_decode(msg) {
            Some(b) => b,
            None => return SignStep::Refused(text("InvalidMessage")),
        };
        let encrypted = match encrypt_message_with_vetkeys(&m, wallet_id, public_key) {
            Ok(e) => e,
            Err(_) => return SignStep::Refused(text("EncryptionError")),
        };
        let id = text(wallet_id);
        let i = match self.find(&id) {
            Some(i) => i,
            None => return SignStep::Refused(text("WalletNotFound")),
        };
        if !self.wallets[i].1.can_sign(&encrypted) {
            return SignStep::Refused(text("WalletCannotSign"));
        }
        let command = parse_sign_command(m.as_slice());
        let ghost before = self@;
        match &command {
            SignCommand::SetThreshold(Some(t)) => {
                let mut w = self.wallets[i].1.duplicate();
                if w.set_default_threshold(*t).is_err() {
                    return SignStep::Refused(text("WalletSignersNotMatchThreshold"));
                }
                self.store(id, w);
            },
            SignCommand::MalformedTransfer => {
                return SignStep::Refused(text("InvalidTransfer"));
            },
            _ => {
                assert(before.wallets.insert(wallet_id@, before.wallets[wallet_id@]) =~= before.wallets);
                assert(before == (RegistryView { wallets: before.wallets.insert(wallet_id@, before.wallets[wallet_id@]), ..before }));
            },
        }
        SignStep::Proceed(m, command)
    }

    /// Carries out a signed add-signer command: the principal (its bytes),
    /// encrypted under the wallet's public key, becomes a signer and is
    /// recorded as one.
    pub fn sign_add_signer(&mut self, wallet_id: &str, signer: &[u8], public_key: &Result<WalletPublicKey, String>)
        requires
            old(self).wf(),
            signer@.len() <= max_principal_len(),
        ensures
            final(self).wf(),
            final(self)@ == signer_added(old(self)@, wallet_id@, signer@, key_outcome(public_key)),
    {
        let id = text(wallet_id);
        let i = match self.find(&id) {
            Some(i) => i,
            None => return,
        };
        let mut w = self.wallets[i].1.duplicate();
        if w.add_signer(signer, wallet_id, public_key).is_ok() {
            let ghost before = self@;
            self.store(id.clone(), w);
            self.add_principal_wallet(signer, &id);
            proof {
                let one = seq![signer@];
                assert(one.drop_last() =~= Seq::<Seq<u8>>::empty());
                assert(add_wallet_to_principals(before.principal_wallets, one.drop_last(), wallet_id@) == before.principal_wallets);
            }
        }
    }

    /// Carries out a signed remove-signer command: the principal (its
    /// bytes), encrypted under the wallet's public key, stops being a signer
    /// and the wallet leaves its list.
    pub fn sign_remove_signer(&mut self, wallet_id: &str, signer: &[u8], public_key: &Result<WalletPublicKey, String>)
        requires
            old(self).wf(),
            signer@.len() <= max_principal_len(),
        ensures
            final(self).wf(),
            final(self)@ == signer_removed(old(self)@, wallet_id@, signer@, key_outcome(public_key)),
    {
        let id = text(wallet_id);
        let i = match self.find(&id) {
            Some(i) => i,
            None => return,
        };
        let mut w = self.wallets[i].1.duplicate();
        if w.remove_signer(signer, wallet_id, public_key).is_ok() {
            self.store(id.clone(), w);
            self.remove_principal_wallet(signer, &id);
        }
    }

    /// The last part of signing: the signed message (its bytes) leaves the
    /// wallet's queue, with its metadata, when the caller (a principal's
    /// bytes) is a signer; nothing is reported when it is not.
    pub fn sign_finish(&mut self, wallet_id: &str, message: &Vec<u8>, caller: &[u8], public_key: &Result<WalletPublicKey, String>) -> (r: Result<(), String>)
        requires
            old(self).wf(),
            caller@.len() <= max_principal_len(),
        ensures
            final(self).wf(),
            !old(self)@.wallets.contains_key(wallet_id@) ==> (r matches Err(e) && e@ == wallet_not_found() && final(self)@ == old(self)@),
            old(self)@.wallets.contains_key(wallet_id@) ==> (r is Ok && final(self)@ == message_retired(old(self)@, wallet_id@, message@, caller@, key_outcome(public_key))),
    {
        let id = text(wallet_id);
        let i = match self.find(&id) {
            Some(i) => i,
            None => return Err(text("WalletNotFound")),
        };
        let mut w = self.wallets[i].1.duplicate();
        let _ = w.remove_message_and_metadata(crate::collections::copy_bytes(message), caller, wallet_id, public_key);
        self.store(id, w);
        Ok(())
    }

    /// The ids of the wallets that a principal was made a signer of, each once.
    pub fn get_wallets_for_principal(&self, principal: &[u8]) -> (ids: Vec<String>)
        requires
            self.wf(),
        ensures
            ids.deep_view().no_duplicates(),
            ids.deep_view().to_set() == if self@.principal_wallets.contains_key(principal@) {
                self@.principal_wallets[principal@]
            } else {
                Set::<Seq<char>>::empty()
            },
    {
        match self.principal_wallets.get(principal) {
            Some(list) => {
                let set = TextSet::from_vec(copy_texts(list));
                proof {
                    set.lemma_items();
                }
                set.to_vec()
            },
            None => {
                let v: Vec<String> = Vec::new();
                assert(v.deep_view().to_set() =~= Set::<Seq<char>>::empty());
                v
            },
        }
    }
}

/// The hex texts of a list of byte strings.
fn hex_all(v: &Vec<Vec<u8>>) -> (r: Vec<String>)
    ensures
        r.deep_view() == v@.map_values(|m: Vec<u8>| m@).map_values(|m: Seq<u8>| hex_encoding(m)),
{
    let mut r: Vec<String> = Vec::new();
    let mut i: usize = 0;
    while i < v.len()
        invariant
            i <= v@.len(),
            r@.len() == i,
            forall|j: int| 0 <= j < i ==> (#[trigger] r@[j])@ == hex_encoding(v@[j]@),
        decreases v@.len() - i,
    {
        r.push(hex_encode(v[i].as_slice()));
        i = i + 1;
    }
    assert(r.deep_view() =~= v@.map_values(|m: Vec<u8>| m@).map_values(|m: Seq<u8>| hex_encoding(m)));
    r
}

/// Queue entries with each message as its hex text.
pub open spec fn hex_entry_texts(entries: Seq<(Seq<u8>, Seq<Seq<char>>)>) -> Seq<(Seq<char>, Seq<Seq<char>>)> {
    entries.map_values(|e: (Seq<u8>, Seq<Seq<char>>)| (hex_encoding(e.0), e.1))
}

/// Queue entries with each message as its hex text.
fn hex_entries(v: &Vec<(Vec<u8>, Vec<String>)>) -> (r: Vec<(String, Vec<String>)>)
    ensures
        r.deep_view() == hex_entry_texts(entries_view_of(v@)),
{
    let mut r: Vec<(String, Vec<String>)> = Vec::new();
    let mut i: usize = 0;
    while i < v.len()
        invariant
            i <= v@.len(),
            r@.len() == i,
            forall|j: int| 0 <= j < i ==> (#[trigger] r@[j]).0@ == hex_encoding(v@[j].0@) && r@[j].1.deep_view() == v@[j].1.deep_view(),
        decreases v@.len() - i,
    {
        r.push((hex_encode(v[i].0.as_slice()), copy_texts(&v[i].1)));
        i = i + 1;
    }
    assert(r.deep_view() =~= hex_entry_texts(entries_view_of(v@)));
    r
}

fn propose_error(e: WalletError) -> (t: String)
    ensures
        t@ == propose_error_text(e),
{
    match e {
        WalletError::InvalidSignature => text("WalletInvalidSignature"),
        WalletError::MsgAlreadyQueued => text("WalletMsgAlreadyQueued"),
        WalletError::EncryptionError => text("EncryptionError"),
        _ => text("UnknownError"),
    }
}

fn approve_error(e: WalletError) -> (t: String)
    ensures
        t@ == approve_error_text(e),
{
    match e {
        WalletError::MsgNotQueued => text("WalletMsgNotQueued"),
        WalletError::InvalidSignature => text("WalletInvalidSignature"),
        WalletError::MsgAlreadySignedBySigner => text("WalletMsgAlreadySignedBySigner"),
        _ => text("UnknownError"),
    }
}

} // verus!
