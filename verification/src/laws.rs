//! Properties that hold across the operations of a wallet and of the
//! service: what every step keeps, what a refused request leaves alone, and
//! what a sequence of requests leads to.

use crate::codec::{hex_encoding, lemma_hex_roundtrip};
use crate::crypto::{candid_principal_args, candid_text_args, ibe_ciphertext, ibe_plaintext, opens};
use crate::privacy::{
    decrypted_queue_entries, decrypted_wallet, message_decryption, message_encryption, metadata_decryption, metadata_encryption, principal_decryption, principal_encryption,
    principal_reads_back, queued_message_decryption, text_reads_back,
};
use crate::vetkey::seed_of;
use crate::collections::pairs_map;
use crate::registry::{
    add_wallet_to_principals, command_effect, message_retired, new_wallet_view, registry_add_metadata, registry_approve,
    registry_propose, signer_added, signer_removed, RegistryView,
};
use crate::wallet::{
    add_metadata_step, approve_step, delivered_messages, encrypted_call, plaintexts_owed, propose_step, remove_step, signable, WalletError,
    WalletView,
};
use crate::command::CommandView;
use vstd::prelude::*;
use vstd::utf8::encode_utf8;

verus! {

/// Whether no signer appears twice among the approvals of any queued message.
pub open spec fn approvals_distinct(w: WalletView) -> bool {
    forall|m: Seq<u8>| #[trigger] w.queue.contains_key(m) ==> w.queue[m].no_duplicates()
}

/// Whether only queued messages carry metadata.
pub open spec fn metadata_queued(w: WalletView) -> bool {
    forall|m: Seq<u8>| #[trigger] w.metadata.contains_key(m) ==> w.queue.contains_key(m)
}

/// The invariant of a wallet: approvals do not repeat and metadata belongs
/// to queued messages.
pub open spec fn wallet_consistent(w: WalletView) -> bool {
    approvals_distinct(w) && metadata_queued(w)
}

/// The invariant of the service: every wallet it holds is consistent.
pub open spec fn registry_consistent(s: RegistryView) -> bool {
    forall|id: Seq<char>| #[trigger] s.wallets.contains_key(id) ==> wallet_consistent(s.wallets[id])
}

/// A new wallet is consistent, and every operation on a wallet keeps it
/// consistent: proposing, approving, attaching metadata, removing a message,
/// setting the threshold, adding or removing a signer.
pub proof fn law_wallet_steps_keep_consistency(
    w: WalletView,
    signer: Seq<char>,
    message: Seq<u8>,
    metadata: Result<Seq<char>, Seq<char>>,
    threshold: u8,
    other: Seq<char>,
)
    requires
        wallet_consistent(w),
    ensures
        wallet_consistent(new_wallet_view(w.signers, threshold)),
        wallet_consistent(propose_step(w, signer, message).1),
        wallet_consistent(approve_step(w, signer, message).1),
        wallet_consistent(add_metadata_step(w, signer, message, metadata).1),
        wallet_consistent(remove_step(w, signer, message).1),
        wallet_consistent(WalletView { threshold, ..w }),
        wallet_consistent(WalletView { signers: w.signers.insert(other), ..w }),
        wallet_consistent(WalletView { signers: w.signers.remove(other), ..w }),
{
    let p = propose_step(w, signer, message).1;
    assert forall|m: Seq<u8>| #[trigger] p.queue.contains_key(m) implies p.queue[m].no_duplicates() by {
        if m != message || w.queue.contains_key(message) || !w.signers.contains(signer) {
            assert(w.queue.contains_key(m));
        }
    }
    let a = approve_step(w, signer, message).1;
    assert forall|m: Seq<u8>| #[trigger] a.queue.contains_key(m) implies a.queue[m].no_duplicates() by {
        assert(w.queue.contains_key(m));
        if m == message && w.signers.contains(signer) && !w.queue[message].contains(signer) {
            let q = w.queue[message];
            assert forall|i: int, j: int| 0 <= i < j < q.push(signer).len() implies q.push(signer)[i] != q.push(signer)[j] by {
                if j == q.len() {
                    assert(q[i] == q.push(signer)[i]);
                }
            }
        }
    }
    let d = add_metadata_step(w, signer, message, metadata).1;
    assert forall|m: Seq<u8>| #[trigger] d.metadata.contains_key(m) implies d.queue.contains_key(m) by {
        if m != message {
            assert(w.metadata.contains_key(m));
        }
    }
    let r = remove_step(w, signer, message).1;
    assert forall|m: Seq<u8>| #[trigger] r.metadata.contains_key(m) implies r.queue.contains_key(m) by {
        assert(w.metadata.contains_key(m));
    }
    assert forall|m: Seq<u8>| #[trigger] r.queue.contains_key(m) implies r.queue[m].no_duplicates() by {
        assert(w.queue.contains_key(m));
    }
}

/// Every request to the service keeps every wallet it holds consistent:
/// creating a wallet, proposing, approving, attaching metadata, and each
/// part of signing (carrying out a command, adding or removing a signer,
/// taking the signed message out of the queue).
pub proof fn law_service_keeps_consistency(
    s: RegistryView,
    wallet_id: Seq<char>,
    message: Option<Seq<u8>>,
    metadata: Seq<char>,
    caller: Seq<u8>,
    public_key: Result<Seq<u8>, ()>,
    signers: Set<Seq<char>>,
    threshold: u8,
    command: CommandView,
    principal: Seq<u8>,
    signed: Seq<u8>,
)
    requires
        registry_consistent(s),
    ensures
        registry_consistent(RegistryView { wallets: s.wallets.insert(wallet_id, new_wallet_view(signers, threshold)), ..s }),
        registry_consistent(registry_propose(s, wallet_id, message, caller, public_key).1),
        registry_consistent(registry_approve(s, wallet_id, message, caller, public_key).1),
        registry_consistent(registry_add_metadata(s, wallet_id, message, metadata, caller, public_key).1),
        s.wallets.contains_key(wallet_id) && command_effect(s.wallets[wallet_id], command) is Ok ==>
            registry_consistent(RegistryView { wallets: s.wallets.insert(wallet_id, command_effect(s.wallets[wallet_id], command)->Ok_0), ..s }),
        registry_consistent(signer_added(s, wallet_id, principal, public_key)),
        registry_consistent(signer_removed(s, wallet_id, principal, public_key)),
        registry_consistent(message_retired(s, wallet_id, signed, caller, public_key)),
{
    let id = encode_utf8(wallet_id);
    let fresh = new_wallet_view(signers, threshold);
    assert(wallet_consistent(fresh));
    if s.wallets.contains_key(wallet_id) {
        let w = s.wallets[wallet_id];
        assert(wallet_consistent(w));
        if let Some(m) = message {
            if let Some((sg, em)) = encrypted_call(public_key, id, caller, m) {
                law_wallet_steps_keep_consistency(w, sg, em, Err(Seq::empty()), 0, Seq::empty());
                if let Ok(k) = public_key {
                    law_wallet_steps_keep_consistency(w, sg, em, metadata_encryption(k, id, metadata), 0, Seq::empty());
                }
            }
        }
        match command {
            CommandView::SetThreshold(Some(t)) => {
                law_wallet_steps_keep_consistency(w, Seq::empty(), Seq::empty(), Err(Seq::empty()), t, Seq::empty());
            },
            _ => {},
        }
        if let Ok(k) = public_key {
            if let Ok(e) = crate::privacy::principal_encryption(k, id, principal) {
                law_wallet_steps_keep_consistency(w, Seq::empty(), Seq::empty(), Err(Seq::empty()), 0, e);
            }
        }
        if let Some((sg, em)) = encrypted_call(public_key, id, caller, signed) {
            law_wallet_steps_keep_consistency(w, sg, em, Err(Seq::empty()), 0, Seq::empty());
        }
    }
}

/// A message that can be signed has at least as many different approvers as
/// the threshold asks for.
pub proof fn law_signable_has_threshold_approvers(w: WalletView, message: Seq<u8>)
    requires
        approvals_distinct(w),
        signable(w, message),
    ensures
        w.queue[message].to_set().len() >= w.threshold,
{
    w.queue[message].unique_seq_to_set();
}

/// A request that the service refuses changes nothing.
pub proof fn law_refusal_changes_nothing(
    s: RegistryView,
    wallet_id: Seq<char>,
    message: Option<Seq<u8>>,
    metadata: Seq<char>,
    caller: Seq<u8>,
    public_key: Result<Seq<u8>, ()>,
)
    ensures
        registry_propose(s, wallet_id, message, caller, public_key).0 is Err ==> registry_propose(s, wallet_id, message, caller, public_key).1 == s,
        registry_approve(s, wallet_id, message, caller, public_key).0 is Err ==> registry_approve(s, wallet_id, message, caller, public_key).1 == s,
        registry_add_metadata(s, wallet_id, message, metadata, caller, public_key).0 is Err
            ==> registry_add_metadata(s, wallet_id, message, metadata, caller, public_key).1 == s,
{
}

/// A message can be proposed once: proposing it again, as the same caller,
/// is refused as already queued.
pub proof fn law_propose_once(s: RegistryView, wallet_id: Seq<char>, message: Seq<u8>, caller: Seq<u8>, public_key: Result<Seq<u8>, ()>)
    requires
        registry_propose(s, wallet_id, Some(message), caller, public_key).0 is Ok,
    ensures
        ({
            let s1 = registry_propose(s, wallet_id, Some(message), caller, public_key).1;
            registry_propose(s1, wallet_id, Some(message), caller, public_key) == (Err::<(), Seq<char>>("WalletMsgAlreadyQueued"@), s1)
        }),
{
}

/// A caller approves a message once: approving it again is refused as
/// already signed by that signer.
pub proof fn law_approve_once(s: RegistryView, wallet_id: Seq<char>, message: Seq<u8>, caller: Seq<u8>, public_key: Result<Seq<u8>, ()>)
    requires
        registry_approve(s, wallet_id, Some(message), caller, public_key).0 is Ok,
    ensures
        ({
            let s1 = registry_approve(s, wallet_id, Some(message), caller, public_key).1;
            registry_approve(s1, wallet_id, Some(message), caller, public_key) == (Err::<u8, Seq<char>>("WalletMsgAlreadySignedBySigner"@), s1)
        }),
{
    let id = encode_utf8(wallet_id);
    let (sg, em) = encrypted_call(public_key, id, caller, message)->0;
    let s1 = registry_approve(s, wallet_id, Some(message), caller, public_key).1;
    assert(s1.wallets[wallet_id].queue[em] == s.wallets[wallet_id].queue[em].push(sg));
    assert(s1.wallets[wallet_id].queue[em].last() == sg);
}

/// An approval adds the caller to the message's approvers and reports their
/// number (in a byte); the message can then be signed exactly when that
/// number reaches the threshold.
pub proof fn law_approval_counts(s: RegistryView, wallet_id: Seq<char>, message: Seq<u8>, caller: Seq<u8>, public_key: Result<Seq<u8>, ()>)
    requires
        registry_approve(s, wallet_id, Some(message), caller, public_key).0 is Ok,
    ensures
        ({
            let (r, s1) = registry_approve(s, wallet_id, Some(message), caller, public_key);
            let (sg, em) = encrypted_call(public_key, encode_utf8(wallet_id), caller, message)->0;
            let before = s.wallets[wallet_id].queue[em];
            let after = s1.wallets[wallet_id].queue[em];
            &&& after == before.push(sg)
            &&& r == Ok::<u8, Seq<char>>((after.len() % 256) as u8)
            &&& s1.wallets[wallet_id].threshold == s.wallets[wallet_id].threshold
            &&& (signable(s1.wallets[wallet_id], em) <==> before.len() + 1 >= s.wallets[wallet_id].threshold)
        }),
{
}

/// A freshly proposed message has no approvals: it cannot be signed while
/// the wallet's threshold is above zero.
pub proof fn law_fresh_proposal_not_signable(s: RegistryView, wallet_id: Seq<char>, message: Seq<u8>, caller: Seq<u8>, public_key: Result<Seq<u8>, ()>)
    requires
        registry_propose(s, wallet_id, Some(message), caller, public_key).0 is Ok,
    ensures
        ({
            let s1 = registry_propose(s, wallet_id, Some(message), caller, public_key).1;
            let call = encrypted_call(public_key, encode_utf8(wallet_id), caller, message)->0;
            let em = call.1;
            &&& s1.wallets[wallet_id].queue[em] == Seq::<Seq<char>>::empty()
            &&& (signable(s1.wallets[wallet_id], em) <==> s.wallets[wallet_id].threshold == 0)
        }),
{
}

/// Metadata is attached once: after it is attached, attaching metadata to
/// the same message again is refused and changes nothing.
pub proof fn law_metadata_set_once(
    s: RegistryView,
    wallet_id: Seq<char>,
    message: Seq<u8>,
    metadata: Seq<char>,
    again: Seq<char>,
    caller: Seq<u8>,
    public_key: Result<Seq<u8>, ()>,
)
    requires
        registry_add_metadata(s, wallet_id, Some(message), metadata, caller, public_key).0 is Ok,
    ensures
        ({
            let s1 = registry_add_metadata(s, wallet_id, Some(message), metadata, caller, public_key).1;
            registry_add_metadata(s1, wallet_id, Some(message), again, caller, public_key)
                == (Err::<(), Seq<char>>("Metadata already exists for this message"@), s1)
        }),
{
}

/// Once a signed message is taken out by a caller who is a signer, neither
/// it nor its metadata remains, and every other message keeps its approvals
/// and metadata.
pub proof fn law_retired_message_is_gone(s: RegistryView, wallet_id: Seq<char>, message: Seq<u8>, caller: Seq<u8>, public_key: Result<Seq<u8>, ()>)
    requires
        s.wallets.contains_key(wallet_id),
        encrypted_call(public_key, encode_utf8(wallet_id), caller, message) is Some,
        s.wallets[wallet_id].signers.contains((encrypted_call(public_key, encode_utf8(wallet_id), caller, message)->0).0),
    ensures
        ({
            let call = encrypted_call(public_key, encode_utf8(wallet_id), caller, message)->0;
            let em = call.1;
            let w = s.wallets[wallet_id];
            let w1 = message_retired(s, wallet_id, message, caller, public_key).wallets[wallet_id];
            &&& !w1.queue.contains_key(em)
            &&& !w1.metadata.contains_key(em)
            &&& forall|m: Seq<u8>| m != em ==> (#[trigger] w1.queue.contains_key(m) <==> w.queue.contains_key(m)) && w1.queue[m] == w.queue[m]
            &&& forall|m: Seq<u8>| m != em ==> (#[trigger] w1.metadata.contains_key(m) <==> w.metadata.contains_key(m)) && w1.metadata[m] == w.metadata[m]
            &&& w1.signers == w.signers && w1.threshold == w.threshold
        }),
{
}

/// A message is signed once: after a signer takes it out of the queue, it
/// can no longer be signed, whatever its approvals were.
pub proof fn law_signed_message_leaves_the_queue(s: RegistryView, wallet_id: Seq<char>, message: Seq<u8>, caller: Seq<u8>, public_key: Result<Seq<u8>, ()>)
    requires
        s.wallets.contains_key(wallet_id),
        public_key is Ok,
        encrypted_call(public_key, encode_utf8(wallet_id), caller, message) is Some,
        s.wallets[wallet_id].signers.contains((encrypted_call(public_key, encode_utf8(wallet_id), caller, message)->0).0),
    ensures
        !signable(
            message_retired(s, wallet_id, message, caller, public_key).wallets[wallet_id],
            message_encryption(public_key->Ok_0, encode_utf8(wallet_id), message),
        ),
{
}

/// Creating a wallet records it in the list of each of its signers and
/// leaves the lists of other principals as they were.
pub proof fn law_creation_lists_wallet(pw: Map<Seq<u8>, Set<Seq<char>>>, principals: Seq<Seq<u8>>, wallet_id: Seq<char>, p: Seq<u8>)
    ensures
        principals.contains(p) ==> add_wallet_to_principals(pw, principals, wallet_id).contains_key(p)
            && add_wallet_to_principals(pw, principals, wallet_id)[p].contains(wallet_id),
        !principals.contains(p) ==> (add_wallet_to_principals(pw, principals, wallet_id).contains_key(p) <==> pw.contains_key(p))
            && (pw.contains_key(p) ==> add_wallet_to_principals(pw, principals, wallet_id)[p] == pw[p]),
        pw.contains_key(p) ==> pw[p].subset_of(add_wallet_to_principals(pw, principals, wallet_id)[p]),
    decreases principals.len(),
{
    if principals.len() > 0 {
        let rest = principals.drop_last();
        law_creation_lists_wallet(pw, rest, wallet_id, p);
        if principals.contains(p) && p != principals.last() {
            let i = choose|i: int| 0 <= i < principals.len() && principals[i] == p;
            assert(rest[i] == p);
        }
        if rest.contains(p) {
            let i = choose|i: int| 0 <= i < rest.len() && rest[i] == p;
            assert(principals[i] == p);
        }
    }
}

/// Adding a principal as a signer and then removing it leaves the wallet's
/// signers as they were, when it was not a signer before; and the wallet is
/// then no longer in the principal's list.
pub proof fn law_add_then_remove_signer(s: RegistryView, wallet_id: Seq<char>, principal: Seq<u8>, public_key: Result<Seq<u8>, ()>)
    requires
        s.wallets.contains_key(wallet_id),
        public_key is Ok,
        crate::privacy::principal_encryption(public_key->Ok_0, encode_utf8(wallet_id), principal) is Ok,
        !s.wallets[wallet_id].signers.contains(crate::privacy::principal_encryption(public_key->Ok_0, encode_utf8(wallet_id), principal)->Ok_0),
    ensures
        ({
            let s2 = signer_removed(signer_added(s, wallet_id, principal, public_key), wallet_id, principal, public_key);
            &&& s2.wallets[wallet_id] == s.wallets[wallet_id]
            &&& s2.wallets.dom() == s.wallets.dom()
            &&& s2.principal_wallets.contains_key(principal)
            &&& !s2.principal_wallets[principal].contains(wallet_id)
        }),
{
    let e = crate::privacy::principal_encryption(public_key->Ok_0, encode_utf8(wallet_id), principal)->Ok_0;
    let w = s.wallets[wallet_id];
    let s1 = signer_added(s, wallet_id, principal, public_key);
    let one = seq![principal];
    assert(one.drop_last() =~= Seq::<Seq<u8>>::empty());
    assert(w.signers.insert(e).remove(e) =~= w.signers);
    let s2 = signer_removed(s1, wallet_id, principal, public_key);
    assert(s2.wallets[wallet_id] == WalletView { signers: w.signers.insert(e).remove(e), ..w });
    assert(s2.wallets.dom() =~= s.wallets.dom());
}

/// Seeds derived from a wallet id and data are 32 bytes long.
proof fn lemma_seed_len(wallet_id: Seq<u8>, data: Seq<u8>)
    ensures
        seed_of(wallet_id, data).len() == 32,
{
}

/// Decryption gives back an encrypted principal: under a VetKey that opens
/// the public key's ciphertexts for the wallet id, the encrypted form of a
/// principal (whose Candid encoding reads back) decrypts to the principal.
pub proof fn law_principal_round_trip(vetkey: Seq<u8>, public_key: Seq<u8>, wallet_id: Seq<u8>, principal: Seq<u8>)
    requires
        opens(vetkey, public_key, wallet_id),
        principal_reads_back(principal),
        principal_encryption(public_key, wallet_id, principal) is Ok,
    ensures
        principal_decryption(vetkey, encode_utf8(principal_encryption(public_key, wallet_id, principal)->Ok_0)) == Ok::<Seq<u8>, Seq<char>>(principal),
{
    let args = candid_principal_args(principal)->0;
    let seed = seed_of(wallet_id, principal);
    lemma_seed_len(wallet_id, principal);
    let c = ibe_ciphertext(public_key, wallet_id, args, seed);
    assert(ibe_plaintext(vetkey, c) == Some(args));
    lemma_hex_roundtrip(c);
}

/// Decryption gives back each principal of an encrypted list, in order.
pub proof fn law_principal_list_round_trip(vetkey: Seq<u8>, public_key: Seq<u8>, wallet_id: Seq<u8>, principals: Seq<Seq<u8>>)
    requires
        opens(vetkey, public_key, wallet_id),
        forall|i: int| 0 <= i < principals.len() ==> #[trigger] principal_reads_back(principals[i]),
        forall|i: int| 0 <= i < principals.len() ==> (#[trigger] principal_encryption(public_key, wallet_id, principals[i])) is Ok,
    ensures
        forall|i: int| 0 <= i < principals.len() ==>
            principal_decryption(vetkey, encode_utf8(#[trigger] principal_encryption(public_key, wallet_id, principals[i])->Ok_0))
                == Ok::<Seq<u8>, Seq<char>>(principals[i]),
{
    assert forall|i: int| 0 <= i < principals.len() implies
        principal_decryption(vetkey, encode_utf8(#[trigger] principal_encryption(public_key, wallet_id, principals[i])->Ok_0))
            == Ok::<Seq<u8>, Seq<char>>(principals[i]) by {
        assert(principal_reads_back(principals[i]));
        law_principal_round_trip(vetkey, public_key, wallet_id, principals[i]);
    }
}

/// Different principals have different encrypted forms, wherever a VetKey
/// opens the public key's ciphertexts for the wallet id.
pub proof fn law_distinct_principals_distinct_ciphertexts(vetkey: Seq<u8>, public_key: Seq<u8>, wallet_id: Seq<u8>, p: Seq<u8>, q: Seq<u8>)
    requires
        opens(vetkey, public_key, wallet_id),
        principal_reads_back(p),
        principal_reads_back(q),
        principal_encryption(public_key, wallet_id, p) is Ok,
        principal_encryption(public_key, wallet_id, q) is Ok,
        p != q,
    ensures
        principal_encryption(public_key, wallet_id, p) != principal_encryption(public_key, wallet_id, q),
{
    law_principal_round_trip(vetkey, public_key, wallet_id, p);
    law_principal_round_trip(vetkey, public_key, wallet_id, q);
}

/// Decryption gives back an encrypted message, whether it is read as stored
/// or as hex text.
pub proof fn law_message_round_trip(vetkey: Seq<u8>, public_key: Seq<u8>, wallet_id: Seq<u8>, message: Seq<u8>)
    requires
        opens(vetkey, public_key, wallet_id),
    ensures
        queued_message_decryption(vetkey, message_encryption(public_key, wallet_id, message)) == Ok::<Seq<u8>, Seq<char>>(message),
        message_decryption(vetkey, encode_utf8(hex_encoding(message_encryption(public_key, wallet_id, message)))) == Ok::<Seq<u8>, Seq<char>>(message),
{
    let seed = seed_of(wallet_id, message);
    lemma_seed_len(wallet_id, message);
    let c = ibe_ciphertext(public_key, wallet_id, message, seed);
    assert(ibe_plaintext(vetkey, c) == Some(message));
    lemma_hex_roundtrip(c);
}

/// Different messages have different encrypted forms, wherever a VetKey
/// opens the public key's ciphertexts for the wallet id.
pub proof fn law_distinct_messages_distinct_ciphertexts(vetkey: Seq<u8>, public_key: Seq<u8>, wallet_id: Seq<u8>, m: Seq<u8>, n: Seq<u8>)
    requires
        opens(vetkey, public_key, wallet_id),
        m != n,
    ensures
        message_encryption(public_key, wallet_id, m) != message_encryption(public_key, wallet_id, n),
{
    law_message_round_trip(vetkey, public_key, wallet_id, m);
    law_message_round_trip(vetkey, public_key, wallet_id, n);
}

/// Decryption gives back encrypted metadata (whose Candid encoding reads
/// back).
pub proof fn law_metadata_round_trip(vetkey: Seq<u8>, public_key: Seq<u8>, wallet_id: Seq<u8>, metadata: Seq<char>)
    requires
        opens(vetkey, public_key, wallet_id),
        text_reads_back(metadata),
        metadata_encryption(public_key, wallet_id, metadata) is Ok,
    ensures
        metadata_decryption(vetkey, encode_utf8(metadata_encryption(public_key, wallet_id, metadata)->Ok_0)) == Ok::<Seq<char>, Seq<char>>(metadata),
{
    let args = candid_text_args(metadata)->0;
    let seed = seed_of(wallet_id, args);
    lemma_seed_len(wallet_id, args);
    let c = ibe_ciphertext(public_key, wallet_id, args, seed);
    assert(ibe_plaintext(vetkey, c) == Some(args));
    lemma_hex_roundtrip(c);
}

/// Metadata reads back: once metadata is attached to a message, the caller
/// is a signer, the message is queued with metadata, and the stored metadata
/// decrypts to what was attached under a VetKey for the wallet.
pub proof fn law_metadata_read_back(
    s: RegistryView,
    wallet_id: Seq<char>,
    message: Seq<u8>,
    metadata: Seq<char>,
    caller: Seq<u8>,
    public_key: Seq<u8>,
    vetkey: Seq<u8>,
)
    requires
        opens(vetkey, public_key, encode_utf8(wallet_id)),
        text_reads_back(metadata),
        registry_add_metadata(s, wallet_id, Some(message), metadata, caller, Ok(public_key)).0 is Ok,
    ensures
        ({
            let w = registry_add_metadata(s, wallet_id, Some(message), metadata, caller, Ok(public_key)).1.wallets[wallet_id];
            let call = encrypted_call(Ok(public_key), encode_utf8(wallet_id), caller, message)->0;
            &&& w.signers.contains(call.0)
            &&& w.metadata.contains_key(call.1)
            &&& metadata_decryption(vetkey, encode_utf8(w.metadata[call.1])) == Ok::<Seq<char>, Seq<char>>(metadata)
        }),
{
    law_metadata_round_trip(vetkey, public_key, encode_utf8(wallet_id), metadata);
}

/// A signed set-threshold command follows the wallet's threshold rule: it
/// is carried out exactly when the wallet has at least that many signers
/// (so an n-of-n threshold can be set), and then only the threshold changes.
pub proof fn law_threshold_command(w: WalletView, t: u8)
    ensures
        command_effect(w, CommandView::SetThreshold(Some(t))) is Ok <==> w.signers.len() >= t,
        command_effect(w, CommandView::SetThreshold(Some(t))) is Ok ==> ({
            let w1 = command_effect(w, CommandView::SetThreshold(Some(t)))->Ok_0;
            &&& w1.threshold == t
            &&& w1.signers == w.signers
            &&& w1.queue == w.queue
            &&& w1.metadata == w.metadata
        }),
{
}

/// A signed transfer that can be read is never refused before it is made,
/// whatever its amount and receiver, and it leaves the wallet as it was.
pub proof fn law_transfer_command_proceeds(w: WalletView, amount: u64, to: Seq<u8>)
    ensures
        command_effect(w, CommandView::Transfer(amount, to)) == Ok::<WalletView, Seq<char>>(w),
{
}

/// Decrypting a wallet keeps its threshold.
pub proof fn law_decryption_keeps_threshold(
    vetkey: Seq<u8>,
    signers: Seq<Seq<char>>,
    threshold: u8,
    queue: Seq<(Seq<u8>, Seq<Seq<char>>)>,
    metadata: Seq<(Seq<u8>, Seq<char>)>,
)
    ensures
        decrypted_wallet(vetkey, signers, threshold, queue, metadata).threshold == threshold,
{
}

/// A signer who has the wallet's VetKey reads the messages themselves: the
/// encrypted messages it is handed come back as their plaintexts, in order.
pub proof fn law_signer_reads_plaintexts(vetkey: Seq<u8>, public_key: Seq<u8>, wallet_id: Seq<u8>, plaintexts: Seq<Seq<u8>>)
    requires
        opens(vetkey, public_key, wallet_id),
    ensures
        ({
            let stored = plaintexts.map_values(|m: Seq<u8>| message_encryption(public_key, wallet_id, m));
            &&& plaintexts_owed(stored, true, Some(Ok(vetkey)))
            &&& delivered_messages(stored, true, Some(Ok(vetkey))) == plaintexts
        }),
{
    let stored = plaintexts.map_values(|m: Seq<u8>| message_encryption(public_key, wallet_id, m));
    assert forall|i: int| 0 <= i < stored.len() implies ibe_plaintext(vetkey, #[trigger] stored[i]) == Some(plaintexts[i]) by {
        law_message_round_trip(vetkey, public_key, wallet_id, plaintexts[i]);
    }
    assert(delivered_messages(stored, true, Some(Ok(vetkey))) =~= plaintexts);
}

/// A key is in the map that a list of pairs builds exactly when some pair
/// has it.
proof fn lemma_pairs_map_keys<V>(pairs: Seq<(Seq<u8>, V)>, k: Seq<u8>)
    ensures
        pairs_map(pairs).contains_key(k) <==> exists|i: int| 0 <= i < pairs.len() && #[trigger] pairs[i].0 == k,
    decreases pairs.len(),
{
    if pairs.len() > 0 {
        let rest = pairs.drop_last();
        lemma_pairs_map_keys(rest, k);
        if exists|i: int| 0 <= i < rest.len() && #[trigger] rest[i].0 == k {
            let i = choose|i: int| 0 <= i < rest.len() && #[trigger] rest[i].0 == k;
            assert(pairs[i].0 == k);
        }
        if exists|i: int| 0 <= i < pairs.len() && #[trigger] pairs[i].0 == k {
            let i = choose|i: int| 0 <= i < pairs.len() && #[trigger] pairs[i].0 == k;
            if i < rest.len() {
                assert(rest[i].0 == k);
            }
        }
    }
}

/// A decrypted wallet's queue holds the plaintexts of the queued messages:
/// under the wallet's VetKey, a message is queued in the decrypted wallet
/// exactly when it is the plaintext of some encrypted queued message.
pub proof fn law_decrypted_queue_holds_plaintexts(
    vetkey: Seq<u8>,
    public_key: Seq<u8>,
    wallet_id: Seq<u8>,
    signers: Seq<Seq<char>>,
    threshold: u8,
    queue: Seq<(Seq<u8>, Seq<Seq<char>>)>,
    metadata: Seq<(Seq<u8>, Seq<char>)>,
    plaintexts: Seq<Seq<u8>>,
    m: Seq<u8>,
)
    requires
        opens(vetkey, public_key, wallet_id),
        queue.len() == plaintexts.len(),
        forall|i: int| 0 <= i < queue.len() ==> #[trigger] queue[i].0 == message_encryption(public_key, wallet_id, plaintexts[i]),
    ensures
        decrypted_wallet(vetkey, signers, threshold, queue, metadata).queue.contains_key(m) <==> plaintexts.contains(m),
{
    let entries = decrypted_queue_entries(vetkey, signers, queue);
    assert forall|i: int| 0 <= i < entries.len() implies #[trigger] entries[i].0 == plaintexts[i] by {
        law_message_round_trip(vetkey, public_key, wallet_id, plaintexts[i]);
        assert(queue[i].0 == message_encryption(public_key, wallet_id, plaintexts[i]));
    }
    lemma_pairs_map_keys(entries, m);
    if plaintexts.contains(m) {
        let i = choose|i: int| 0 <= i < plaintexts.len() && plaintexts[i] == m;
        assert(entries[i].0 == m);
    }
    if exists|i: int| 0 <= i < entries.len() && #[trigger] entries[i].0 == m {
        let i = choose|i: int| 0 <= i < entries.len() && #[trigger] entries[i].0 == m;
        assert(plaintexts[i] == m);
    }
}

} // verus!
