//! Encryption and decryption of wallet data: signers (principals), messages
//! and metadata are encrypted with identity-based encryption under the
//! wallet's public key, with the wallet id as identity and a seed derived
//! from the wallet id and the plaintext, so that equal plaintexts always give
//! equal ciphertexts.

use crate::codec::{hex_decode, hex_decoding, hex_encode, hex_encoding, lemma_hex_roundtrip};
use crate::collections::{entries_view_of, entry_position, lemma_map_from_entries, pairs_map, texts_position};
use crate::wallet::{Wallet, WalletView};
use crate::crypto::{candid_decode_principal, candid_decode_text, candid_encode_principal, candid_encode_text, candid_principal_args, candid_principal_from_args, candid_text_args, candid_text_from_args, ibe_ciphertext, principal_text, principal_to_text, ibe_decrypt, ibe_encrypt, ibe_plaintext, max_principal_len, WalletPublicKey, WalletVetKey};
use crate::vetkey::{derive_seed_simple, seed_of};
use vstd::prelude::*;
use vstd::string::StringSliceAdditionalSpecFns;
use vstd::utf8::encode_utf8;

verus! {

/// The error when Candid encoding fails.
pub open spec fn encoding_error() -> Seq<char> {
    "EncodingError"@
}

/// The error when a ciphertext cannot be read or decrypted.
pub open spec fn ciphertext_error() -> Seq<char> {
    "CiphertextError"@
}

/// The error when a decrypted plaintext is not the Candid encoding expected.
pub open spec fn decode_error() -> Seq<char> {
    "DecodeError"@
}

/// Whether a list of principals are all within a principal's capacity.
pub open spec fn principals_fit(signers: Seq<Vec<u8>>) -> bool {
    forall|i: int| 0 <= i < signers.len() ==> (#[trigger] signers[i])@.len() <= max_principal_len()
}

/// The encrypted form of a principal: the hex text of its IBE ciphertext, or
/// the error when its Candid encoding fails.
pub open spec fn principal_encryption(key: Seq<u8>, wallet_id: Seq<u8>, signer: Seq<u8>) -> Result<Seq<char>, Seq<char>> {
    match candid_principal_args(signer) {
        Some(args) => Ok(hex_encoding(ibe_ciphertext(key, wallet_id, args, seed_of(wallet_id, signer)))),
        None => Err(encoding_error()),
    }
}

/// The encrypted form of a message: its IBE ciphertext.
pub open spec fn message_encryption(key: Seq<u8>, wallet_id: Seq<u8>, message: Seq<u8>) -> Seq<u8> {
    ibe_ciphertext(key, wallet_id, message, seed_of(wallet_id, message))
}

/// The encrypted form of a metadata text: the hex text of the IBE ciphertext
/// of its Candid encoding, or the error when that encoding fails.
pub open spec fn metadata_encryption(key: Seq<u8>, wallet_id: Seq<u8>, metadata: Seq<char>) -> Result<Seq<char>, Seq<char>> {
    match candid_text_args(metadata) {
        Some(args) => Ok(hex_encoding(ibe_ciphertext(key, wallet_id, args, seed_of(wallet_id, args)))),
        None => Err(encoding_error()),
    }
}

/// Whether a principal's Candid encoding, when it has one, reads back as the
/// principal.
pub open spec fn principal_reads_back(principal: Seq<u8>) -> bool {
    candid_principal_args(principal) matches Some(args) ==> candid_principal_from_args(args) == Some(principal)
}

/// Whether a text's Candid encoding, when it has one, reads back as the text.
pub open spec fn text_reads_back(text: Seq<char>) -> bool {
    candid_text_args(text) matches Some(args) ==> candid_text_from_args(args) == Some(text)
}

/// The plaintext behind a hex-encoded ciphertext under a VetKey.
pub open spec fn message_decryption(vetkey: Seq<u8>, hex: Seq<u8>) -> Result<Seq<u8>, Seq<char>> {
    match hex_decoding(hex) {
        Some(ciphertext) => match ibe_plaintext(vetkey, ciphertext) {
            Some(plaintext) => Ok(plaintext),
            None => Err(ciphertext_error()),
        },
        None => Err(ciphertext_error()),
    }
}

/// The principal behind a hex-encoded ciphertext under a VetKey.
pub open spec fn principal_decryption(vetkey: Seq<u8>, hex: Seq<u8>) -> Result<Seq<u8>, Seq<char>> {
    match message_decryption(vetkey, hex) {
        Ok(plaintext) => match candid_principal_from_args(plaintext) {
            Some(principal) => Ok(principal),
            None => Err(decode_error()),
        },
        Err(e) => Err(e),
    }
}

/// The metadata text behind a hex-encoded ciphertext under a VetKey.
pub open spec fn metadata_decryption(vetkey: Seq<u8>, hex: Seq<u8>) -> Result<Seq<char>, Seq<char>> {
    match message_decryption(vetkey, hex) {
        Ok(plaintext) => match candid_text_from_args(plaintext) {
            Some(text) => Ok(text),
            None => Err(decode_error()),
        },
        Err(e) => Err(e),
    }
}

fn text(s: &str) -> (t: String)
    ensures
        t@ == s@,
{
    s.to_owned()
}

/// Encrypts a single principal under the wallet's public key, with the wallet
/// id as identity; the result is the hex text of the ciphertext.
pub fn encrypt_single_principal_with_key(signer: &[u8], wallet_id: &str, key: &WalletPublicKey) -> (r: Result<String, String>)
    requires
        signer@.len() <= max_principal_len(),
    ensures
        match (r, principal_encryption(key@, wallet_id.spec_bytes(), signer@)) {
            (Ok(s), Ok(t)) => s@ == t,
            (Err(e), Err(t)) => e@ == t,
            _ => false,
        },
        principal_reads_back(signer@),
{
    let principal_bytes = match candid_encode_principal(signer) {
        Some(b) => b,
        None => return Err(text("EncodingError")),
    };
    let seed_bytes = derive_seed_simple(wallet_id, signer);
    let ciphertext = match ibe_encrypt(key, wallet_id.as_bytes(), principal_bytes.as_slice(), seed_bytes.as_slice()) {
        Some(c) => c,
        None => return Err(text("SeedError")),
    };
    Ok(hex_encode(ciphertext.as_slice()))
}

/// Encrypts each principal under the wallet's public key (the outcome of
/// fetching it is `public_key`), stopping at the first failure.
pub fn encrypt_principals_with_vetkeys(signers: &Vec<Vec<u8>>, wallet_id: &str, public_key: &Result<WalletPublicKey, String>) -> (r: Result<Vec<String>, String>)
    requires
        principals_fit(signers@),
    ensures
        match public_key {
            Err(e) => r matches Err(x) && x@ == e@,
            Ok(k) => {
                &&& r is Ok <==> forall|i: int| 0 <= i < signers@.len() ==> (#[trigger] candid_principal_args(signers@[i]@)) is Some
                &&& r matches Ok(v) ==> v@.len() == signers@.len() && forall|i: int| 0 <= i < signers@.len() ==>
                        principal_encryption(k@, wallet_id.spec_bytes(), signers@[i]@) == Ok::<Seq<char>, Seq<char>>((#[trigger] v@[i])@)
                &&& r matches Err(e) ==> e@ == encoding_error()
                &&& r is Ok ==> forall|i: int| 0 <= i < signers@.len() ==> #[trigger] principal_reads_back(signers@[i]@)
            },
        },
{
    let key = match public_key {
        Ok(k) => k,
        Err(e) => return Err(e.clone()),
    };
    let mut encrypted: Vec<String> = Vec::new();
    let mut i: usize = 0;
    while i < signers.len()
        invariant
            i <= signers@.len(),
            principals_fit(signers@),
            *public_key == Ok::<WalletPublicKey, String>(*key),
            encrypted@.len() == i,
            forall|j: int| 0 <= j < i ==> (#[trigger] candid_principal_args(signers@[j]@)) is Some,
            forall|j: int| 0 <= j < i ==> #[trigger] principal_reads_back(signers@[j]@),
            forall|j: int| 0 <= j < i ==>
                principal_encryption(key@, wallet_id.spec_bytes(), signers@[j]@) == Ok::<Seq<char>, Seq<char>>((#[trigger] encrypted@[j])@),
        decreases signers@.len() - i,
    {
        assert(signers@[i as int]@.len() <= max_principal_len());
        let item = encrypt_single_principal_with_key(signers[i].as_slice(), wallet_id, key);
        match item {
            Ok(s) => {
                encrypted.push(s);
            },
            Err(e) => {
                return Err(e);
            },
        }
        i = i + 1;
    }
    Ok(encrypted)
}

/// Encrypts a message under the wallet's public key; the result is the raw
/// ciphertext.
pub fn encrypt_message_with_key(message: &Vec<u8>, wallet_id: &str, key: &WalletPublicKey) -> (r: Result<Vec<u8>, String>)
    ensures
        r matches Ok(c) && c@ == message_encryption(key@, wallet_id.spec_bytes(), message@),
{
    let seed_bytes = derive_seed_simple(wallet_id, message.as_slice());
    let ciphertext = match ibe_encrypt(key, wallet_id.as_bytes(), message.as_slice(), seed_bytes.as_slice()) {
        Some(c) => c,
        None => return Err(text("SeedError")),
    };
    Ok(ciphertext)
}

/// Encrypts a message under the wallet's public key (the outcome of fetching
/// it is `public_key`).
pub fn encrypt_message_with_vetkeys(message: &Vec<u8>, wallet_id: &str, public_key: &Result<WalletPublicKey, String>) -> (r: Result<Vec<u8>, String>)
    ensures
        match public_key {
            Err(e) => r matches Err(x) && x@ == e@,
            Ok(k) => r matches Ok(c) && c@ == message_encryption(k@, wallet_id.spec_bytes(), message@),
        },
{
    match public_key {
        Ok(k) => encrypt_message_with_key(message, wallet_id, k),
        Err(e) => Err(e.clone()),
    }
}

/// Encrypts a metadata text under the wallet's public key (the outcome of
/// fetching it is `public_key`); the result is the hex text of the ciphertext
/// of the text's Candid encoding.
pub fn encrypt_metadata_with_vetkeys(metadata: String, wallet_id: &str, public_key: &Result<WalletPublicKey, String>) -> (r: Result<String, String>)
    ensures
        match public_key {
            Err(e) => r matches Err(x) && x@ == e@,
            Ok(k) => text_reads_back(metadata@) && match (r, metadata_encryption(k@, wallet_id.spec_bytes(), metadata@)) {
                (Ok(s), Ok(t)) => s@ == t,
                (Err(e), Err(t)) => e@ == t,
                _ => false,
            },
        },
{
    let key = match public_key {
        Ok(k) => k,
        Err(e) => return Err(e.clone()),
    };
    let metadata_bytes = match candid_encode_text(&metadata) {
        Some(b) => b,
        None => return Err(text("EncodingError")),
    };
    let seed_bytes = derive_seed_simple(wallet_id, metadata_bytes.as_slice());
    let ciphertext = match ibe_encrypt(key, wallet_id.as_bytes(), metadata_bytes.as_slice(), seed_bytes.as_slice()) {
        Some(c) => c,
        None => return Err(text("SeedError")),
    };
    Ok(hex_encode(ciphertext.as_slice()))
}

/// Encrypts a principal and a message under the wallet's public key (the
/// outcome of fetching it is `public_key`).
pub fn encrypt_principal_and_message_with_vetkeys(signer: &[u8], message: &Vec<u8>, wallet_id: &str, public_key: &Result<WalletPublicKey, String>) -> (r: Result<(String, Vec<u8>), String>)
    requires
        signer@.len() <= max_principal_len(),
    ensures
        match public_key {
            Err(e) => r matches Err(x) && x@ == e@,
            Ok(k) => principal_reads_back(signer@) && match (r, principal_encryption(k@, wallet_id.spec_bytes(), signer@)) {
                (Ok(pair), Ok(t)) => pair.0@ == t && pair.1@ == message_encryption(k@, wallet_id.spec_bytes(), message@),
                (Err(e), Err(t)) => e@ == t,
                _ => false,
            },
        },
{
    let key = match public_key {
        Ok(k) => k,
        Err(e) => return Err(e.clone()),
    };
    let encrypted_principal = match encrypt_single_principal_with_key(signer, wallet_id, key) {
        Ok(p) => p,
        Err(e) => return Err(e),
    };
    let encrypted_message = match encrypt_message_with_key(message, wallet_id, key) {
        Ok(m) => m,
        Err(e) => return Err(e),
    };
    Ok((encrypted_principal, encrypted_message))
}

/// Decrypts a principal from the hex text of its ciphertext.
pub fn decrypt_single_principal_hex(encrypted_hex: &str, key: &WalletVetKey) -> (r: Result<Vec<u8>, String>)
    ensures
        match (r, principal_decryption(key@, encrypted_hex.spec_bytes())) {
            (Ok(p), Ok(t)) => p@ == t && p@.len() <= max_principal_len(),
            (Err(e), Err(t)) => e@ == t,
            _ => false,
        },
{
    let encrypted_data = match hex_decode(encrypted_hex) {
        Some(d) => d,
        None => return Err(text("CiphertextError")),
    };
    let decrypted_bytes = match ibe_decrypt(key, encrypted_data.as_slice()) {
        Some(p) => p,
        None => return Err(text("CiphertextError")),
    };
    match candid_decode_principal(decrypted_bytes.as_slice()) {
        Some(p) => Ok(p),
        None => Err(text("DecodeError")),
    }
}

/// Decrypts a message from the hex text of its ciphertext.
pub fn decrypt_single_message_hex(encrypted_hex: &str, key: &WalletVetKey) -> (r: Result<Vec<u8>, String>)
    ensures
        match (r, message_decryption(key@, encrypted_hex.spec_bytes())) {
            (Ok(p), Ok(t)) => p@ == t,
            (Err(e), Err(t)) => e@ == t,
            _ => false,
        },
{
    let encrypted_data = match hex_decode(encrypted_hex) {
        Some(d) => d,
        None => return Err(text("CiphertextError")),
    };
    match ibe_decrypt(key, encrypted_data.as_slice()) {
        Some(p) => Ok(p),
        None => Err(text("CiphertextError")),
    }
}

/// Decrypts a metadata text from the hex text of its ciphertext.
pub fn decrypt_single_metadata_hex(encrypted_hex: &str, key: &WalletVetKey) -> (r: Result<String, String>)
    ensures
        match (r, metadata_decryption(key@, encrypted_hex.spec_bytes())) {
            (Ok(p), Ok(t)) => p@ == t,
            (Err(e), Err(t)) => e@ == t,
            _ => false,
        },
{
    let encrypted_data = match hex_decode(encrypted_hex) {
        Some(d) => d,
        None => return Err(text("CiphertextError")),
    };
    let decrypted_bytes = match ibe_decrypt(key, encrypted_data.as_slice()) {
        Some(p) => p,
        None => return Err(text("CiphertextError")),
    };
    match candid_decode_text(decrypted_bytes.as_slice()) {
        Some(t) => Ok(t),
        None => Err(text("DecodeError")),
    }
}

/// Decrypts each principal in a list with the wallet's decryption key (the
/// outcome of fetching it is `decryption_key`), stopping at the first failure.
pub fn decrypt_principals_with_vetkeys(encrypted_hex_list: &Vec<String>, decryption_key: &Result<WalletVetKey, String>) -> (r: Result<Vec<Vec<u8>>, String>)
    ensures
        match decryption_key {
            Err(e) => r matches Err(x) && x@ == e@,
            Ok(k) => {
                &&& r matches Ok(v) ==> v@.len() == encrypted_hex_list@.len() && forall|i: int| 0 <= i < v@.len() ==>
                        principal_decryption(k@, encode_utf8(encrypted_hex_list@[i]@)) == Ok::<Seq<u8>, Seq<char>>((#[trigger] v@[i])@)
                &&& r matches Err(e) ==> exists|j: int| 0 <= j < encrypted_hex_list@.len()
                        && (forall|i: int| 0 <= i < j ==> (#[trigger] principal_decryption(k@, encode_utf8(encrypted_hex_list@[i]@))) is Ok)
                        && principal_decryption(k@, encode_utf8(encrypted_hex_list@[j]@)) == Err::<Seq<u8>, Seq<char>>(e@)
            },
        },
{
    let key = match decryption_key {
        Ok(k) => k,
        Err(e) => return Err(e.clone()),
    };
    let mut decrypted: Vec<Vec<u8>> = Vec::new();
    let mut i: usize = 0;
    while i < encrypted_hex_list.len()
        invariant
            i <= encrypted_hex_list@.len(),
            *decryption_key == Ok::<WalletVetKey, String>(*key),
            decrypted@.len() == i,
            forall|j: int| 0 <= j < i ==>
                principal_decryption(key@, encode_utf8(encrypted_hex_list@[j]@)) == Ok::<Seq<u8>, Seq<char>>((#[trigger] decrypted@[j])@),
        decreases encrypted_hex_list@.len() - i,
    {
        match decrypt_single_principal_hex(encrypted_hex_list[i].as_str(), key) {
            Ok(p) => {
                decrypted.push(p);
            },
            Err(e) => {
                assert forall|j: int| 0 <= j < i implies
                    (#[trigger] principal_decryption(key@, encode_utf8(encrypted_hex_list@[j]@))) is Ok by {
                    assert(principal_decryption(key@, encode_utf8(encrypted_hex_list@[j]@)) == Ok::<Seq<u8>, Seq<char>>(decrypted@[j]@));
                }
                assert(principal_decryption(key@, encode_utf8(encrypted_hex_list@[i as int]@)) == Err::<Seq<u8>, Seq<char>>(e@));
                return Err(e);
            },
        }
        i = i + 1;
    }
    Ok(decrypted)
}

/// Decrypts one message with the wallet's decryption key (the outcome of
/// fetching it is `decryption_key`).
pub fn decrypt_message_with_vetkeys(encrypted_hex: &str, decryption_key: &Result<WalletVetKey, String>) -> (r: Result<Vec<u8>, String>)
    ensures
        match decryption_key {
            Err(e) => r matches Err(x) && x@ == e@,
            Ok(k) => match (r, message_decryption(k@, encrypted_hex.spec_bytes())) {
                (Ok(p), Ok(t)) => p@ == t,
                (Err(e), Err(t)) => e@ == t,
                _ => false,
            },
        },
{
    match decryption_key {
        Ok(k) => decrypt_single_message_hex(encrypted_hex, k),
        Err(e) => Err(e.clone()),
    }
}

/// Decrypts each message in a list with the wallet's decryption key (the
/// outcome of fetching it is `decryption_key`), stopping at the first failure.
pub fn decrypt_messages_with_vetkeys(encrypted_hex_list: &Vec<String>, decryption_key: &Result<WalletVetKey, String>) -> (r: Result<Vec<Vec<u8>>, String>)
    ensures
        match decryption_key {
            Err(e) => r matches Err(x) && x@ == e@,
            Ok(k) => {
                &&& r is Ok <==> forall|i: int| 0 <= i < encrypted_hex_list@.len() ==>
                        (#[trigger] message_decryption(k@, encode_utf8(encrypted_hex_list@[i]@))) is Ok
                &&& r matches Ok(v) ==> v@.len() == encrypted_hex_list@.len() && forall|i: int| 0 <= i < v@.len() ==>
                        message_decryption(k@, encode_utf8(encrypted_hex_list@[i]@)) == Ok::<Seq<u8>, Seq<char>>((#[trigger] v@[i])@)
                &&& r matches Err(e) ==> e@ == ciphertext_error()
            },
        },
{
    let key = match decryption_key {
        Ok(k) => k,
        Err(e) => return Err(e.clone()),
    };
    let mut decrypted: Vec<Vec<u8>> = Vec::new();
    let mut i: usize = 0;
    while i < encrypted_hex_list.len()
        invariant
            i <= encrypted_hex_list@.len(),
            *decryption_key == Ok::<WalletVetKey, String>(*key),
            decrypted@.len() == i,
            forall|j: int| 0 <= j < i ==>
                message_decryption(key@, encode_utf8(encrypted_hex_list@[j]@)) == Ok::<Seq<u8>, Seq<char>>((#[trigger] decrypted@[j])@),
        decreases encrypted_hex_list@.len() - i,
    {
        match decrypt_single_message_hex(encrypted_hex_list[i].as_str(), key) {
            Ok(p) => {
                decrypted.push(p);
            },
            Err(e) => {
                return Err(e);
            },
        }
        i = i + 1;
    }
    proof {
        assert forall|i: int| 0 <= i < encrypted_hex_list@.len() implies
            (#[trigger] message_decryption(key@, encode_utf8(encrypted_hex_list@[i]@))) is Ok by {
            assert(message_decryption(key@, encode_utf8(encrypted_hex_list@[i]@)) == Ok::<Seq<u8>, Seq<char>>(decrypted@[i]@));
        }
    }
    Ok(decrypted)
}

/// Decrypts one metadata text with the wallet's decryption key (the outcome of
/// fetching it is `decryption_key`).
pub fn decrypt_metadata_with_vetkeys(encrypted_hex: &str, decryption_key: &Result<WalletVetKey, String>) -> (r: Result<String, String>)
    ensures
        match decryption_key {
            Err(e) => r matches Err(x) && x@ == e@,
            Ok(k) => match (r, metadata_decryption(k@, encrypted_hex.spec_bytes())) {
                (Ok(p), Ok(t)) => p@ == t,
                (Err(e), Err(t)) => e@ == t,
                _ => false,
            },
        },
{
    match decryption_key {
        Ok(k) => decrypt_single_metadata_hex(encrypted_hex, k),
        Err(e) => Err(e.clone()),
    }
}

/// A result with its value dropped.
pub open spec fn outcome<A>(r: Result<A, Seq<char>>) -> Result<(), Seq<char>> {
    match r {
        Ok(_) => Ok(()),
        Err(e) => Err(e),
    }
}

/// The first error in a list of outcomes, if any.
pub open spec fn first_error(results: Seq<Result<(), Seq<char>>>) -> Option<Seq<char>>
    decreases results.len(),
{
    if results.len() == 0 {
        None
    } else {
        match results[0] {
            Err(e) => Some(e),
            Ok(_) => first_error(results.drop_first()),
        }
    }
}

proof fn lemma_first_error_at(results: Seq<Result<(), Seq<char>>>, i: int)
    requires
        0 <= i < results.len(),
        forall|j: int| 0 <= j < i ==> (#[trigger] results[j]) is Ok,
        results[i] is Err,
    ensures
        first_error(results) == Some(results[i]->Err_0),
    decreases i,
{
    if i > 0 {
        assert(results[0] is Ok);
        lemma_first_error_at(results.drop_first(), i - 1);
    }
}

proof fn lemma_first_error_none(results: Seq<Result<(), Seq<char>>>)
    requires
        forall|j: int| 0 <= j < results.len() ==> (#[trigger] results[j]) is Ok,
    ensures
        first_error(results) is None,
    decreases results.len(),
{
    if results.len() > 0 {
        assert(results[0] is Ok);
        lemma_first_error_none(results.drop_first());
    }
}

/// The plaintext of a queued (encrypted) message under a VetKey.
pub open spec fn queued_message_decryption(vetkey: Seq<u8>, message: Seq<u8>) -> Result<Seq<u8>, Seq<char>> {
    match ibe_plaintext(vetkey, message) {
        Some(plaintext) => Ok(plaintext),
        None => Err(ciphertext_error()),
    }
}

/// The principal text behind an encrypted signer under a VetKey.
pub open spec fn signer_text(vetkey: Seq<u8>, signer: Seq<char>) -> Seq<char> {
    principal_text(principal_decryption(vetkey, encode_utf8(signer))->Ok_0)
}

/// Whether a metadata entry belongs to a queued message.
pub open spec fn is_queued(queue: Seq<(Seq<u8>, Seq<Seq<char>>)>, entry: (Seq<u8>, Seq<char>)) -> bool {
    queue.map_values(|e: (Seq<u8>, Seq<Seq<char>>)| e.0).contains(entry.0)
}

/// Each decryption that decrypting a wallet makes, in order: every signer,
/// every queued message, then the metadata of every queued message.
pub open spec fn wallet_decryption_checks(vetkey: Seq<u8>, signers: Seq<Seq<char>>, queue: Seq<(Seq<u8>, Seq<Seq<char>>)>, metadata: Seq<(Seq<u8>, Seq<char>)>) -> Seq<Result<(), Seq<char>>> {
    signers.map_values(|s: Seq<char>| outcome(principal_decryption(vetkey, encode_utf8(s))))
    + queue.map_values(|e: (Seq<u8>, Seq<Seq<char>>)| outcome(queued_message_decryption(vetkey, e.0)))
    + metadata.map_values(|e: (Seq<u8>, Seq<char>)|
        if is_queued(queue, e) { outcome(metadata_decryption(vetkey, encode_utf8(e.1))) } else { Ok(()) })
}

/// The decrypted queue entries: each message decrypted, with the principal
/// texts of those of its approvers that are signers.
pub open spec fn decrypted_queue_entries(vetkey: Seq<u8>, signers: Seq<Seq<char>>, queue: Seq<(Seq<u8>, Seq<Seq<char>>)>) -> Seq<(Seq<u8>, Seq<Seq<char>>)> {
    queue.map_values(|e: (Seq<u8>, Seq<Seq<char>>)| (
        queued_message_decryption(vetkey, e.0)->Ok_0,
        e.1.filter(|s: Seq<char>| signers.contains(s)).map_values(|s: Seq<char>| signer_text(vetkey, s)),
    ))
}

/// The decrypted metadata entries of queued messages.
pub open spec fn decrypted_metadata_entries(vetkey: Seq<u8>, queue: Seq<(Seq<u8>, Seq<Seq<char>>)>, metadata: Seq<(Seq<u8>, Seq<char>)>) -> Seq<(Seq<u8>, Seq<char>)> {
    metadata.filter(|e: (Seq<u8>, Seq<char>)| is_queued(queue, e)).map_values(|e: (Seq<u8>, Seq<char>)| (
        queued_message_decryption(vetkey, e.0)->Ok_0,
        metadata_decryption(vetkey, encode_utf8(e.1))->Ok_0,
    ))
}

/// The wallet that decrypting an encrypted wallet gives.
pub open spec fn decrypted_wallet(vetkey: Seq<u8>, signers: Seq<Seq<char>>, threshold: u8, queue: Seq<(Seq<u8>, Seq<Seq<char>>)>, metadata: Seq<(Seq<u8>, Seq<char>)>) -> WalletView {
    WalletView {
        signers: signers.map_values(|s: Seq<char>| signer_text(vetkey, s)).to_set(),
        threshold,
        queue: pairs_map(decrypted_queue_entries(vetkey, signers, queue)),
        metadata: pairs_map(decrypted_metadata_entries(vetkey, queue, metadata)),
    }
}

/// Decrypts a queued (encrypted) message, through its hex text.
fn decrypt_queued_message(message: &Vec<u8>, key: &WalletVetKey) -> (r: Result<Vec<u8>, String>)
    ensures
        match (r, queued_message_decryption(key@, message@)) {
            (Ok(p), Ok(t)) => p@ == t,
            (Err(e), Err(t)) => e@ == t,
            _ => false,
        },
{
    let hex = hex_encode(message.as_slice());
    proof {
        lemma_hex_roundtrip(message@);
    }
    decrypt_single_message_hex(hex.as_str(), key)
}

/// Decrypts an encrypted wallet (its signers, threshold, queue and metadata)
/// with the wallet's decryption key (the outcome of fetching it is
/// `decryption_key`): signers become principal texts, messages and metadata
/// their plaintexts, and approvals that are not signers are dropped.
pub fn decrypt_wallet_data(
    encrypted_signers: &Vec<String>,
    threshold: &u8,
    encrypted_message_queue: &Vec<(Vec<u8>, Vec<String>)>,
    encrypted_metadata: &Vec<(Vec<u8>, String)>,
    decryption_key: &Result<WalletVetKey, String>,
) -> (r: Result<Wallet, String>)
    ensures
        match decryption_key {
            Err(e) => r matches Err(x) && x@ == e@,
            Ok(k) => match first_error(wallet_decryption_checks(k@, encrypted_signers.deep_view(), entries_view_of(encrypted_message_queue@), entries_view_of(encrypted_metadata@))) {
                Some(e) => r matches Err(x) && x@ == e,
                None => r matches Ok(w) && w.wf() && w@ == decrypted_wallet(k@, encrypted_signers.deep_view(), *threshold, entries_view_of(encrypted_message_queue@), entries_view_of(encrypted_metadata@)),
            },
        },
        r matches Ok(w) ==> w@.threshold == *threshold,
{
    let key = match decryption_key {
        Ok(k) => k,
        Err(e) => return Err(e.clone()),
    };
    let ghost signers = encrypted_signers.deep_view();
    let ghost queue = entries_view_of(encrypted_message_queue@);
    let ghost metadata = entries_view_of(encrypted_metadata@);
    let ghost checks = wallet_decryption_checks(key@, signers, queue, metadata);
    let ghost ns = signers.len();
    let ghost nq = queue.len();
    proof {
        assert(checks.len() == ns + nq + metadata.len());
        assert forall|j: int| 0 <= j < ns implies #[trigger] checks[j] == outcome(principal_decryption(key@, encode_utf8(signers[j]))) by {}
        assert forall|j: int| 0 <= j < nq implies #[trigger] checks[ns + j] == outcome(queued_message_decryption(key@, queue[j].0)) by {}
        assert forall|j: int| 0 <= j < metadata.len() implies #[trigger] checks[ns + nq + j] ==
            (if is_queued(queue, metadata[j]) { outcome(metadata_decryption(key@, encode_utf8(metadata[j].1))) } else { Ok(()) }) by {}
    }

    // The signers' principal texts, in order.
    let mut decrypted_signers: Vec<String> = Vec::new();
    let mut i: usize = 0;
    while i < encrypted_signers.len()
        invariant
            *decryption_key == Ok::<WalletVetKey, String>(*key),
            checks == wallet_decryption_checks(key@, signers, queue, metadata),
            signers == encrypted_signers.deep_view(),
            queue == entries_view_of(encrypted_message_queue@),
            metadata == entries_view_of(encrypted_metadata@),
            i <= ns,
            ns == encrypted_signers@.len(),
            signers == encrypted_signers.deep_view(),
            checks.len() == ns + nq + metadata.len(),
            forall|j: int| 0 <= j < ns ==> #[trigger] checks[j] == outcome(principal_decryption(key@, encode_utf8(signers[j]))),
            forall|j: int| 0 <= j < i ==> (#[trigger] checks[j]) is Ok,
            decrypted_signers.deep_view() == signers.take(i as int).map_values(|s: Seq<char>| signer_text(key@, s)),
        decreases ns - i,
    {
        let principal = match decrypt_single_principal_hex(encrypted_signers[i].as_str(), key) {
            Ok(p) => p,
            Err(e) => {
                proof {
                    lemma_first_error_at(checks, i as int);
                }
                return Err(e);
            },
        };
        let t = principal_to_text(principal.as_slice());
        let ghost before = decrypted_signers.deep_view();
        decrypted_signers.push(t);
        proof {
            assert(signers.take(i as int + 1) =~= signers.take(i as int).push(signers[i as int]));
            assert(decrypted_signers.deep_view() =~= before.push(signer_text(key@, signers[i as int])));
            assert(decrypted_signers.deep_view() =~= signers.take(i as int + 1).map_values(|s: Seq<char>| signer_text(key@, s)));
        }
        i = i + 1;
    }
    assert(signers.take(ns as int) =~= signers);

    // The queue: decrypted messages with the texts of their signing approvers.
    let mut decrypted_queue: Vec<(Vec<u8>, Vec<String>)> = Vec::new();
    let mut decrypted_keys: Vec<Vec<u8>> = Vec::new();
    let mut q: usize = 0;
    while q < encrypted_message_queue.len()
        invariant
            *decryption_key == Ok::<WalletVetKey, String>(*key),
            checks == wallet_decryption_checks(key@, signers, queue, metadata),
            signers == encrypted_signers.deep_view(),
            queue == entries_view_of(encrypted_message_queue@),
            metadata == entries_view_of(encrypted_metadata@),
            q <= nq,
            nq == encrypted_message_queue@.len(),
            decrypted_signers@.len() == ns,
            queue == entries_view_of(encrypted_message_queue@),
            signers == encrypted_signers.deep_view(),
            ns == signers.len(),
            checks.len() == ns + nq + metadata.len(),
            forall|j: int| 0 <= j < ns ==> (#[trigger] checks[j]) is Ok,
            forall|j: int| 0 <= j < nq ==> #[trigger] checks[ns + j] == outcome(queued_message_decryption(key@, queue[j].0)),
            forall|j: int| 0 <= j < q ==> (#[trigger] checks[ns + j]) is Ok,
            decrypted_signers.deep_view() == signers.map_values(|s: Seq<char>| signer_text(key@, s)),
            entries_view_of(decrypted_queue@) == decrypted_queue_entries(key@, signers, queue.take(q as int)),
            decrypted_keys@.len() == q,
            forall|j: int| 0 <= j < q ==> (#[trigger] decrypted_keys@[j])@ == queued_message_decryption(key@, queue[j].0)->Ok_0,
        decreases nq - q,
    {
        let entry = &encrypted_message_queue[q];
        let decrypted_msg = match decrypt_queued_message(&entry.0, key) {
            Ok(m) => m,
            Err(e) => {
                proof {
                    assert(queue[q as int].0 == entry.0@);
                    assert forall|j: int| 0 <= j < ns + q implies (#[trigger] checks[j]) is Ok by {
                        if j >= ns {
                            assert(checks[ns + (j - ns)] is Ok);
                        }
                    }
                    lemma_first_error_at(checks, ns + q);
                }
                return Err(e);
            },
        };
        let ghost approvers = entry.1.deep_view();
        let mut mapped: Vec<String> = Vec::new();
        let mut a: usize = 0;
        while a < entry.1.len()
            invariant
                a <= approvers.len(),
                decrypted_signers@.len() == signers.len(),
                signers.len() == encrypted_signers@.len(),
                approvers == entry.1.deep_view(),
                signers == encrypted_signers.deep_view(),
                decrypted_signers.deep_view() == signers.map_values(|s: Seq<char>| signer_text(key@, s)),
                mapped.deep_view() == approvers.take(a as int).filter(|s: Seq<char>| signers.contains(s)).map_values(|s: Seq<char>| signer_text(key@, s)),
            decreases approvers.len() - a,
        {
            let ghost before = mapped.deep_view();
            proof {
                reveal_with_fuel(Seq::filter, 1);
                assert(approvers.take(a as int + 1).drop_last() =~= approvers.take(a as int));
                assert(approvers.take(a as int + 1).last() == approvers[a as int]);
            }
            match texts_position(encrypted_signers, &entry.1[a]) {
                Some(idx) => {
                    proof {
                        assert(decrypted_signers.deep_view()[idx as int] == signer_text(key@, signers[idx as int]));
                    }
                    let t = decrypted_signers[idx].clone();
                    proof {
                        assert(t@ == decrypted_signers.deep_view()[idx as int]);
                        assert(signers[idx as int] == approvers[a as int]);
                    }
                    mapped.push(t);
                    proof {
                        assert(mapped.deep_view() =~= before.push(signer_text(key@, approvers[a as int])));
                        assert(signers.contains(approvers[a as int]));
                        let f = approvers.take(a as int).filter(|s: Seq<char>| signers.contains(s));
                        assert(approvers.take(a as int + 1).filter(|s: Seq<char>| signers.contains(s)) == f.push(approvers[a as int]));
                        assert(f.push(approvers[a as int]).map_values(|s: Seq<char>| signer_text(key@, s)) =~=
                            f.map_values(|s: Seq<char>| signer_text(key@, s)).push(signer_text(key@, approvers[a as int])));
                    }
                },
                None => {
                    proof {
                        assert(mapped.deep_view() =~= before);
                        assert(!signers.contains(approvers[a as int]));
                    }
                },
            }
            a = a + 1;
        }
        assert(approvers.take(approvers.len() as int) =~= approvers);
        let ghost before_q = entries_view_of(decrypted_queue@);
        decrypted_keys.push(copy_message(&decrypted_msg));
        decrypted_queue.push((decrypted_msg, mapped));
        proof {
            assert(queue[q as int] == (entry.0@, approvers));
            assert(queue.take(q as int + 1) =~= queue.take(q as int).push(queue[q as int]));
            assert(entries_view_of(decrypted_queue@) =~= before_q.push(entries_view_of(decrypted_queue@).last()));
            assert(entries_view_of(decrypted_queue@) =~= decrypted_queue_entries(key@, signers, queue.take(q as int + 1)));
        }
        q = q + 1;
    }
    assert(queue.take(nq as int) =~= queue);
    assert forall|j: int| 0 <= j < ns + nq implies (#[trigger] checks[j]) is Ok by {
        if j >= ns {
            assert(checks[ns + (j - ns)] is Ok);
        }
    }

    // The metadata of queued messages, keyed by their decrypted messages.
    let mut decrypted_metadata: Vec<(Vec<u8>, String)> = Vec::new();
    let mut m: usize = 0;
    while m < encrypted_metadata.len()
        invariant
            *decryption_key == Ok::<WalletVetKey, String>(*key),
            checks == wallet_decryption_checks(key@, signers, queue, metadata),
            signers == encrypted_signers.deep_view(),
            queue == entries_view_of(encrypted_message_queue@),
            metadata == entries_view_of(encrypted_metadata@),
            m <= metadata.len(),
            ns == signers.len(),
            metadata == entries_view_of(encrypted_metadata@),
            queue == entries_view_of(encrypted_message_queue@),
            nq == queue.len(),
            checks.len() == ns + nq + metadata.len(),
            forall|j: int| 0 <= j < ns + nq ==> (#[trigger] checks[j]) is Ok,
            forall|j: int| 0 <= j < metadata.len() ==> #[trigger] checks[ns + nq + j] ==
                (if is_queued(queue, metadata[j]) { outcome(metadata_decryption(key@, encode_utf8(metadata[j].1))) } else { Ok(()) }),
            forall|j: int| 0 <= j < m ==> (#[trigger] checks[ns + nq + j]) is Ok,
            decrypted_keys@.len() == nq,
            forall|j: int| 0 <= j < nq ==> (#[trigger] decrypted_keys@[j])@ == queued_message_decryption(key@, queue[j].0)->Ok_0,
            entries_view_of(decrypted_metadata@) == decrypted_metadata_entries(key@, queue, metadata.take(m as int)),
        decreases metadata.len() - m,
    {
        let entry = &encrypted_metadata[m];
        let ghost before = entries_view_of(decrypted_metadata@);
        proof {
            reveal_with_fuel(Seq::filter, 1);
            assert(metadata.take(m as int + 1).drop_last() =~= metadata.take(m as int));
            assert(metadata.take(m as int + 1).last() == metadata[m as int]);
            assert(metadata[m as int] == (entry.0@, entry.1@));
        }
        match entry_position(encrypted_message_queue, entry.0.as_slice()) {
            Some(idx) => {
                let meta = match decrypt_single_metadata_hex(entry.1.as_str(), key) {
                    Ok(x) => x,
                    Err(e) => {
                        proof {
                            assert(is_queued(queue, metadata[m as int]));
                            assert forall|j: int| 0 <= j < ns + nq + m implies (#[trigger] checks[j]) is Ok by {
                                if j >= ns + nq {
                                    assert(checks[ns + nq + (j - ns - nq)] is Ok);
                                }
                            }
                            lemma_first_error_at(checks, ns + nq + m);
                        }
                        return Err(e);
                    },
                };
                proof {
                    assert(is_queued(queue, metadata[m as int]));
                    assert(queue[idx as int].0 == entry.0@);
                }
                decrypted_metadata.push((copy_message(&decrypted_keys[idx]), meta));
                proof {
                    let f = metadata.take(m as int).filter(|e: (Seq<u8>, Seq<char>)| is_queued(queue, e));
                    assert(metadata.take(m as int + 1).filter(|e: (Seq<u8>, Seq<char>)| is_queued(queue, e)) == f.push(metadata[m as int]));
                    let g = |e: (Seq<u8>, Seq<char>)| (
                        queued_message_decryption(key@, e.0)->Ok_0,
                        metadata_decryption(key@, encode_utf8(e.1))->Ok_0,
                    );
                    assert(f.push(metadata[m as int]).map_values(g) =~= f.map_values(g).push(g(metadata[m as int])));
                    assert(entries_view_of(decrypted_metadata@) =~= before.push(g(metadata[m as int])));
                    assert(entries_view_of(decrypted_metadata@) =~= decrypted_metadata_entries(key@, queue, metadata.take(m as int + 1)));
                }
            },
            None => {
                proof {
                    assert(!is_queued(queue, metadata[m as int]));
                    assert(entries_view_of(decrypted_metadata@) =~= decrypted_metadata_entries(key@, queue, metadata.take(m as int + 1)));
                }
            },
        }
        m = m + 1;
    }
    proof {
        assert(metadata.take(metadata.len() as int) =~= metadata);
        assert forall|j: int| 0 <= j < checks.len() implies (#[trigger] checks[j]) is Ok by {
            if j >= ns + nq {
                assert(checks[ns + nq + (j - ns - nq)] is Ok);
            }
        }
        lemma_first_error_none(checks);
        lemma_map_from_entries(decrypted_queue@);
        lemma_map_from_entries(decrypted_metadata@);
    }
    Ok(Wallet::new_with_data(decrypted_signers, *threshold, decrypted_queue, decrypted_metadata))
}

fn copy_message(m: &Vec<u8>) -> (r: Vec<u8>)
    ensures
        r@ == m@,
{
    crate::collections::copy_bytes(m)
}

} // verus!
