//! The wallet's dealings with outside cryptographic and encoding code:
//! principal text (through `candid`'s `Principal`), Candid argument encoding,
//! and identity-based encryption with VetKD keys (through `ic_vetkeys`).
//!
//! Every function here is trusted: its contract restates what the outside
//! crate's source shows, and results that take pages to state are named by
//! the uninterpreted spec functions below.

use candid::Principal;
use ic_ledger_types::{AccountIdentifier, Subaccount};
use ic_vetkeys::{DerivedPublicKey, EncryptedVetKey, IbeCiphertext, IbeIdentity, IbeSeed, TransportSecretKey, VetKey};
use vstd::prelude::*;

verus! {

/// The largest number of bytes a principal holds.
pub open spec fn max_principal_len() -> nat {
    29
}

/// A character that the textual form of a principal can hold: lowercase
/// base32 letters and digits, and the dashes that group them.
pub open spec fn is_principal_text_char(c: char) -> bool {
    ('a' <= c && c <= 'z') || ('2' <= c && c <= '7') || c == '-'
}

/// The textual form of the principal with the given bytes (`Principal::to_text`).
pub uninterp spec fn principal_text(bytes: Seq<u8>) -> Seq<char>;

/// The bytes of the principal that a text spells (`Principal::from_text`), if any.
pub uninterp spec fn principal_parse(text: Seq<char>) -> Option<Seq<u8>>;

/// The Candid encoding of the argument tuple `(principal,)` (`candid::encode_args`).
pub uninterp spec fn candid_principal_args(principal: Seq<u8>) -> Option<Seq<u8>>;

/// The Candid encoding of the argument tuple `(text,)` (`candid::encode_args`).
pub uninterp spec fn candid_text_args(text: Seq<char>) -> Option<Seq<u8>>;

/// The principal that Candid bytes decode to as `(Principal,)` (`candid::decode_args`).
pub uninterp spec fn candid_principal_from_args(bytes: Seq<u8>) -> Option<Seq<u8>>;

/// The text that Candid bytes decode to as `(String,)` (`candid::decode_args`).
pub uninterp spec fn candid_text_from_args(bytes: Seq<u8>) -> Option<Seq<char>>;

/// Whether bytes encode a derived public key (`DerivedPublicKey::deserialize`).
pub uninterp spec fn is_public_key_encoding(bytes: Seq<u8>) -> bool;

/// The serialized IBE ciphertext of `msg` for `identity` under the public key
/// encoded by `public_key`, with seed material `seed`
/// (`IbeCiphertext::encrypt`, then `serialize`).
pub uninterp spec fn ibe_ciphertext(public_key: Seq<u8>, identity: Seq<u8>, msg: Seq<u8>, seed: Seq<u8>) -> Seq<u8>;

/// The transport public key of the transport secret key made from `seed`
/// (`TransportSecretKey::public_key`).
pub uninterp spec fn transport_public_key_of(seed: Seq<u8>) -> Seq<u8>;

/// The bytes of the VetKey recovered from an encrypted VetKey with the
/// transport key made from `transport_seed`, checked against the public key
/// and input (`EncryptedVetKey::decrypt_and_verify`), if recovery succeeds.
pub uninterp spec fn vetkey_recovery(encrypted: Seq<u8>, transport_seed: Seq<u8>, public_key: Seq<u8>, input: Seq<u8>) -> Option<Seq<u8>>;

/// The plaintext of a serialized IBE ciphertext under a VetKey
/// (`IbeCiphertext::deserialize`, then `decrypt`), if decryption succeeds.
pub uninterp spec fn ibe_plaintext(vetkey: Seq<u8>, ciphertext: Seq<u8>) -> Option<Seq<u8>>;

/// `ic_vetkeys::DerivedPublicKey`, carried opaquely.
/// Whether a VetKey opens every IBE ciphertext made for an identity under a
/// public key (with seed material of at least 16 bytes): decryption gives
/// back the message.
pub open spec fn opens(vetkey: Seq<u8>, public_key: Seq<u8>, identity: Seq<u8>) -> bool {
    forall|msg: Seq<u8>, seed: Seq<u8>| seed.len() >= 16 ==> ibe_plaintext(vetkey, #[trigger] ibe_ciphertext(public_key, identity, msg, seed)) == Some(msg)
}

#[verifier::external_type_specification]
#[verifier::external_body]
pub struct ExDerivedPublicKey(DerivedPublicKey);

/// `ic_vetkeys::TransportSecretKey`, carried opaquely.
#[verifier::external_type_specification]
#[verifier::external_body]
pub struct ExTransportSecretKey(TransportSecretKey);

/// `ic_vetkeys::VetKey`, carried opaquely.
#[verifier::external_type_specification]
#[verifier::external_body]
pub struct ExVetKey(VetKey);

/// A wallet's public encryption key, with the bytes it was read from.
pub struct WalletPublicKey {
    key: DerivedPublicKey,
    encoding: Ghost<Seq<u8>>,
}

impl View for WalletPublicKey {
    type V = Seq<u8>;

    closed spec fn view(&self) -> Seq<u8> {
        self.encoding@
    }
}

/// A transport secret key, with the seed it was made from.
pub struct TransportKey {
    key: TransportSecretKey,
    seed: Ghost<Seq<u8>>,
}

impl View for TransportKey {
    type V = Seq<u8>;

    closed spec fn view(&self) -> Seq<u8> {
        self.seed@
    }
}

/// A wallet's decryption key (a VetKey), with its byte encoding.
pub struct WalletVetKey {
    key: VetKey,
    encoding: Ghost<Seq<u8>>,
}

impl View for WalletVetKey {
    type V = Seq<u8>;

    closed spec fn view(&self) -> Seq<u8> {
        self.encoding@
    }
}

/// `Principal::from_slice` then `Principal::to_text`: the principal's text.
/// As the crate's source shows, the text is lowercase base32 grouped by
/// dashes, and `Principal::from_text` reads it back to the same bytes.
#[verifier::external_body]
pub(crate) fn principal_to_text(bytes: &[u8]) -> (text: String)
    requires
        bytes@.len() <= max_principal_len(),
    ensures
        text@ == principal_text(bytes@),
        principal_parse(text@) == Some(bytes@),
        forall|i: int| 0 <= i < text@.len() ==> is_principal_text_char(#[trigger] text@[i]),
{
    Principal::from_slice(bytes).to_text()
}

/// `Principal::from_text`: the bytes of the principal that `text` spells, if
/// any; they are never more than the principal's capacity of 29 bytes.
#[verifier::external_body]
pub(crate) fn principal_from_text(text: &str) -> (bytes: Option<Vec<u8>>)
    ensures
        bytes matches Some(b) ==> principal_parse(text@) == Some(b@) && b@.len() <= max_principal_len(),
        bytes is None ==> principal_parse(text@) is None,
{
    match Principal::from_text(text) {
        Ok(p) => Some(p.as_slice().to_vec()),
        Err(_) => None,
    }
}

/// `candid::encode_args((principal,))`; as the crate documents,
/// `candid::decode_args` reads the encoding back to the same principal.
#[verifier::external_body]
pub(crate) fn candid_encode_principal(principal: &[u8]) -> (encoded: Option<Vec<u8>>)
    requires
        principal@.len() <= max_principal_len(),
    ensures
        encoded matches Some(e) ==> candid_principal_args(principal@) == Some(e@),
        encoded matches Some(e) ==> candid_principal_from_args(e@) == Some(principal@),
        encoded is None ==> candid_principal_args(principal@) is None,
{
    candid::encode_args((Principal::from_slice(principal),)).ok()
}

/// `candid::encode_args((text,))`; as the crate documents,
/// `candid::decode_args` reads the encoding back to the same text.
#[verifier::external_body]
pub(crate) fn candid_encode_text(text: &String) -> (encoded: Option<Vec<u8>>)
    ensures
        encoded matches Some(e) ==> candid_text_args(text@) == Some(e@),
        encoded matches Some(e) ==> candid_text_from_args(e@) == Some(text@),
        encoded is None ==> candid_text_args(text@) is None,
{
    candid::encode_args((text,)).ok()
}

/// `candid::decode_args::<(Principal,)>`: the principal's bytes, which never
/// exceed the principal's capacity.
#[verifier::external_body]
pub(crate) fn candid_decode_principal(bytes: &[u8]) -> (principal: Option<Vec<u8>>)
    ensures
        principal matches Some(p) ==> candid_principal_from_args(bytes@) == Some(p@) && p@.len() <= max_principal_len(),
        principal is None ==> candid_principal_from_args(bytes@) is None,
{
    match candid::decode_args::<(Principal,)>(bytes) {
        Ok((p,)) => Some(p.as_slice().to_vec()),
        Err(_) => None,
    }
}

/// `candid::decode_args::<(String,)>`.
#[verifier::external_body]
pub(crate) fn candid_decode_text(bytes: &[u8]) -> (text: Option<String>)
    ensures
        text matches Some(t) ==> candid_text_from_args(bytes@) == Some(t@),
        text is None ==> candid_text_from_args(bytes@) is None,
{
    match candid::decode_args::<(String,)>(bytes) {
        Ok((t,)) => Some(t),
        Err(_) => None,
    }
}

/// `DerivedPublicKey::deserialize`: fails on anything but a valid encoding,
/// and, as the source shows, on any input that is not 96 bytes long.
#[verifier::external_body]
pub(crate) fn deserialize_public_key(bytes: &[u8]) -> (key: Option<WalletPublicKey>)
    ensures
        key is Some <==> is_public_key_encoding(bytes@),
        key matches Some(k) ==> k@ == bytes@,
        bytes@.len() != 96 ==> key is None,
{
    match DerivedPublicKey::deserialize(bytes) {
        Ok(key) => Some(WalletPublicKey { key, encoding: Ghost(bytes@) }),
        Err(_) => None,
    }
}

/// `IbeSeed::from_bytes` (which, as the source shows, fails exactly on fewer
/// than 16 bytes), then `IbeCiphertext::encrypt` under `identity`, then
/// `serialize`. Encryption is a function of its inputs alone.
#[verifier::external_body]
pub(crate) fn ibe_encrypt(key: &WalletPublicKey, identity: &[u8], msg: &[u8], seed: &[u8]) -> (ciphertext: Option<Vec<u8>>)
    ensures
        ciphertext is Some <==> seed@.len() >= 16,
        ciphertext matches Some(c) ==> c@ == ibe_ciphertext(key@, identity@, msg@, seed@),
{
    match IbeSeed::from_bytes(seed) {
        Ok(s) => Some(IbeCiphertext::encrypt(&key.key, &IbeIdentity::from_bytes(identity), msg, &s).serialize()),
        Err(_) => None,
    }
}

/// `TransportSecretKey::from_seed`: fails exactly when the seed is not 32
/// bytes long, as the source shows.
#[verifier::external_body]
pub(crate) fn transport_key_from_seed(seed: Vec<u8>) -> (key: Option<TransportKey>)
    ensures
        key is Some <==> seed@.len() == 32,
        key matches Some(k) ==> k@ == seed@,
{
    let ghost s = seed@;
    match TransportSecretKey::from_seed(seed) {
        Ok(key) => Some(TransportKey { key, seed: Ghost(s) }),
        Err(_) => None,
    }
}

/// `TransportSecretKey::public_key`.
#[verifier::external_body]
pub(crate) fn transport_public_key(key: &TransportKey) -> (public_key: Vec<u8>)
    ensures
        public_key@ == transport_public_key_of(key@),
{
    key.key.public_key()
}

/// `EncryptedVetKey::deserialize` (which fails on any input that is not
/// 192 bytes long), then `EncryptedVetKey::decrypt_and_verify`, which checks
/// that the key is the VetKey of the public key and input; as the crate
/// documents for `IbeCiphertext::encrypt` and `decrypt`, that VetKey
/// decrypts what was encrypted under the public key for that input.
#[verifier::external_body]
pub(crate) fn recover_vetkey(encrypted: &[u8], transport: &TransportKey, public_key: &WalletPublicKey, input: &[u8]) -> (vetkey: Option<WalletVetKey>)
    ensures
        vetkey matches Some(v) ==> vetkey_recovery(encrypted@, transport@, public_key@, input@) == Some(v@),
        vetkey is None ==> vetkey_recovery(encrypted@, transport@, public_key@, input@) is None,
        encrypted@.len() != 192 ==> vetkey is None,
        vetkey matches Some(v) ==> opens(v@, public_key@, input@),
{
    let ghost expected = vetkey_recovery(encrypted@, transport@, public_key@, input@);
    match EncryptedVetKey::deserialize(encrypted) {
        Ok(ek) => match ek.decrypt_and_verify(&transport.key, &public_key.key, input) {
            Ok(key) => Some(WalletVetKey { key, encoding: Ghost(expected->0) }),
            Err(_) => None,
        },
        Err(_) => None,
    }
}

/// `IbeCiphertext::deserialize` (which fails on fewer than 136 bytes), then
/// `IbeCiphertext::decrypt` with the VetKey.
#[verifier::external_body]
pub(crate) fn ibe_decrypt(vetkey: &WalletVetKey, ciphertext: &[u8]) -> (plaintext: Option<Vec<u8>>)
    ensures
        plaintext matches Some(p) ==> ibe_plaintext(vetkey@, ciphertext@) == Some(p@),
        plaintext is None ==> ibe_plaintext(vetkey@, ciphertext@) is None,
        ciphertext@.len() < 136 ==> plaintext is None,
{
    match IbeCiphertext::deserialize(ciphertext) {
        Ok(ct) => ct.decrypt(&vetkey.key).ok(),
        Err(_) => None,
    }
}

/// The ledger account identifier of a principal's subaccount
/// (`AccountIdentifier::new`).
pub uninterp spec fn account_identifier_of(owner: Seq<u8>, subaccount: Seq<u8>) -> Seq<u8>;

/// `AccountIdentifier::new`: the 32-byte account identifier of the owner's
/// subaccount (a checksum followed by a hash, as the crate's source shows).
#[verifier::external_body]
pub(crate) fn account_identifier(owner: &[u8], subaccount: &[u8; 32]) -> (id: Vec<u8>)
    requires
        owner@.len() <= max_principal_len(),
    ensures
        id@ == account_identifier_of(owner@, subaccount@),
        id@.len() == 32,
{
    AccountIdentifier::new(&Principal::from_slice(owner), &Subaccount(*subaccount)).as_ref().to_vec()
}

} // verus!
