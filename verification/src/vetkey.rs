//! Key material for the wallet's identity-based encryption.

use vstd::prelude::*;
use vstd::string::StringSliceAdditionalSpecFns;
use crate::codec::{hex_decode, hex_decoding, hex_encode, hex_encoding};
use crate::crypto::{
    deserialize_public_key, is_public_key_encoding, opens, recover_vetkey, transport_key_from_seed, transport_public_key, transport_public_key_of,
    vetkey_recovery, TransportKey, WalletPublicKey, WalletVetKey,
};
use vstd::utf8::encode_utf8;

verus! {

/// The 32-byte seed derived from a wallet id and some data: their
/// concatenation, padded with zero bytes or cut to exactly 32 bytes.
pub open spec fn seed_of(wallet_id: Seq<u8>, data: Seq<u8>) -> Seq<u8> {
    let joined = wallet_id + data;
    if joined.len() < 32 {
        joined + Seq::new((32 - joined.len()) as nat, |i: int| 0u8)
    } else {
        joined.take(32)
    }
}

/// Derives a deterministic 32-byte seed from the wallet id's UTF-8 bytes
/// followed by `data`, zero-padded or truncated to 32 bytes.
pub fn derive_seed_simple(wallet_id: &str, data: &[u8]) -> (seed: Vec<u8>)
    ensures
        seed@ == seed_of(wallet_id.spec_bytes(), data@),
        seed@.len() == 32,
{
    let id = wallet_id.as_bytes();
    let ghost joined = id@ + data@;
    let mut seed: Vec<u8> = Vec::new();
    let mut i: usize = 0;
    while i < id.len() && seed.len() < 32
        invariant
            i <= id@.len(),
            seed@.len() == i,
            i <= 32,
            seed@ == joined.take(i as int),
            joined == id@ + data@,
        decreases id@.len() - i,
    {
        seed.push(id[i]);
        i = i + 1;
    }
    let mut j: usize = 0;
    while j < data.len() && seed.len() < 32
        invariant
            j <= data@.len(),
            seed@.len() <= 32,
            joined == id@ + data@,
            seed@.len() < 32 ==> i == id@.len(),
            j > 0 ==> i == id@.len(),
            seed@ == joined.take(seed@.len() as int),
            seed@.len() == i + j,
        decreases data@.len() - j,
    {
        seed.push(data[j]);
        j = j + 1;
    }
    let ghost filled = seed@;
    while seed.len() < 32
        invariant
            seed@.len() <= 32,
            filled.len() <= seed@.len(),
            seed@.subrange(0, filled.len() as int) == filled,
            forall|k: int| filled.len() <= k < seed@.len() ==> seed@[k] == 0u8,
        decreases 32 - seed@.len(),
    {
        seed.push(0u8);
    }
    proof {
        if joined.len() < 32 {
            assert(filled =~= joined);
            assert(seed@ =~= seed_of(id@, data@));
        } else {
            assert(filled.len() == 32);
            assert(seed@ =~= seed_of(id@, data@));
        }
    }
    seed
}

/// A key returned by the key service, as hex text.
pub struct KeyResponse {
    pub key_hex: String,
}

/// A failure reported by the key service.
pub struct ErrorResponse {
    pub error: String,
}

/// The error when the wallet's public key cannot be had.
pub open spec fn public_key_error() -> Seq<char> {
    "PublicKeyError"@
}

/// The error when the derived key cannot be had.
pub open spec fn derive_key_error() -> Seq<char> {
    "DeriveKeyError"@
}

/// The error when the VetKey cannot be recovered.
pub open spec fn vetkey_error() -> Seq<char> {
    "VetKeyError"@
}

fn text(s: &str) -> (t: String)
    ensures
        t@ == s@,
{
    s.to_owned()
}

/// The name of the VetKD key for a deployment environment.
pub open spec fn vetkey_name_spec(env: Seq<char>) -> Seq<char> {
    if env == "production"@ {
        "key_1"@
    } else if env == "test"@ {
        "test_key_1"@
    } else {
        "dfx_test_key"@
    }
}

/// The name of the VetKD key for a deployment environment: `key_1` in
/// production, `test_key_1` in test, `dfx_test_key` otherwise.
pub fn vetkey_name(env: &str) -> (name: String)
    ensures
        name@ == vetkey_name_spec(env@),
{
    let e = text(env);
    if e == text("production") {
        text("key_1")
    } else if e == text("test") {
        text("test_key_1")
    } else {
        text("dfx_test_key")
    }
}

/// The key-derivation context of a wallet: the bytes of `wallet_` followed
/// by the wallet id.
pub fn wallet_context(wallet_id: &str) -> (context: Vec<u8>)
    ensures
        context@ == "wallet_".spec_bytes() + wallet_id.spec_bytes(),
{
    let prefix = "wallet_".as_bytes();
    let id = wallet_id.as_bytes();
    let mut context = vstd::slice::slice_to_vec(prefix);
    let mut i: usize = 0;
    while i < id.len()
        invariant
            i <= id@.len(),
            context@ == prefix@ + id@.take(i as int),
        decreases id@.len() - i,
    {
        context.push(id[i]);
        i = i + 1;
        assert(context@ =~= prefix@ + id@.take(i as int));
    }
    assert(id@.take(i as int) =~= id@);
    context
}

/// A key from the key service, as hex text.
pub fn key_response(key: &[u8]) -> (response: KeyResponse)
    ensures
        response.key_hex@ == hex_encoding(key@),
{
    KeyResponse { key_hex: hex_encode(key) }
}

/// The wallet's public key, from the key service's response: its hex text
/// must decode to a valid public key encoding; otherwise `PublicKeyError`.
pub fn wallet_public_key_from_response(response: &Result<KeyResponse, ErrorResponse>) -> (key: Result<WalletPublicKey, String>)
    ensures
        match response {
            Ok(r) => match hex_decoding(encode_utf8(r.key_hex@)) {
                Some(b) => if is_public_key_encoding(b) {
                    key matches Ok(k) && k@ == b
                } else {
                    key matches Err(e) && e@ == public_key_error()
                },
                None => key matches Err(e) && e@ == public_key_error(),
            },
            Err(_) => key matches Err(e) && e@ == public_key_error(),
        },
{
    let r = match response {
        Ok(r) => r,
        Err(_) => return Err(text("PublicKeyError")),
    };
    let decoded = match hex_decode(r.key_hex.as_str()) {
        Some(b) => b,
        None => return Err(text("PublicKeyError")),
    };
    match deserialize_public_key(decoded.as_slice()) {
        Some(k) => Ok(k),
        None => Err(text("PublicKeyError")),
    }
}

/// The error when the transport key cannot be made.
pub open spec fn transport_key_error() -> Seq<char> {
    "TransportKeyError"@
}

/// The transport key with which the wallet's decryption key is requested,
/// made from a seed that the caller draws afresh from a secure random source
/// for each request, so that only the caller can read the derived key sent
/// back under it; refused unless the seed is 32 bytes long.
pub fn wallet_transport_key(seed: Vec<u8>) -> (key: Result<TransportKey, String>)
    ensures
        key is Ok <==> seed@.len() == 32,
        key matches Ok(k) ==> k@ == seed@,
        key matches Err(e) ==> e@ == transport_key_error(),
{
    match transport_key_from_seed(seed) {
        Some(k) => Ok(k),
        None => Err(text("TransportKeyError")),
    }
}

/// What a wallet's derived key is requested with: the wallet's context, the
/// wallet id's bytes as input, and the public key of the transport key that
/// the derived key is encrypted for.
pub struct DerivedKeyRequest {
    pub context: Vec<u8>,
    pub input: Vec<u8>,
    pub transport_public_key: Vec<u8>,
}

/// The request for a wallet's derived key, encrypted for a transport key.
pub fn derived_key_request(wallet_id: &str, transport: &TransportKey) -> (request: DerivedKeyRequest)
    ensures
        request.context@ == "wallet_".spec_bytes() + wallet_id.spec_bytes(),
        request.input@ == wallet_id.spec_bytes(),
        request.transport_public_key@ == transport_public_key_of(transport@),
{
    DerivedKeyRequest {
        context: wallet_context(wallet_id),
        input: vstd::slice::slice_to_vec(wallet_id.as_bytes()),
        transport_public_key: transport_public_key(transport),
    }
}

/// The wallet's decryption key, from the key service's responses to the
/// public-key request (`public`) and to the derived-key request (`derived`,
/// `None` when it was not made): the public key must decode, then the
/// encrypted VetKey must decode and be recovered with the transport key and
/// the wallet id as input. The key then opens every ciphertext encrypted
/// for the wallet id under that public key.
pub fn wallet_decryption_key_from_responses(
    transport: &TransportKey,
    public: &Result<KeyResponse, ErrorResponse>,
    derived: &Option<Result<KeyResponse, ErrorResponse>>,
    wallet_id: &str,
) -> (key: Result<WalletVetKey, String>)
    ensures
        match (public, derived) {
            (Err(_), _) => key matches Err(e) && e@ == public_key_error(),
            (Ok(_), None) => key matches Err(e) && e@ == derive_key_error(),
            (Ok(_), Some(Err(_))) => key matches Err(e) && e@ == derive_key_error(),
            (Ok(p), Some(Ok(d))) => match hex_decoding(encode_utf8(p.key_hex@)) {
                Some(pk) => if is_public_key_encoding(pk) {
                    match hex_decoding(encode_utf8(d.key_hex@)) {
                        Some(ek) => match vetkey_recovery(ek, transport@, pk, wallet_id.spec_bytes()) {
                            Some(v) => key matches Ok(k) && k@ == v,
                            None => key matches Err(e) && e@ == vetkey_error(),
                        },
                        None => key matches Err(e) && e@ == derive_key_error(),
                    }
                } else {
                    key matches Err(e) && e@ == public_key_error()
                },
                None => key matches Err(e) && e@ == public_key_error(),
            },
        },
        key matches Ok(k) ==> (public matches Ok(p) && opens(k@, hex_decoding(encode_utf8(p.key_hex@))->0, wallet_id.spec_bytes())),
{
    let public_response = match public {
        Ok(r) => r,
        Err(_) => return Err(text("PublicKeyError")),
    };
    let derived_response = match derived {
        Some(Ok(r)) => r,
        _ => return Err(text("DeriveKeyError")),
    };
    let public_bytes = match hex_decode(public_response.key_hex.as_str()) {
        Some(b) => b,
        None => return Err(text("PublicKeyError")),
    };
    let public_key = match deserialize_public_key(public_bytes.as_slice()) {
        Some(k) => k,
        None => return Err(text("PublicKeyError")),
    };
    let encrypted = match hex_decode(derived_response.key_hex.as_str()) {
        Some(b) => b,
        None => return Err(text("DeriveKeyError")),
    };
    match recover_vetkey(encrypted.as_slice(), transport, &public_key, wallet_id.as_bytes()) {
        Some(k) => Ok(k),
        None => Err(text("VetKeyError")),
    }
}

} // verus!
