use q3x_backend::vetkey::{
    derive_seed_simple, derived_key_request, key_response, vetkey_name, wallet_context, wallet_decryption_key_from_responses,
    wallet_public_key_from_response, wallet_transport_key, ErrorResponse, KeyResponse,
};

/// The hard-coded mainnet master public key of `ic_vetkeys`; any valid
/// compressed G2 point is a valid derived public key.
const PUBLIC_KEY_HEX: &str = "a9caf9ae8af0c7c7272f8a122133e2e0c7c0899b75e502bda9e109ca8193ded3ef042ed96db1125e1bdaad77d8cc60d917e122fe2501c45b96274f43705edf0cfd455bc66c3c060faa2fcd15486e76351edf91fecb993797273bbc8beaa47404";

fn ok_response(hex: &str) -> Result<KeyResponse, ErrorResponse> {
    Ok(KeyResponse { key_hex: hex.to_string() })
}

fn error_response() -> Result<KeyResponse, ErrorResponse> {
    Err(ErrorResponse { error: "Failed to get public key".to_string() })
}

#[test]
fn seed_pads_short_input_with_zeros() {
    let seed = derive_seed_simple("ab", &[1, 2]);
    let mut expected = vec![b'a', b'b', 1, 2];
    expected.resize(32, 0);
    assert_eq!(seed, expected);
}

#[test]
fn seed_truncates_long_input() {
    let id = "wallet-with-a-fairly-long-identifier";
    let seed = derive_seed_simple(id, &[9, 9, 9]);
    assert_eq!(seed, id.as_bytes()[..32].to_vec());
}

#[test]
fn seed_of_exactly_thirty_two_bytes_is_kept() {
    let data: Vec<u8> = (0u8..30).collect();
    let seed = derive_seed_simple("xy", &data);
    let mut expected = vec![b'x', b'y'];
    expected.extend_from_slice(&data);
    assert_eq!(seed, expected);
    assert_eq!(seed.len(), 32);
}

#[test]
fn key_names_follow_the_environment() {
    assert_eq!(vetkey_name("production"), "key_1");
    assert_eq!(vetkey_name("test"), "test_key_1");
    assert_eq!(vetkey_name("local"), "dfx_test_key");
    assert_eq!(vetkey_name(""), "dfx_test_key");
}

#[test]
fn wallet_context_prefixes_the_id() {
    assert_eq!(wallet_context("abc"), b"wallet_abc".to_vec());
    assert_eq!(wallet_context(""), b"wallet_".to_vec());
}

#[test]
fn key_response_is_lowercase_hex() {
    assert_eq!(key_response(&[0xab, 0x01, 0xff]).key_hex, "ab01ff");
    assert_eq!(key_response(&[]).key_hex, "");
}

#[test]
fn public_key_is_read_from_valid_hex() {
    assert!(wallet_public_key_from_response(&ok_response(PUBLIC_KEY_HEX)).is_ok());
}

#[test]
fn public_key_errors() {
    let expected = Some("PublicKeyError".to_string());
    assert_eq!(wallet_public_key_from_response(&error_response()).err(), expected);
    assert_eq!(wallet_public_key_from_response(&ok_response("zz")).err(), expected);
    assert_eq!(wallet_public_key_from_response(&ok_response("abc")).err(), expected);
    assert_eq!(wallet_public_key_from_response(&ok_response("0102")).err(), expected);
    let zeros = "00".repeat(96);
    assert_eq!(wallet_public_key_from_response(&ok_response(&zeros)).err(), expected);
}

#[test]
fn transport_key_and_request() {
    let transport = wallet_transport_key(vec![7u8; 32]).ok().expect("a 32-byte seed makes a transport key");
    let request = derived_key_request("w1", &transport);
    assert_eq!(request.context, b"wallet_w1".to_vec());
    assert_eq!(request.input, b"w1".to_vec());
    assert_eq!(request.transport_public_key.len(), 48);
    let again = derived_key_request("w1", &transport);
    assert_eq!(request.transport_public_key, again.transport_public_key);
}

#[test]
fn decryption_key_errors() {
    let transport = wallet_transport_key(vec![9u8; 32]).ok().unwrap();
    let public = ok_response(PUBLIC_KEY_HEX);
    let err = |r: Result<_, String>| r.err().unwrap();
    assert_eq!(err(wallet_decryption_key_from_responses(&transport, &error_response(), &Some(ok_response("00")), "w")), "PublicKeyError");
    assert_eq!(err(wallet_decryption_key_from_responses(&transport, &public, &None, "w")), "DeriveKeyError");
    assert_eq!(err(wallet_decryption_key_from_responses(&transport, &public, &Some(error_response()), "w")), "DeriveKeyError");
    assert_eq!(err(wallet_decryption_key_from_responses(&transport, &public, &Some(ok_response("xyz")), "w")), "DeriveKeyError");
    assert_eq!(err(wallet_decryption_key_from_responses(&transport, &ok_response("0102"), &Some(ok_response("00")), "w")), "PublicKeyError");
    let short = "00".repeat(100);
    assert_eq!(err(wallet_decryption_key_from_responses(&transport, &public, &Some(ok_response(&short)), "w")), "VetKeyError");
    let wrong = "00".repeat(192);
    assert_eq!(err(wallet_decryption_key_from_responses(&transport, &public, &Some(ok_response(&wrong)), "w")), "VetKeyError");
}

#[test]
fn transport_keys_need_thirty_two_bytes() {
    assert_eq!(wallet_transport_key(vec![1u8; 31]).err(), Some("TransportKeyError".to_string()));
    assert_eq!(wallet_transport_key(vec![]).err(), Some("TransportKeyError".to_string()));
    assert_eq!(wallet_transport_key(vec![1u8; 33]).err(), Some("TransportKeyError".to_string()));
    let a = wallet_transport_key(vec![1u8; 32]).ok().unwrap();
    let b = wallet_transport_key(vec![2u8; 32]).ok().unwrap();
    let request_a = derived_key_request("w", &a);
    let request_b = derived_key_request("w", &b);
    assert_ne!(request_a.transport_public_key, request_b.transport_public_key);
}
