use base64::Engine;
use dashboard::signing::{coinbase_jwt_token, kraken_balance_request};
use ed25519_dalek::Verifier;
use hmac::Mac;
use sha2::Digest;

#[test]
fn kraken_requests_are_signed_with_the_decoded_secret() {
    let secret_bytes = b"kraken secret key material";
    let secret = base64::engine::general_purpose::STANDARD.encode(secret_bytes);
    let nonce: u128 = 1_700_000_000_123;
    let req = kraken_balance_request("key", &format!("  {secret}\n"), nonce).unwrap();
    assert_eq!(req.post_data, "nonce=1700000000123");

    let digest = sha2::Sha256::digest(format!("{nonce}nonce={nonce}").as_bytes());
    let mut mac = hmac::Hmac::<sha2::Sha512>::new_from_slice(secret_bytes).unwrap();
    mac.update(b"/0/private/Balance");
    mac.update(&digest);
    let expected = base64::engine::general_purpose::STANDARD.encode(mac.finalize().into_bytes());
    assert_eq!(req.api_sign, expected);
}

#[test]
fn kraken_needs_credentials_and_a_base64_secret() {
    assert!(kraken_balance_request("", "", 1).is_none());
    assert!(kraken_balance_request("key", "", 1).is_none());
    assert!(kraken_balance_request("key", "not base64!", 1).is_none());
}

#[test]
fn coinbase_tokens_are_signed_jwts() {
    let seed = [7u8; 32];
    let mut raw = seed.to_vec();
    raw.extend_from_slice(&[9u8; 32]);
    let secret = base64::engine::general_purpose::STANDARD.encode(&raw);
    let header = r#"{"alg":"EdDSA","kid":"k","nonce":"1","typ":"JWT"}"#;
    let payload = r#"{"exp":120,"iss":"coinbase-cloud","nbf":0,"sub":"k","uri":"GET api.coinbase.com/api/v3/brokerage/accounts"}"#;
    let token = coinbase_jwt_token("k", &secret, header, payload).unwrap();

    let parts: Vec<&str> = token.split('.').collect();
    assert_eq!(parts.len(), 3);
    let url = base64::engine::general_purpose::URL_SAFE_NO_PAD;
    assert_eq!(url.decode(parts[0]).unwrap(), header.as_bytes());
    assert_eq!(url.decode(parts[1]).unwrap(), payload.as_bytes());
    let sig_bytes: [u8; 64] = url.decode(parts[2]).unwrap().try_into().unwrap();
    let key = ed25519_dalek::SigningKey::from_bytes(&seed).verifying_key();
    let signed = format!("{}.{}", parts[0], parts[1]);
    assert!(key.verify(signed.as_bytes(), &ed25519_dalek::Signature::from_bytes(&sig_bytes)).is_ok());
}

#[test]
fn coinbase_needs_a_seed_of_32_bytes() {
    let short = base64::engine::general_purpose::STANDARD.encode([1u8; 31]);
    assert!(coinbase_jwt_token("k", &short, "{}", "{}").is_none());
    assert!(coinbase_jwt_token("", "abc", "{}", "{}").is_none());
    assert!(coinbase_jwt_token("k", "%%%", "{}", "{}").is_none());
}
