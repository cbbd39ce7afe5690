//! Request signing for the exchange accounts: the API signature of a Kraken balance request and
//! the JSON Web Token that authenticates a Coinbase request. Hashing, MACs, signatures and base64
//! decoding are done by the outside crates; base64 encoding is stated exactly.
use vstd::prelude::*;
use crate::text;
use base64::Engine;
use sha2::Digest;
use hmac::Mac;
use ed25519_dalek::Signer;

verus! {

// ---------------------------------------------------------------------------------------------
// Base64
// ---------------------------------------------------------------------------------------------

/// The character for the 6-bit value `v` in the standard alphabet, or the URL-safe one.
pub open spec fn base64_digit(url_safe: bool, v: int) -> char {
    if v < 26 {
        (65 + v) as char
    } else if v < 52 {
        (97 + v - 26) as char
    } else if v < 62 {
        (48 + v - 52) as char
    } else if v == 62 {
        if url_safe {
            '-'
        } else {
            '+'
        }
    } else if url_safe {
        '_'
    } else {
        '/'
    }
}

/// The base64 text of `b` (RFC 4648): each three bytes as four characters, a final one or two
/// bytes as two or three characters, followed by `=` up to four when `pad` is set.
pub open spec fn base64_text(b: Seq<u8>, url_safe: bool, pad: bool) -> Seq<char>
    decreases b.len(),
{
    if b.len() == 0 {
        Seq::empty()
    } else if b.len() == 1 {
        seq![base64_digit(url_safe, (b[0] as int) / 4), base64_digit(url_safe, ((b[0] as int) % 4) * 16)] + (if pad {
            "=="@
        } else {
            Seq::empty()
        })
    } else if b.len() == 2 {
        seq![
            base64_digit(url_safe, (b[0] as int) / 4),
            base64_digit(url_safe, ((b[0] as int) % 4) * 16 + (b[1] as int) / 16),
            base64_digit(url_safe, ((b[1] as int) % 16) * 4),
        ] + (if pad {
            "="@
        } else {
            Seq::empty()
        })
    } else {
        seq![
            base64_digit(url_safe, (b[0] as int) / 4),
            base64_digit(url_safe, ((b[0] as int) % 4) * 16 + (b[1] as int) / 16),
            base64_digit(url_safe, ((b[1] as int) % 16) * 4 + (b[2] as int) / 64),
            base64_digit(url_safe, (b[2] as int) % 64),
        ] + base64_text(b.skip(3), url_safe, pad)
    }
}

/// `STANDARD.encode` of the `base64` crate: the standard alphabet, padded.
#[verifier::external_body]
fn base64_standard(bytes: &[u8]) -> (s: String)
    ensures
        s@ == base64_text(bytes@, false, true),
{
    base64::engine::general_purpose::STANDARD.encode(bytes)
}

/// `URL_SAFE_NO_PAD.encode` of the `base64` crate: the URL-safe alphabet, without padding.
#[verifier::external_body]
fn base64_url_unpadded(bytes: &[u8]) -> (s: String)
    ensures
        s@ == base64_text(bytes@, true, false),
{
    base64::engine::general_purpose::URL_SAFE_NO_PAD.encode(bytes)
}

/// What `STANDARD.decode` of the `base64` crate gives for the text `s`: the bytes, or `None` when
/// the text is not base64 in the standard alphabet with canonical padding.
pub uninterp spec fn standard_base64_decoded(s: Seq<char>) -> Option<Seq<u8>>;

/// `STANDARD.decode` of the `base64` crate. The result is named; when decoding succeeds, the
/// bytes encode back to the text (the engine requires canonical padding and rejects stray bits),
/// and the canonical encoding of any bytes decodes to those bytes.
#[verifier::external_body]
fn base64_standard_decode(s: &str) -> (r: Option<Vec<u8>>)
    ensures
        match r {
            Some(b) => standard_base64_decoded(s@) == Some(b@) && base64_text(b@, false, true)
                == s@,
            None => standard_base64_decoded(s@) is None,
        },
        forall|b: Seq<u8>|
            #[trigger] base64_text(b, false, true) == s@ ==> (r is Some && r->0@ == b),
{
    base64::engine::general_purpose::STANDARD.decode(s).ok()
}

// ---------------------------------------------------------------------------------------------
// Digests, MACs and signatures
// ---------------------------------------------------------------------------------------------

/// The SHA-256 digest of `data`.
pub uninterp spec fn sha256_of(data: Seq<u8>) -> Seq<u8>;

/// `Sha256::digest` of the `sha2` crate: the 32-byte SHA-256 digest of `data`.
#[verifier::external_body]
fn sha256_digest(data: &[u8]) -> (d: Vec<u8>)
    ensures
        d@ == sha256_of(data@),
        d@.len() == 32,
{
    sha2::Sha256::digest(data).to_vec()
}

/// The HMAC-SHA-512 of `msg` under `key`.
pub uninterp spec fn hmac_sha512_of(key: Seq<u8>, msg: Seq<u8>) -> Seq<u8>;

/// `Hmac<Sha512>` of the `hmac` crate: `new_from_slice(key)`, which accepts keys of any length,
/// `update(msg)` and `finalize`; the 64-byte tag.
#[verifier::external_body]
fn hmac_sha512(key: &[u8], msg: &[u8]) -> (t: Vec<u8>)
    ensures
        t@ == hmac_sha512_of(key@, msg@),
        t@.len() == 64,
{
    match <hmac::Hmac<sha2::Sha512> as Mac>::new_from_slice(key) {
        Ok(mut mac) => {
            mac.update(msg);
            mac.finalize().into_bytes().to_vec()
        },
        Err(_) => Vec::new(),
    }
}

/// The Ed25519 signature (RFC 8032, deterministic) of `msg` by the key with secret seed `seed`.
pub uninterp spec fn ed25519_signature_of(seed: Seq<u8>, msg: Seq<u8>) -> Seq<u8>;

/// `SigningKey::from_bytes(seed).sign(msg).to_bytes()` of the `ed25519-dalek` crate: the 64-byte
/// signature.
#[verifier::external_body]
fn ed25519_sign(seed: &[u8], msg: &[u8]) -> (sig: Vec<u8>)
    requires
        seed@.len() == 32,
    ensures
        sig@ == ed25519_signature_of(seed@, msg@),
        sig@.len() == 64,
{
    match <[u8; 32]>::try_from(seed) {
        Ok(s) => ed25519_dalek::SigningKey::from_bytes(&s).sign(msg).to_bytes().to_vec(),
        Err(_) => Vec::new(),
    }
}

// ---------------------------------------------------------------------------------------------
// Kraken
// ---------------------------------------------------------------------------------------------

/// The bytes of ASCII text.
pub open spec fn ascii_bytes(s: Seq<char>) -> Seq<u8> {
    s.map_values(|c: char| c as u8)
}

fn push_ascii(r: &mut Vec<u8>, v: &Vec<char>)
    ensures
        final(r)@ == old(r)@ + ascii_bytes(v@),
{
    let mut i: usize = 0;
    while i < v.len()
        invariant
            i <= v.len(),
            r@ == old(r)@ + ascii_bytes(v@.take(i as int)),
        decreases v.len() - i,
    {
        r.push(v[i] as u8);
        i += 1;
        assert(r@ =~= old(r)@ + ascii_bytes(v@.take(i as int)));
    }
    assert(v@.take(v.len() as int) =~= v@);
}

/// The private endpoint that reports balances.
pub open spec fn kraken_balance_path() -> Seq<char> {
    "/0/private/Balance"@
}

/// The form body of a balance request with nonce `n`.
pub open spec fn kraken_post_data(n: nat) -> Seq<char> {
    "nonce="@ + text::decimal(n)
}

/// The `API-Sign` value of a balance request with nonce `n`: the HMAC-SHA-512, under the
/// base64-decoded trimmed secret, of the path followed by the SHA-256 of the nonce and the form
/// body; in standard base64. `None` when the secret is not base64.
pub open spec fn kraken_signature(secret: Seq<char>, n: nat) -> Option<Seq<char>> {
    match standard_base64_decoded(text::trim(secret)) {
        Some(k) => Some(
            base64_text(
                hmac_sha512_of(
                    k,
                    ascii_bytes(kraken_balance_path()) + sha256_of(
                        ascii_bytes(text::decimal(n) + kraken_post_data(n)),
                    ),
                ),
                false,
                true,
            ),
        ),
        None => None,
    }
}

/// A signed Kraken balance request: its form body and `API-Sign` header.
pub struct KrakenRequest {
    pub post_data: String,
    pub api_sign: String,
}

/// The balance request for the given credentials and nonce (milliseconds since the epoch);
/// `None` when a credential is empty or the secret is not base64. A secret that is the canonical
/// base64 of some bytes, white space around it aside, always gives a request.
pub fn kraken_balance_request(api_key: &str, api_secret: &str, nonce: u128) -> (r: Option<
    KrakenRequest,
>)
    ensures
        match r {
            Some(q) => api_key@.len() > 0 && api_secret@.len() > 0 && q.post_data@
                == kraken_post_data(nonce as nat) && kraken_signature(api_secret@, nonce as nat)
                == Some(q.api_sign@),
            None => api_key@.len() == 0 || api_secret@.len() == 0 || kraken_signature(
                api_secret@,
                nonce as nat,
            ) is None,
        },
        api_key@.len() > 0 && api_secret@.len() > 0 && (exists|b: Seq<u8>|
            #[trigger] base64_text(b, false, true) == text::trim(api_secret@)) ==> r is Some,
{
    if api_key.is_empty() || api_secret.is_empty() {
        return None;
    }
    let digits = text::decimal_of_wide(nonce);
    let mut post = text::chars_of("nonce=");
    text::append_chars(&mut post, &digits);
    let mut hashed_text = text::copy_chars(&digits);
    text::append_chars(&mut hashed_text, &post);
    let mut hashed: Vec<u8> = Vec::new();
    push_ascii(&mut hashed, &hashed_text);
    assert(hashed@ =~= ascii_bytes(hashed_text@));
    let digest = sha256_digest(hashed.as_slice());
    let sv = text::chars_of(api_secret);
    let trimmed = text::stripped(&sv, text::CharClass::WhiteSpace);
    let ts = text::string_of(&trimmed);
    let key = match base64_standard_decode(ts.as_str()) {
        Some(k) => k,
        None => return None,
    };
    let mut msg: Vec<u8> = Vec::new();
    let path = text::chars_of("/0/private/Balance");
    push_ascii(&mut msg, &path);
    let mut j: usize = 0;
    let ghost head = msg@;
    while j < digest.len()
        invariant
            j <= digest.len(),
            msg@ == head + digest@.take(j as int),
        decreases digest.len() - j,
    {
        msg.push(digest[j]);
        j += 1;
        assert(msg@ =~= head + digest@.take(j as int));
    }
    assert(digest@.take(digest.len() as int) =~= digest@);
    assert(head =~= ascii_bytes(kraken_balance_path()));
    let tag = hmac_sha512(key.as_slice(), msg.as_slice());
    let sign = base64_standard(tag.as_slice());
    Some(KrakenRequest { post_data: text::string_of(&post), api_sign: sign })
}

// ---------------------------------------------------------------------------------------------
// Coinbase
// ---------------------------------------------------------------------------------------------

/// The Ed25519 seed in a Coinbase API secret: the first 32 bytes of the base64-decoded trimmed
/// secret; `None` when it does not decode or is shorter.
pub open spec fn coinbase_seed(secret: Seq<char>) -> Option<Seq<u8>> {
    match standard_base64_decoded(text::trim(secret)) {
        Some(b) => if b.len() >= 32 {
            Some(b.take(32))
        } else {
            None
        },
        None => None,
    }
}

/// The signed part of a JWT: the URL-safe unpadded base64 of the header's and the payload's
/// UTF-8, joined by a dot.
pub open spec fn jwt_signing_input(header: Seq<char>, payload: Seq<char>) -> Seq<char> {
    base64_text(vstd::utf8::encode_utf8(header), true, false) + "."@ + base64_text(
        vstd::utf8::encode_utf8(payload),
        true,
        false,
    )
}

/// The JWT for a header and payload signed with the secret's seed: the signing input, a dot and
/// the URL-safe unpadded base64 of the signature of the input's bytes.
pub open spec fn coinbase_jwt(secret: Seq<char>, header: Seq<char>, payload: Seq<char>) -> Option<
    Seq<char>,
> {
    match coinbase_seed(secret) {
        Some(seed) => {
            let input = jwt_signing_input(header, payload);
            Some(
                input + "."@ + base64_text(
                    ed25519_signature_of(seed, vstd::utf8::encode_utf8(input)),
                    true,
                    false,
                ),
            )
        },
        None => None,
    }
}

fn append_text(r: &mut Vec<char>, s: &String)
    ensures
        final(r)@ == old(r)@ + s@,
{
    let v = text::chars_of(s.as_str());
    text::append_chars(r, &v);
}

/// The bearer token of a Coinbase request: the JWT with header `header_json` and payload
/// `payload_json` (their JSON texts) signed with the key in `api_secret`; `None` when a credential
/// is empty or the secret does not hold a seed. A secret that is the canonical base64 of at least
/// 32 bytes, white space around it aside, always gives a token.
pub fn coinbase_jwt_token(api_key: &str, api_secret: &str, header_json: &str, payload_json: &str) -> (r:
    Option<String>)
    ensures
        match r {
            Some(t) => api_key@.len() > 0 && api_secret@.len() > 0 && coinbase_jwt(
                api_secret@,
                header_json@,
                payload_json@,
            ) == Some(t@),
            None => api_key@.len() == 0 || api_secret@.len() == 0 || coinbase_jwt(
                api_secret@,
                header_json@,
                payload_json@,
            ) is None,
        },
        api_key@.len() > 0 && api_secret@.len() > 0 && (exists|b: Seq<u8>|
            #[trigger] base64_text(b, false, true) == text::trim(api_secret@) && b.len() >= 32)
            ==> r is Some,
{
    if api_key.is_empty() || api_secret.is_empty() {
        return None;
    }
    let sv = text::chars_of(api_secret);
    let trimmed = text::stripped(&sv, text::CharClass::WhiteSpace);
    let ts = text::string_of(&trimmed);
    let raw = match base64_standard_decode(ts.as_str()) {
        Some(b) => b,
        None => return None,
    };
    if raw.len() < 32 {
        return None;
    }
    let mut seed: Vec<u8> = Vec::new();
    let mut i: usize = 0;
    while i < 32
        invariant
            i <= 32 <= raw.len(),
            seed@ == raw@.take(i as int),
        decreases 32 - i,
    {
        seed.push(raw[i]);
        i += 1;
        assert(seed@ =~= raw@.take(i as int));
    }
    let h = base64_url_unpadded(header_json.as_bytes());
    let p = base64_url_unpadded(payload_json.as_bytes());
    let mut input: Vec<char> = Vec::new();
    append_text(&mut input, &h);
    text::append_str(&mut input, ".");
    append_text(&mut input, &p);
    let input_s = text::string_of(&input);
    let sig = ed25519_sign(seed.as_slice(), input_s.as_str().as_bytes());
    let sig_b64 = base64_url_unpadded(sig.as_slice());
    let mut token = input;
    text::append_str(&mut token, ".");
    append_text(&mut token, &sig_b64);
    Some(text::string_of(&token))
}

} // verus!
