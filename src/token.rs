use vstd::prelude::*;
use vstd::utf8::encode_utf8;
use crate::codec::{canonical_hex, hex_decode, hex_encode, hex_of, lemma_hex_of_digits, unhex};
use crate::payload::{encode_payload, payload_text};
use crate::types::{Rank, TokenData};

verus! {

/// How long a token stays valid, in nanoseconds: ten minutes.
pub const TOKEN_LIFETIME: u64 = 600_000_000_000;

/// The SHA-256 digest of a byte string.
pub uninterp spec fn sha256_of(b: Seq<u8>) -> Seq<u8>;

/// Relies on sha2::Sha256: the digest of the text's UTF-8 bytes.
#[verifier::external_body]
pub fn sha256(input: &String) -> (r: [u8; 32])
    ensures
        r@ == sha256_of(encode_utf8(input@)),
{
    <sha2::Sha256 as sha2::Digest>::digest(input.as_bytes()).into()
}

/// Whether the secp256k1 key given in SEC1 form accepts the signature (64
/// bytes, `r` then `s`) over the SHA-256 digest of the message.
pub uninterp spec fn ecdsa_accepts(signature: Seq<u8>, message: Seq<u8>, public_key: Seq<u8>) -> bool;

/// Relies on k256: `Signature::try_from` reads the signature,
/// `VerifyingKey::from_sec1_bytes` reads the key, and `Verifier::verify`
/// checks the signature over the SHA-256 digest of the message. Bytes that
/// are no signature or no key are refused.
#[verifier::external_body]
fn ecdsa_verify(signature: &[u8], message: &[u8], public_key: &[u8]) -> (r: bool)
    ensures
        r == ecdsa_accepts(signature@, message@, public_key@),
{
    match (k256::ecdsa::Signature::try_from(signature), k256::ecdsa::VerifyingKey::from_sec1_bytes(public_key)) {
        (Ok(sig), Ok(key)) => k256::ecdsa::signature::Verifier::verify(&key, message, &sig).is_ok(),
        _ => false,
    }
}

/// Whether a hex signature over a message checks against a hex public key.
pub open spec fn signature_ok(signature_hex: Seq<char>, message: Seq<char>, public_key_hex: Seq<char>) -> bool {
    match (unhex(signature_hex), unhex(public_key_hex)) {
        (Some(s), Some(k)) => ecdsa_accepts(s, encode_utf8(message), k),
        _ => false,
    }
}

/// Checks a hex-encoded signature over the bytes of `message` against a
/// hex-encoded public key. Text that is not hex fails the check.
pub fn verify(signature_hex: String, message: String, public_key_hex: String) -> (r: bool)
    ensures
        r == signature_ok(signature_hex@, message@, public_key_hex@),
{
    let signature = match hex_decode(signature_hex.as_str()) {
        Some(s) => s,
        None => return false,
    };
    let key = match hex_decode(public_key_hex.as_str()) {
        Some(k) => k,
        None => return false,
    };
    ecdsa_verify(signature.as_slice(), message.as_str().as_bytes(), key.as_slice())
}

/// Whether a text is the lowercase hex of the bytes it decodes to, as the
/// token format writes a signature.
pub fn is_canonical_hex(s: &String) -> (r: bool)
    ensures
        r == canonical_hex(s@),
{
    match hex_decode(s.as_str()) {
        Some(b) => hex_encode(b.as_slice()) == *s,
        None => false,
    }
}

/// The text of a token: the hex payload, a dot, the hex signature.
pub open spec fn token_text(payload: Seq<char>, signature: Seq<u8>) -> Seq<char> {
    hex_of(encode_utf8(payload)) + seq!['.'] + hex_of(signature)
}

/// `t` has exactly one dot, at `d`, with text on both sides.
pub open spec fn splits_at(t: Seq<char>, d: int) -> bool {
    &&& 0 < d < t.len() - 1
    &&& t[d] == '.'
    &&& forall|k: int| 0 <= k < t.len() && k != d ==> t[k] != '.'
}

/// The two segments of a token, if it has exactly two non-empty ones.
pub open spec fn token_parts(t: Seq<char>) -> Option<(Seq<char>, Seq<char>)> {
    if exists|d: int| splits_at(t, d) {
        let d = choose|d: int| splits_at(t, d);
        Some((t.subrange(0, d), t.subrange(d + 1, t.len() as int)))
    } else {
        None
    }
}

/// Splits a token into its payload and signature segments.
pub fn split_token(t: &str) -> (r: Option<(String, String)>)
    ensures
        match token_parts(t@) {
            Some(parts) => r matches Some(p) && p.0@ == parts.0 && p.1@ == parts.1,
            None => r is None,
        },
{
    let n = t.unicode_len();
    let mut d: usize = 0;
    while d < n && t.get_char(d) != '.'
        invariant
            n == t@.len(),
            d <= n,
            forall|k: int| 0 <= k < d ==> t@[k] != '.',
        decreases n - d,
    {
        d = d + 1;
    }
    if d == 0 || d >= n || n - d == 1 {
        assert(!exists|x: int| splits_at(t@, x)) by {
            if exists|x: int| splits_at(t@, x) {
                let x = choose|x: int| splits_at(t@, x);
                if x < d {
                } else if x > d {
                    assert(t@[d as int] == '.');
                }
            }
        }
        return None;
    }
    let mut e: usize = d + 1;
    while e < n && t.get_char(e) != '.'
        invariant
            n == t@.len(),
            d + 1 <= e <= n,
            forall|k: int| d < k < e ==> t@[k] != '.',
        decreases n - e,
    {
        e = e + 1;
    }
    if e < n {
        assert(!exists|x: int| splits_at(t@, x)) by {
            if exists|x: int| splits_at(t@, x) {
                let x = choose|x: int| splits_at(t@, x);
                if x != d {
                    assert(t@[d as int] == '.');
                } else {
                    assert(t@[e as int] == '.');
                }
            }
        }
        return None;
    }
    assert(splits_at(t@, d as int));
    let ghost x = choose|x: int| splits_at(t@, x);
    assert(x == d) by {
        if x != d {
            assert(t@[d as int] == '.');
        }
    }
    let m = t.substring_char(0, d).to_owned();
    let s = t.substring_char(d + 1, n).to_owned();
    Some((m, s))
}

/// The claims of a new token, which expires `TOKEN_LIFETIME` after `now`.
pub fn token_claims(username: String, user_id: String, rank: Rank, now: u64) -> (r: TokenData)
    requires
        now <= u64::MAX - TOKEN_LIFETIME,
    ensures
        r.username@ == username@,
        r.user_id@ == user_id@,
        r.rank == rank,
        r.expires_at == now + TOKEN_LIFETIME,
{
    TokenData { username, user_id, expires_at: now + TOKEN_LIFETIME, rank }
}

/// The message that a token signs: the hex form of its payload.
pub fn auth_message(data: &TokenData) -> (r: String)
    ensures
        r@ == hex_of(encode_utf8(payload_text(data.username@, data.user_id@, data.expires_at, data.rank))),
{
    let payload = encode_payload(data);
    hex_encode(payload.as_str().as_bytes())
}

/// The digest that the signing service signs for a message.
pub fn signing_digest(message: &String) -> (r: [u8; 32])
    ensures
        r@ == sha256_of(encode_utf8(message@)),
{
    sha256(message)
}

/// Joins a message and its signature into a token.
pub fn join_token(message: &String, signature: &Vec<u8>) -> (r: String)
    ensures
        r@ == message@ + seq!['.'] + hex_of(signature@),
{
    let mut r = message.clone();
    let ghost m = r@;
    r.append(".");
    proof {
        reveal_strlit(".");
    }
    assert(r@ == m + seq!['.']);
    r.append(hex_encode(signature.as_slice()).as_str());
    r
}

/// A token splits back into its message and signature.
pub proof fn lemma_token_parts(payload: Seq<char>, signature: Seq<u8>)
    requires
        payload.len() > 0,
        signature.len() > 0,
    ensures
        token_parts(token_text(payload, signature)) == Some((hex_of(encode_utf8(payload)), hex_of(signature))),
{
    let m = hex_of(encode_utf8(payload));
    let s = hex_of(signature);
    let t = token_text(payload, signature);
    lemma_hex_of_digits(encode_utf8(payload));
    lemma_hex_of_digits(signature);
    vstd::utf8::encode_utf8_first_scalar(payload);
    let d = m.len() as int;
    assert forall|k: int| 0 <= k < t.len() && k != d implies t[k] != '.' by {
        if k > d {
            assert(t[k] == s[k - d - 1]);
        } else {
            assert(t[k] == m[k]);
        }
    }
    assert(splits_at(t, d));
    let x = choose|x: int| splits_at(t, x);
    assert(x == d) by {
        if x != d {
            assert(t[d] == '.');
        }
    }
    assert(t.subrange(0, d) =~= m);
    assert(t.subrange(d + 1, t.len() as int) =~= s);
}

} // verus!
