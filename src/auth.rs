use vstd::prelude::*;
use vstd::utf8::{decode_utf8, encode_utf8, valid_utf8};
use crate::codec::{
    canonical_hex, hex_decode, hex_of, is_lower_hex_digit, lemma_hex_of_digits, lemma_unhex_hex_of, unhex,
};
use crate::payload::{decode_payload, is_payload, lemma_payload_injective, lemma_payload_layout, payload_text};
use crate::store::{Store, TokenError};
use crate::token::{
    is_canonical_hex, lemma_token_parts, signature_ok, split_token, token_parts, token_text, verify,
};
use crate::types::{Rank, TokenData, UserView};

verus! {

/// The derivation path of an identity's signing key.
pub open spec fn derivation_path(app_name: Seq<char>, username: Seq<char>, user_id: Seq<char>) -> Seq<Seq<u8>> {
    seq![encode_utf8(app_name), encode_utf8("AuthKey"@), encode_utf8(username), encode_utf8(user_id)]
}

/// Builds the derivation path `[app name, "AuthKey", username, user id]`.
pub fn get_auth_derivation_path(canister_name: String, username: String, user_id: String) -> (r: Vec<Vec<u8>>)
    ensures
        r@.map_values(|b: Vec<u8>| b@) == derivation_path(canister_name@, username@, user_id@),
{
    let r = vec![
        canister_name.as_str().as_bytes_vec(),
        "AuthKey".as_bytes_vec(),
        username.as_str().as_bytes_vec(),
        user_id.as_str().as_bytes_vec(),
    ];
    assert(r@.map_values(|b: Vec<u8>| b@) =~= derivation_path(canister_name@, username@, user_id@));
    r
}

/// Relies on String::from_utf8: valid UTF-8 becomes the text it encodes,
/// anything else is refused.
#[verifier::external_body]
fn utf8_text(b: Vec<u8>) -> (r: Option<String>)
    ensures
        r is Some <==> valid_utf8(b@),
        r is Some ==> encode_utf8(r.unwrap()@) == b@,
{
    String::from_utf8(b).ok()
}

/// The claims of a token: username, user id, expiry time and rank.
pub type Claims = (Seq<char>, Seq<char>, u64, Rank);

/// The claims that a payload was written from.
pub open spec fn payload_claims(p: Seq<char>) -> Claims {
    choose|c: Claims| payload_text(c.0, c.1, c.2, c.3) == p
}

/// What verifying a token against the registry gives at time `now`.
pub open spec fn token_verdict(users: Map<Seq<char>, UserView>, token: Seq<char>, now: u64) -> Result<Claims, TokenError> {
    match token_parts(token) {
        None => Err(TokenError::Malformed),
        Some(parts) => match unhex(parts.0) {
            None => Err(TokenError::Malformed),
            Some(b) => if !valid_utf8(b) || !is_payload(decode_utf8(b)) {
                Err(TokenError::Malformed)
            } else {
                let c = payload_claims(decode_utf8(b));
                if !users.contains_key(c.0) {
                    Err(TokenError::UnknownUser)
                } else if !canonical_hex(parts.1) || !signature_ok(parts.1, parts.0, users[c.0].auth_key) {
                    Err(TokenError::BadSignature)
                } else if now >= c.2 {
                    Err(TokenError::Expired)
                } else {
                    Ok(c)
                }
            },
        },
    }
}

proof fn lemma_claims_of(u: Seq<char>, i: Seq<char>, e: u64, k: Rank)
    ensures
        payload_claims(payload_text(u, i, e, k)) == (u, i, e, k),
{
    let p = payload_text(u, i, e, k);
    assert(payload_text((u, i, e, k).0, (u, i, e, k).1, (u, i, e, k).2, (u, i, e, k).3) == p);
    let c = payload_claims(p);
    lemma_payload_injective(c.0, c.1, c.2, c.3, u, i, e, k);
}

/// Verifies a token against the registry at time `now` and returns its claims.
pub fn get_token_data(store: &Store, token: &String, now: u64) -> (r: Result<TokenData, TokenError>)
    requires
        store.wf(),
    ensures
        match token_verdict(store.users(), token@, now) {
            Ok(c) => r matches Ok(d) && (d.username@, d.user_id@, d.expires_at, d.rank) == c,
            Err(e) => r == Err::<TokenData, TokenError>(e),
        },
{
    let (message, signature) = match split_token(token.as_str()) {
        Some(parts) => parts,
        None => return Err(TokenError::Malformed),
    };
    let bytes = match hex_decode(message.as_str()) {
        Some(b) => b,
        None => return Err(TokenError::Malformed),
    };
    let ghost b = bytes@;
    let text = match utf8_text(bytes) {
        Some(t) => t,
        None => return Err(TokenError::Malformed),
    };
    proof {
        vstd::utf8::encode_utf8_decode_utf8(text@);
    }
    let data = match decode_payload(text.as_str()) {
        Some(d) => d,
        None => return Err(TokenError::Malformed),
    };
    proof {
        lemma_claims_of(data.username@, data.user_id@, data.expires_at, data.rank);
    }
    let user = match store.get_user(&data.username) {
        Some(u) => u,
        None => return Err(TokenError::UnknownUser),
    };
    if !is_canonical_hex(&signature) || !verify(signature, message, user.auth_key.clone()) {
        return Err(TokenError::BadSignature);
    }
    if now >= data.expires_at {
        return Err(TokenError::Expired);
    }
    Ok(data)
}

/// A token made for a registered identity, whose signature checks against
/// the key stored for that identity, verifies before it expires to exactly
/// the claims it was made with.
pub proof fn lemma_issue_then_verify(
    users: Map<Seq<char>, UserView>,
    username: Seq<char>,
    user_id: Seq<char>,
    expires_at: u64,
    rank: Rank,
    signature: Seq<u8>,
    now: u64,
)
    requires
        users.contains_key(username),
        signature.len() > 0,
        signature_ok(
            hex_of(signature),
            hex_of(encode_utf8(payload_text(username, user_id, expires_at, rank))),
            users[username].auth_key,
        ),
        now < expires_at,
    ensures
        token_verdict(users, token_text(payload_text(username, user_id, expires_at, rank), signature), now)
            == Ok::<Claims, TokenError>((username, user_id, expires_at, rank)),
{
    let p = payload_text(username, user_id, expires_at, rank);
    lemma_payload_layout(username, user_id, expires_at, rank);
    reveal_strlit("{\"username\":");
    assert(p.len() > 0);
    lemma_token_parts(p, signature);
    lemma_unhex_hex_of(encode_utf8(p));
    lemma_unhex_hex_of(signature);
    vstd::utf8::encode_utf8_valid_utf8(p);
    vstd::utf8::encode_utf8_decode_utf8(p);
    assert(payload_text((username, user_id, expires_at, rank).0, user_id, expires_at, rank) == p);
    lemma_claims_of(username, user_id, expires_at, rank);
}

/// A token is never accepted at or after its expiry time.
pub proof fn lemma_expired_refused(users: Map<Seq<char>, UserView>, token: Seq<char>, now: u64)
    ensures
        token_verdict(users, token, now) matches Ok(c) ==> now < c.2,
{
}

/// A token whose signature segment holds a character that is not a
/// lowercase hexadecimal digit is refused, whatever that segment decodes to.
pub proof fn lemma_non_hex_signature_refused(users: Map<Seq<char>, UserView>, token: Seq<char>, now: u64, k: int)
    requires
        token_parts(token) is Some,
        0 <= k < token_parts(token).unwrap().1.len(),
        !is_lower_hex_digit(token_parts(token).unwrap().1[k]),
    ensures
        token_verdict(users, token, now) is Err,
{
    let s = token_parts(token).unwrap().1;
    if let Some(b) = unhex(s) {
        lemma_hex_of_digits(b);
        if hex_of(b) == s {
            assert(is_lower_hex_digit(hex_of(b)[k]));
        }
    }
}

} // verus!
