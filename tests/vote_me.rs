use k256::ecdsa::signature::Signer;
use k256::ecdsa::{Signature, SigningKey};
use vote_me_backend::auth::{get_auth_derivation_path, get_token_data};
use vote_me_backend::ecdsa_api::{public_key_hex, public_key_request, sign_request, SIGN_FEE};
use vote_me_backend::payload::{decode_payload, encode_payload};
use vote_me_backend::store::{
    create_vote, get_user_salt, get_votings, is_user_registered, vote_at, Store, TokenError, VoteError,
};
use vote_me_backend::token::{
    auth_message, is_canonical_hex, join_token, sha256, signing_digest, split_token, token_claims, verify, TOKEN_LIFETIME,
};
use vote_me_backend::types::{Network, Rank, TokenData, User, Vote, Voting};

const NOW: u64 = 1_700_000_000_000_000_000;

fn key(seed: u8) -> SigningKey {
    SigningKey::from_slice(&[seed; 32]).unwrap()
}

fn key_hex(sk: &SigningKey) -> String {
    public_key_hex(&sk.verifying_key().to_sec1_bytes().to_vec())
}

fn issue(sk: &SigningKey, username: &str, user_id: &str, rank: Rank, now: u64) -> String {
    let data = token_claims(username.to_string(), user_id.to_string(), rank, now);
    let message = auth_message(&data);
    let signature: Signature = sk.sign(message.as_bytes());
    join_token(&message, &signature.to_vec())
}

fn register(store: &mut Store, sk: &SigningKey, username: &str, user_id: &str) -> Result<Rank, VoteError> {
    store.register(username.to_string(), "salt".to_string(), user_id.to_string(), key_hex(sk))
}

fn s(x: &str) -> String {
    x.to_string()
}

#[test]
fn derivation_path_layout() {
    let p = get_auth_derivation_path(s("VoteMe"), s("alice"), s("id-1"));
    assert_eq!(p, vec![b"VoteMe".to_vec(), b"AuthKey".to_vec(), b"alice".to_vec(), b"id-1".to_vec()]);
    assert_eq!(p, get_auth_derivation_path(s("VoteMe"), s("alice"), s("id-1")));
    assert_ne!(p, get_auth_derivation_path(s("VoteMe"), s("alice"), s("id-2")));
}

#[test]
fn first_registration_is_admin_then_users() {
    let mut store = Store::new();
    assert!(!is_user_registered(&store, &s("alice")));
    assert_eq!(register(&mut store, &key(1), "alice", "a"), Ok(Rank::Admin));
    assert_eq!(register(&mut store, &key(2), "bob", "b"), Ok(Rank::User));
    assert_eq!(register(&mut store, &key(3), "carol", "c"), Ok(Rank::User));
    assert_eq!(register(&mut store, &key(4), "alice", "z"), Err(VoteError::AlreadyRegistered));
    assert!(is_user_registered(&store, &s("alice")));
    assert_eq!(store.get_user(&s("alice")).unwrap().rank, Rank::Admin);
    assert_eq!(store.get_user(&s("alice")).unwrap().user_id, "a");
    assert_eq!(store.next_rank(), Rank::User);
    assert_eq!(Store::new().next_rank(), Rank::Admin);
}

#[test]
fn issue_then_verify_gives_same_claims() {
    let mut store = Store::new();
    let sk = key(7);
    let name = "al\"i\\ce\n\u{1}é";
    register(&mut store, &sk, name, "user-id").unwrap();
    let token = issue(&sk, name, "user-id", Rank::Admin, NOW);
    let data = get_token_data(&store, &token, NOW + 1).unwrap();
    assert_eq!(data.username, name);
    assert_eq!(data.user_id, "user-id");
    assert_eq!(data.rank, Rank::Admin);
    assert_eq!(data.expires_at, NOW + TOKEN_LIFETIME);
}

#[test]
fn tampered_signature_is_refused() {
    let mut store = Store::new();
    let sk = key(7);
    register(&mut store, &sk, "alice", "a").unwrap();
    let token = issue(&sk, "alice", "a", Rank::Admin, NOW);
    let dot = token.find('.').unwrap();
    for pos in [dot + 1, dot + 10, token.len() - 1] {
        let mut chars: Vec<char> = token.chars().collect();
        chars[pos] = if chars[pos] == '0' { '1' } else { '0' };
        let bad: String = chars.into_iter().collect();
        assert_eq!(get_token_data(&store, &bad, NOW).err(), Some(TokenError::BadSignature));
    }
    let mut chars: Vec<char> = token.chars().collect();
    chars[dot + 3] = 'x';
    let bad: String = chars.into_iter().collect();
    assert_eq!(get_token_data(&store, &bad, NOW).err(), Some(TokenError::BadSignature));
}

#[test]
fn signature_case_change_is_refused() {
    let mut store = Store::new();
    let sk = key(7);
    register(&mut store, &sk, "alice", "a").unwrap();
    let token = issue(&sk, "alice", "a", Rank::Admin, NOW);
    let dot = token.find('.').unwrap();
    let pos = token[dot + 1..].find(|c: char| c.is_ascii_lowercase()).unwrap() + dot + 1;
    let mut chars: Vec<char> = token.chars().collect();
    chars[pos] = chars[pos].to_ascii_uppercase();
    let bad: String = chars.into_iter().collect();
    assert_ne!(bad, token);
    assert_eq!(get_token_data(&store, &bad, NOW).err(), Some(TokenError::BadSignature));
    let whole_upper = format!("{}.{}", &token[..dot], token[dot + 1..].to_uppercase());
    assert_eq!(get_token_data(&store, &whole_upper, NOW).err(), Some(TokenError::BadSignature));
    assert!(get_token_data(&store, &token, NOW).is_ok());
}

#[test]
fn canonical_hex_is_lowercase_pairs() {
    assert!(is_canonical_hex(&s("00abff")));
    assert!(is_canonical_hex(&s("")));
    assert!(!is_canonical_hex(&s("00ABff")));
    assert!(!is_canonical_hex(&s("0")));
    assert!(!is_canonical_hex(&s("zz")));
}

#[test]
fn token_signed_by_another_key_is_refused() {
    let mut store = Store::new();
    register(&mut store, &key(7), "alice", "a").unwrap();
    let token = issue(&key(8), "alice", "a", Rank::Admin, NOW);
    assert_eq!(get_token_data(&store, &token, NOW).err(), Some(TokenError::BadSignature));
}

#[test]
fn expired_token_is_refused() {
    let mut store = Store::new();
    let sk = key(7);
    register(&mut store, &sk, "alice", "a").unwrap();
    let token = issue(&sk, "alice", "a", Rank::Admin, NOW);
    let expiry = NOW + TOKEN_LIFETIME;
    assert!(get_token_data(&store, &token, expiry - 1).is_ok());
    assert_eq!(get_token_data(&store, &token, expiry).err(), Some(TokenError::Expired));
    assert_eq!(get_token_data(&store, &token, expiry + 1).err(), Some(TokenError::Expired));
}

#[test]
fn malformed_tokens_are_refused() {
    let mut store = Store::new();
    let sk = key(7);
    register(&mut store, &sk, "alice", "a").unwrap();
    let token = issue(&sk, "alice", "a", Rank::Admin, NOW);
    let dot = token.find('.').unwrap();
    let (message, signature) = (&token[..dot], &token[dot + 1..]);
    for bad in [
        String::new(),
        s("abc"),
        format!(".{}", signature),
        format!("{}.", message),
        format!("{}.{}.{}", message, signature, signature),
        format!("zz{}.{}", message, signature),
        format!("{}0.{}", message, signature),
        format!("{}.{}", "7b7d", signature),
    ] {
        assert_eq!(get_token_data(&store, &bad, NOW).err(), Some(TokenError::Malformed));
    }
}

#[test]
fn token_of_unknown_user_is_refused() {
    let mut store = Store::new();
    let sk = key(7);
    register(&mut store, &sk, "alice", "a").unwrap();
    let token = issue(&sk, "mallory", "a", Rank::Admin, NOW);
    assert_eq!(get_token_data(&store, &token, NOW).err(), Some(TokenError::UnknownUser));
}

#[test]
fn vote_on_missing_voting_is_not_found() {
    let mut store = Store::new();
    let sk = key(7);
    register(&mut store, &sk, "alice", "a").unwrap();
    let token = issue(&sk, "alice", "a", Rank::Admin, NOW);
    create_vote(&mut store, &token, s("v1"), s("desc"), NOW).unwrap();
    let before = get_votings(&store);
    assert!(matches!(vote_at(&mut store, &token, &s("v2"), Vote::Pro, NOW), Err(VoteError::NotFound)));
    let after = get_votings(&store);
    assert_eq!(after.len(), before.len());
    assert_eq!(after[0].1.pro, 0);
    assert!(after[0].1.voted.is_empty());
}

#[test]
fn create_voting_needs_admin() {
    let mut store = Store::new();
    let alice = key(1);
    let bob = key(2);
    register(&mut store, &alice, "alice", "a").unwrap();
    register(&mut store, &bob, "bob", "b").unwrap();
    let bob_token = issue(&bob, "bob", "b", Rank::User, NOW);
    assert_eq!(create_vote(&mut store, &bob_token, s("v1"), s("desc"), NOW), Err(VoteError::Unauthorized));
    assert!(get_votings(&store).is_empty());
    assert_eq!(
        create_vote(&mut store, &s("nonsense"), s("v1"), s("desc"), NOW),
        Err(VoteError::InvalidToken(TokenError::Malformed))
    );
    assert!(get_votings(&store).is_empty());
}

#[test]
fn alice_creates_bob_votes() {
    let mut store = Store::new();
    let alice = key(1);
    let bob = key(2);
    let alice_rank = register(&mut store, &alice, "alice", "a").unwrap();
    let bob_rank = register(&mut store, &bob, "bob", "b").unwrap();
    assert_eq!(alice_rank, Rank::Admin);
    assert_eq!(bob_rank, Rank::User);
    let alice_token = issue(&alice, "alice", "a", alice_rank, NOW);
    let bob_token = issue(&bob, "bob", "b", bob_rank, NOW);
    assert_eq!(create_vote(&mut store, &alice_token, s("v1"), s("desc"), NOW), Ok(()));
    let v = vote_at(&mut store, &bob_token, &s("v1"), Vote::Pro, NOW).unwrap();
    assert_eq!((v.pro, v.cons), (1, 0));
    let all = get_votings(&store);
    assert_eq!(all.len(), 1);
    assert_eq!(all[0].0, "v1");
    assert_eq!(all[0].1.description, "desc");
    assert_eq!(all[0].1.pro, 1);
    assert_eq!(all[0].1.cons, 0);
    assert_eq!(all[0].1.voted, vec![s("bob")]);
}

#[test]
fn repeated_vote_counts_twice() {
    let mut store = Store::new();
    let alice = key(1);
    let bob = key(2);
    register(&mut store, &alice, "alice", "a").unwrap();
    register(&mut store, &bob, "bob", "b").unwrap();
    let alice_token = issue(&alice, "alice", "a", Rank::Admin, NOW);
    let bob_token = issue(&bob, "bob", "b", Rank::User, NOW);
    create_vote(&mut store, &alice_token, s("v1"), s("desc"), NOW).unwrap();
    vote_at(&mut store, &bob_token, &s("v1"), Vote::Pro, NOW).unwrap();
    let v = vote_at(&mut store, &bob_token, &s("v1"), Vote::Pro, NOW).unwrap();
    assert_eq!(v.pro, 2);
    assert_eq!(v.voted, vec![s("bob"), s("bob")]);
    let v = vote_at(&mut store, &alice_token, &s("v1"), Vote::Cons, NOW).unwrap();
    assert_eq!((v.pro, v.cons), (2, 1));
    assert_eq!(v.voted, vec![s("bob"), s("bob"), s("alice")]);
}

#[test]
fn create_voting_again_replaces_it() {
    let mut store = Store::new();
    let alice = key(1);
    register(&mut store, &alice, "alice", "a").unwrap();
    let token = issue(&alice, "alice", "a", Rank::Admin, NOW);
    create_vote(&mut store, &token, s("v1"), s("first"), NOW).unwrap();
    vote_at(&mut store, &token, &s("v1"), Vote::Cons, NOW).unwrap();
    create_vote(&mut store, &token, s("v1"), s("second"), NOW).unwrap();
    let all = get_votings(&store);
    assert_eq!(all.len(), 1);
    assert_eq!(all[0].1.description, "second");
    assert_eq!((all[0].1.pro, all[0].1.cons), (0, 0));
    assert!(all[0].1.voted.is_empty());
}

#[test]
fn salt_and_login() {
    let mut store = Store::new();
    store.register(s("alice"), s("pepper"), s("id-a"), s("00")).unwrap();
    assert_eq!(get_user_salt(&store, &s("alice")), Ok(s("pepper")));
    assert_eq!(get_user_salt(&store, &s("bob")), Err(VoteError::NotFound));
    assert_eq!(store.log_in_rank(&s("alice"), &s("id-a")), Ok(Rank::Admin));
    assert_eq!(store.log_in_rank(&s("alice"), &s("id-b")), Err(VoteError::Unauthorized));
    assert_eq!(store.log_in_rank(&s("bob"), &s("id-a")), Err(VoteError::NotFound));
}

#[test]
fn payload_text_is_exact() {
    let data = TokenData { username: s("alice"), user_id: s("id"), expires_at: 5, rank: Rank::Admin };
    let p = encode_payload(&data);
    assert_eq!(p, r#"{"username":"alice","user_id":"id","expires_at":5,"rank":"Admin"}"#);
    let back = decode_payload(&p).unwrap();
    assert_eq!((back.username, back.user_id, back.expires_at, back.rank), (s("alice"), s("id"), 5, Rank::Admin));
    let data = TokenData { username: s("a\"b\\c\t\u{1f}"), user_id: s(""), expires_at: 1234567890, rank: Rank::User };
    let p = encode_payload(&data);
    assert_eq!(p, r#"{"username":"a\"b\\c\t\u001f","user_id":"","expires_at":1234567890,"rank":"User"}"#);
    let back = decode_payload(&p).unwrap();
    assert_eq!(back.username, data.username);
    assert_eq!(back.expires_at, 1234567890);
    assert!(decode_payload(r#"{"username":"alice","user_id":"id","expires_at":5,"rank":"Boss"}"#).is_none());
    assert!(decode_payload(r#"{"username": "alice","user_id":"id","expires_at":5,"rank":"User"}"#).is_none());
}

#[test]
fn auth_message_is_hex_of_payload() {
    let data = TokenData { username: s("a"), user_id: s("b"), expires_at: 0, rank: Rank::User };
    let m = auth_message(&data);
    assert_eq!(m, hex::encode(r#"{"username":"a","user_id":"b","expires_at":0,"rank":"User"}"#));
    let claims = token_claims(s("a"), s("b"), Rank::Admin, 10);
    assert_eq!(claims.expires_at, 10 + 600_000_000_000);
}

#[test]
fn token_joins_and_splits() {
    let t = join_token(&s("abcd"), &vec![0x01, 0xfe]);
    assert_eq!(t, "abcd.01fe");
    assert_eq!(split_token(&t), Some((s("abcd"), s("01fe"))));
    assert_eq!(split_token("abcd"), None);
    assert_eq!(split_token("a.b.c"), None);
}

#[test]
fn public_key_hex_is_lowercase_pairs() {
    assert_eq!(public_key_hex(&vec![0x00, 0xab, 0xff, 0x10]), "00abff10");
    assert_eq!(public_key_hex(&vec![]), "");
}

#[test]
fn sha256_of_known_text() {
    let d = sha256(&s("abc"));
    assert_eq!(hex::encode(d), "ba7816bf8f01cfea414140de5dae2223b00361a396177a9cb410ff61f20015ad");
    assert_eq!(signing_digest(&s("abc")), d);
}

#[test]
fn verify_checks_signature_and_hex() {
    let sk = key(9);
    let sig: Signature = sk.sign(b"hello");
    let sig_hex = hex::encode(sig.to_vec());
    assert!(verify(sig_hex.clone(), s("hello"), key_hex(&sk)));
    assert!(verify(sig_hex.to_uppercase(), s("hello"), key_hex(&sk)));
    assert!(!verify(sig_hex.clone(), s("hellO"), key_hex(&sk)));
    assert!(!verify(s("zz"), s("hello"), key_hex(&sk)));
    assert!(!verify(sig_hex, s("hello"), s("0102")));
}

#[test]
fn key_ids_by_network() {
    assert_eq!(Network::Regtest.to_key_id().name, "dfx_test_key");
    assert_eq!(Network::Testnet.to_key_id().name, "test_key_1");
    assert_eq!(Network::Mainnet.to_key_id().name, "key_1");
    let path = get_auth_derivation_path(s("VoteMe"), s("u"), s("i"));
    let req = public_key_request(Network::Mainnet, path.clone());
    assert!(req.canister_id.is_none());
    assert_eq!(req.derivation_path, path);
    assert_eq!(req.key_id.name, "key_1");
    let req = sign_request(Network::Testnet, path.clone(), vec![1, 2, 3]);
    assert_eq!(req.message_hash, vec![1, 2, 3]);
    assert_eq!(req.key_id.name, "test_key_1");
    assert_eq!(SIGN_FEE, 10_000_000_000);
}

#[test]
fn voting_records_votes() {
    let mut v = Voting::new(s("d"));
    assert_eq!((v.pro, v.cons, v.voted.len()), (0, 0, 0));
    v.user_vote(Vote::Cons, s("x"));
    v.user_vote(Vote::Pro, s("y"));
    assert_eq!((v.pro, v.cons), (1, 1));
    assert_eq!(v.voted, vec![s("x"), s("y")]);
    let u = User::new(s("id"), s("salt"), s("key"), Rank::User);
    assert_eq!((u.user_id, u.salt, u.auth_key, u.rank), (s("id"), s("salt"), s("key"), Rank::User));
}
