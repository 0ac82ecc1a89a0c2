use ethers::signers::{LocalWallet, Signer};
use ethers::utils::hash_message;
use ethos::address::Address;
use ethos::auth::AuthService;
use ethos::errors::AuthError;
use ethos::guards::{get_token_from_headers, IsAuthenticated};
use ethos::jwt::{JwtAuthentication, SESSION_TTL};
use ethos::message::create_message;
use ethos::resolvers::{MutationRoot, QueryRoot};
use ethos::wallet::WalletService;

const KEY: &str = "4c0883a69102937d6231471b5dbb6204fe5129617082792ae468d01a3f362318";

fn service() -> AuthService {
    AuthService::new(WalletService::new(), JwtAuthentication::new("test-secret".to_string()))
}

fn signer() -> LocalWallet {
    KEY.parse().unwrap()
}

fn address_of(w: &LocalWallet) -> Address {
    Address::from_text(&format!("{:#x}", w.address())).unwrap()
}

fn sign(w: &LocalWallet, message: &str) -> String {
    w.sign_hash(hash_message(message)).unwrap().to_string()
}

#[test]
fn login_issues_a_token_and_rotates_the_nonce() {
    let mut auth = service();
    let s = signer();
    let addr = address_of(&s);
    let wallet = auth.wallet_service.upsert_wallet(&addr, "n0".to_string(), 10);
    let sig = sign(&s, &create_message(&addr, &wallet.nonce));
    let resp = auth.login(&addr, &sig, "n1".to_string(), 100).unwrap();
    assert_eq!(resp.wallet.nonce, "n1");
    assert_eq!(resp.wallet.updated_at, 100);
    assert_eq!(resp.wallet.id, wallet.id);
    assert_eq!(auth.wallet_service.get_wallet(&addr).unwrap().nonce, "n1");
    let claims = auth.validate(&resp.token, 101).unwrap();
    assert_eq!(claims.id, wallet.id);
    assert_eq!(claims.address, wallet.address);
    assert_eq!(claims.issued_at, 100);
    assert_eq!(claims.expires_at, 100 + SESSION_TTL);
}

#[test]
fn replayed_login_is_refused() {
    let mut auth = service();
    let s = signer();
    let addr = address_of(&s);
    let wallet = auth.wallet_service.upsert_wallet(&addr, "n0".to_string(), 10);
    let sig = sign(&s, &create_message(&addr, &wallet.nonce));
    assert!(auth.login(&addr, &sig, "n1".to_string(), 100).is_ok());
    assert_eq!(auth.login(&addr, &sig, "n2".to_string(), 101).map(|r| r.token), Err(AuthError::InvalidSignature));
    assert_eq!(auth.wallet_service.get_wallet(&addr).unwrap().nonce, "n1");
}

#[test]
fn two_logins_with_one_signature_one_wins() {
    let mut auth = service();
    let s = signer();
    let addr = address_of(&s);
    let wallet = auth.wallet_service.upsert_wallet(&addr, "n0".to_string(), 10);
    let sig = sign(&s, &create_message(&addr, &wallet.nonce));
    let first = auth.login(&addr, &sig, "fresh-a".to_string(), 100);
    let second = auth.login(&addr, &sig, "fresh-b".to_string(), 100);
    assert!(first.is_ok());
    assert_eq!(second.map(|r| r.token), Err(AuthError::InvalidSignature));
    assert_eq!(auth.wallet_service.get_wallet(&addr).unwrap().nonce, "fresh-a");
}

#[test]
fn login_for_unknown_wallet_is_not_found() {
    let mut auth = service();
    let s = signer();
    let addr = address_of(&s);
    let sig = sign(&s, &create_message(&addr, "n0"));
    assert_eq!(auth.login(&addr, &sig, "n1".to_string(), 100).map(|r| r.token), Err(AuthError::WalletNotFound));
    assert_eq!(auth.wallet_service.len(), 0);
}

#[test]
fn login_with_bad_signature_keeps_the_nonce() {
    let mut auth = service();
    let s = signer();
    let addr = address_of(&s);
    auth.wallet_service.upsert_wallet(&addr, "n0".to_string(), 10);
    let stale = sign(&s, &create_message(&addr, "old"));
    assert_eq!(auth.login(&addr, &stale, "n1".to_string(), 100).map(|r| r.token), Err(AuthError::InvalidSignature));
    assert_eq!(auth.login(&addr, "zz", "n1".to_string(), 100).map(|r| r.token), Err(AuthError::InvalidSignature));
    assert_eq!(auth.wallet_service.get_wallet(&addr).unwrap().nonce, "n0");
}

#[test]
fn login_with_unchanged_nonce_asks_for_retry() {
    let mut auth = service();
    let s = signer();
    let addr = address_of(&s);
    auth.wallet_service.upsert_wallet(&addr, "n0".to_string(), 10);
    let sig = sign(&s, &create_message(&addr, "n0"));
    assert_eq!(auth.login(&addr, &sig, "n0".to_string(), 100).map(|r| r.token), Err(AuthError::NonceConflict));
    assert!(auth.login(&addr, &sig, "n1".to_string(), 100).is_ok());
}

#[test]
fn address_case_does_not_matter() {
    let mut auth = service();
    let s = signer();
    let lower = format!("{:#x}", s.address());
    let upper = format!("0x{}", lower[2..].to_uppercase());
    let m = MutationRoot;
    let w1 = m.wallet(&mut auth, &lower, 10).unwrap();
    let w2 = m.wallet(&mut auth, &upper, 11).unwrap();
    assert_eq!(w1, w2);
    assert_eq!(auth.wallet_service.len(), 1);
    let sig = sign(&s, &create_message(&address_of(&s), &w1.nonce));
    let resp = m.login(&mut auth, &upper, &sig, 100).unwrap();
    assert_eq!(resp.wallet.id, w1.id);
    assert_eq!(resp.wallet.address, w1.address);
    assert_ne!(resp.wallet.nonce, w1.nonce);
    assert_eq!(m.login(&mut auth, &lower, &sig, 101).map(|r| r.token), Err(AuthError::InvalidSignature));
}

#[test]
fn text_that_is_not_an_address_is_refused() {
    let mut auth = service();
    let m = MutationRoot;
    assert_eq!(m.wallet(&mut auth, "0x1234", 1), Err(AuthError::InvalidAddress));
    assert_eq!(m.login(&mut auth, "nope", "00", 1).map(|r| r.token), Err(AuthError::InvalidAddress));
    assert_eq!(auth.wallet_service.len(), 0);
}

#[test]
fn wallet_draws_distinct_nonces() {
    let mut auth = service();
    let m = MutationRoot;
    let a = m.wallet(&mut auth, "0x5aaeb6053f3e94c9b9a09f33669435e7ef1beaed", 1).unwrap();
    let b = m.wallet(&mut auth, "0xfb6916095ca1df60bb79ce92ce3ea74c37c5d359", 1).unwrap();
    assert_ne!(a.nonce, b.nonce);
    assert_eq!(a.address, "0x5aAeb6053F3E94C9b9A09f33669435E7Ef1BeAed");
}

#[test]
fn guard_admits_only_sessions() {
    let mut auth = service();
    let s = signer();
    let addr = address_of(&s);
    let wallet = auth.wallet_service.upsert_wallet(&addr, "n0".to_string(), 10);
    let sig = sign(&s, &create_message(&addr, &wallet.nonce));
    let token = auth.login(&addr, &sig, "n1".to_string(), 100).unwrap().token;
    let session = auth.validate(&token, 200).ok();
    assert_eq!(IsAuthenticated.check(&session), Ok(()));
    assert_eq!(IsAuthenticated.check(&None), Err("Forbidden".to_string()));
}

#[test]
fn health_is_ok() {
    assert_eq!(QueryRoot.health(), "ok");
}

#[test]
fn token_errors_read_as_unauthenticated() {
    assert!(AuthError::TokenExpired.is_unauthenticated());
    assert!(AuthError::TokenMalformed.is_unauthenticated());
    assert!(AuthError::TokenSignatureInvalid.is_unauthenticated());
    assert!(!AuthError::InvalidSignature.is_unauthenticated());
    assert!(!AuthError::WalletNotFound.is_unauthenticated());
}

#[test]
fn bearer_credential_is_taken_from_the_header() {
    assert_eq!(get_token_from_headers(Some("Bearer abc.def")), Some("abc.def".to_string()));
    assert_eq!(get_token_from_headers(Some("bEaReR abc")), Some("abc".to_string()));
    assert_eq!(get_token_from_headers(Some("abc.def")), Some("abc.def".to_string()));
    assert_eq!(get_token_from_headers(Some("Bearer")), Some("Bearer".to_string()));
    assert_eq!(get_token_from_headers(Some("Token abc")), Some("Token abc".to_string()));
    assert_eq!(get_token_from_headers(None), None);
}
