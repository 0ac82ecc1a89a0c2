use ethos::errors::AuthError;
use ethos::jwt::{JwtAuthentication, SessionClaims, SESSION_TTL};
use ethos::wallet::Wallet;

const ADDRESS: &str = "0x5aAeb6053F3E94C9b9A09f33669435E7Ef1BeAed";

fn claims() -> SessionClaims {
    SessionClaims { id: 7, address: ADDRESS.to_string(), issued_at: 100, expires_at: 86500 }
}

fn jwt() -> JwtAuthentication {
    JwtAuthentication::new("test-secret".to_string())
}

#[test]
fn token_has_the_documented_form() {
    let token = jwt().create_token(&claims());
    assert_eq!(
        token,
        "v1.7.0x5aAeb6053F3E94C9b9A09f33669435E7Ef1BeAed.100.86500.9sv8suh_YWiM3KGaxkLToRo_3eWxLb1z_Z3JrYJEpW4"
    );
}

#[test]
fn issued_token_validates_to_its_claims() {
    let j = jwt();
    let token = j.create_token(&claims());
    assert_eq!(j.validate(&token, 100), Ok(claims()));
    assert_eq!(j.validate(&token, 86499), Ok(claims()));
}

#[test]
fn claims_for_a_wallet() {
    let w = Wallet { id: 3, address: ADDRESS.to_string(), nonce: "n".to_string(), created_at: 1, updated_at: 2 };
    let c = SessionClaims::for_wallet(&w, 1000);
    assert_eq!(c, SessionClaims { id: 3, address: ADDRESS.to_string(), issued_at: 1000, expires_at: 1000 + SESSION_TTL });
    assert_eq!(SESSION_TTL, 86400);
}

#[test]
fn expired_token_is_refused() {
    let j = jwt();
    let token = j.create_token(&claims());
    assert_eq!(j.validate(&token, 86500), Err(AuthError::TokenExpired));
    assert_eq!(j.validate(&token, u64::MAX), Err(AuthError::TokenExpired));
    let forged = format!("{}x", token);
    assert_eq!(j.validate(&forged, 90000), Err(AuthError::TokenExpired));
}

#[test]
fn flipped_signature_bit_is_refused() {
    let j = jwt();
    let token = j.create_token(&claims());
    let bytes = token.as_bytes();
    let dot = token.rfind('.').unwrap();
    for i in dot + 1..bytes.len() {
        for bit in 0..7 {
            let mut b = bytes.to_vec();
            b[i] ^= 1 << bit;
            let t = String::from_utf8(b).unwrap();
            assert_eq!(j.validate(&t, 200), Err(AuthError::TokenSignatureInvalid));
        }
    }
}

#[test]
fn altered_claims_are_refused() {
    let j = jwt();
    let token = j.create_token(&claims());
    let altered = token.replacen("v1.7.", "v1.8.", 1);
    assert_eq!(j.validate(&altered, 200), Err(AuthError::TokenSignatureInvalid));
    let other = JwtAuthentication::new("other-secret".to_string());
    assert_eq!(other.validate(&token, 200), Err(AuthError::TokenSignatureInvalid));
}

#[test]
fn malformed_tokens_are_refused() {
    let j = jwt();
    for t in ["", "v1", "v1.7.a.1.2", "v2.7.a.1.2.sig", "v1.07.a.1.2.sig", "v1.7.a.1.x.sig", "v1..a.1.2.sig", "eyJhbGciOiJIUzI1NiJ9.e30.sig"] {
        assert_eq!(j.validate(t, 0), Err(AuthError::TokenMalformed), "{}", t);
    }
}
