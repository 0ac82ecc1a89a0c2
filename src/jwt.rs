//! Session tokens: signed, time-bounded claims about an authenticated wallet.
//!
//! A token is the claims text `v1.<id>.<address>.<issued_at>.<expires_at>`
//! (decimal seconds), a dot, and the HMAC-SHA256 of the claims text under the
//! service's secret in URL-safe base64.

use vstd::prelude::*;
use vstd::string::*;
use crate::decimal::{dec, digit_value, lemma_dec, lemma_dec_injective, parse_decimal, push_decimal};
use crate::errors::AuthError;
use crate::wallet::{Wallet, WalletV};

verus! {

/// How long a session lasts, in seconds.
pub const SESSION_TTL: u64 = 86400;

/// What a session token states.
#[derive(Debug, PartialEq, Eq)]
pub struct SessionClaims {
    pub id: u64,
    pub address: String,
    pub issued_at: u64,
    pub expires_at: u64,
}

pub struct ClaimsV {
    pub id: u64,
    pub address: Seq<char>,
    pub issued_at: u64,
    pub expires_at: u64,
}

impl View for SessionClaims {
    type V = ClaimsV;

    open spec fn view(&self) -> ClaimsV {
        ClaimsV {
            id: self.id,
            address: self.address@,
            issued_at: self.issued_at,
            expires_at: self.expires_at,
        }
    }
}

pub open spec fn no_dot(s: Seq<char>) -> bool {
    forall|i: int| 0 <= i < s.len() ==> s[i] != '.'
}

/// Claims that a token can carry: the address holds no separator.
pub open spec fn claims_wf(c: ClaimsV) -> bool {
    no_dot(c.address)
}

pub open spec fn dot() -> Seq<char> {
    seq!['.']
}

pub open spec fn version_tag() -> Seq<char> {
    seq!['v', '1']
}

pub open spec fn claims_text(c: ClaimsV) -> Seq<char> {
    version_tag() + dot() + dec(c.id as nat) + dot() + c.address + dot() + dec(c.issued_at as nat) + dot()
        + dec(c.expires_at as nat)
}

/// The HMAC-SHA256 of `message` under `secret`, in URL-safe base64 without padding.
pub uninterp spec fn hs256_of(message: Seq<char>, secret: Seq<char>) -> Seq<char>;

/// The token issued for `c` under `secret`.
pub open spec fn token_text(c: ClaimsV, secret: Seq<char>) -> Seq<char> {
    claims_text(c) + dot() + hs256_of(claims_text(c), secret)
}

/// `t` is the claims text of `c`, a dot, and `sig`.
pub open spec fn frames(t: Seq<char>, c: ClaimsV, sig: Seq<char>) -> bool {
    claims_wf(c) && t == claims_text(c) + dot() + sig
}

/// What validating `t` at time `now` must give: malformed unless it frames
/// some claims; then expired once `now` reaches the expiry, whatever the
/// signature; then refused unless the signature is the one for the claims.
pub open spec fn validation_outcome(t: Seq<char>, now: u64, secret: Seq<char>) -> Result<ClaimsV, AuthError> {
    if exists|c: ClaimsV, sig: Seq<char>| frames(t, c, sig) {
        let (c, sig) = choose|c: ClaimsV, sig: Seq<char>| frames(t, c, sig);
        if now >= c.expires_at {
            Err(AuthError::TokenExpired)
        } else if sig != hs256_of(claims_text(c), secret) {
            Err(AuthError::TokenSignatureInvalid)
        } else {
            Ok(c)
        }
    } else {
        Err(AuthError::TokenMalformed)
    }
}

/// The claims issued for wallet `w` at time `now`.
pub open spec fn session_claims(w: WalletV, now: u64) -> ClaimsV {
    ClaimsV { id: w.id, address: w.address, issued_at: now, expires_at: (now + SESSION_TTL) as u64 }
}

proof fn lemma_split_unique(a1: Seq<char>, b1: Seq<char>, a2: Seq<char>, b2: Seq<char>)
    requires
        no_dot(a1),
        no_dot(a2),
        a1 + dot() + b1 == a2 + dot() + b2,
    ensures
        a1 == a2,
        b1 == b2,
{
    let t = a1 + dot() + b1;
    assert(t[a1.len() as int] == '.');
    assert(t[a2.len() as int] == '.');
    if a1.len() < a2.len() {
        assert(t[a1.len() as int] == a2[a1.len() as int]);
    } else if a2.len() < a1.len() {
        assert(t[a2.len() as int] == a1[a2.len() as int]);
    }
    assert(a1 =~= t.subrange(0, a1.len() as int));
    assert(a2 =~= t.subrange(0, a2.len() as int));
    assert(b1 =~= t.subrange(a1.len() as int + 1, t.len() as int));
    assert(b2 =~= t.subrange(a2.len() as int + 1, t.len() as int));
}

proof fn lemma_dec_no_dot(n: nat)
    ensures
        no_dot(dec(n)),
{
    lemma_dec(n);
    assert forall|i: int| 0 <= i < dec(n).len() implies dec(n)[i] != '.' by {
        assert(digit_value(dec(n)[i]) >= 0);
    }
}

/// The pieces of a framed token, field by field.
proof fn lemma_frame_parts(c: ClaimsV, sig: Seq<char>)
    ensures
        no_dot(version_tag()),
        no_dot(dec(c.id as nat)),
        no_dot(dec(c.issued_at as nat)),
        no_dot(dec(c.expires_at as nat)),
        claims_text(c) + dot() + sig == version_tag() + dot() + (dec(c.id as nat) + dot() + (c.address + dot()
            + (dec(c.issued_at as nat) + dot() + (dec(c.expires_at as nat) + dot() + sig)))),
{
    lemma_dec_no_dot(c.id as nat);
    lemma_dec_no_dot(c.issued_at as nat);
    lemma_dec_no_dot(c.expires_at as nat);
    assert(claims_text(c) + dot() + sig =~= version_tag() + dot() + (dec(c.id as nat) + dot() + (c.address
        + dot() + (dec(c.issued_at as nat) + dot() + (dec(c.expires_at as nat) + dot() + sig)))));
}

/// A token frames at most one set of claims and one signature.
pub proof fn lemma_frame_unique(t: Seq<char>, c1: ClaimsV, s1: Seq<char>, c2: ClaimsV, s2: Seq<char>)
    requires
        frames(t, c1, s1),
        frames(t, c2, s2),
    ensures
        c1 == c2,
        s1 == s2,
{
    lemma_frame_parts(c1, s1);
    lemma_frame_parts(c2, s2);
    let r1 = dec(c1.id as nat) + dot() + (c1.address + dot() + (dec(c1.issued_at as nat) + dot() + (dec(
        c1.expires_at as nat) + dot() + s1)));
    let r2 = dec(c2.id as nat) + dot() + (c2.address + dot() + (dec(c2.issued_at as nat) + dot() + (dec(
        c2.expires_at as nat) + dot() + s2)));
    lemma_split_unique(version_tag(), r1, version_tag(), r2);
    let q1 = c1.address + dot() + (dec(c1.issued_at as nat) + dot() + (dec(c1.expires_at as nat) + dot() + s1));
    let q2 = c2.address + dot() + (dec(c2.issued_at as nat) + dot() + (dec(c2.expires_at as nat) + dot() + s2));
    lemma_split_unique(dec(c1.id as nat), q1, dec(c2.id as nat), q2);
    let p1 = dec(c1.issued_at as nat) + dot() + (dec(c1.expires_at as nat) + dot() + s1);
    let p2 = dec(c2.issued_at as nat) + dot() + (dec(c2.expires_at as nat) + dot() + s2);
    lemma_split_unique(c1.address, p1, c2.address, p2);
    lemma_split_unique(dec(c1.issued_at as nat), dec(c1.expires_at as nat) + dot() + s1, dec(c2.issued_at as nat), dec(c2.expires_at as nat) + dot() + s2);
    lemma_split_unique(dec(c1.expires_at as nat), s1, dec(c2.expires_at as nat), s2);
    lemma_dec_injective(c1.id as nat, c2.id as nat);
    lemma_dec_injective(c1.issued_at as nat, c2.issued_at as nat);
    lemma_dec_injective(c1.expires_at as nat, c2.expires_at as nat);
}

/// An issued token validates, before its expiry, to exactly the claims it
/// was issued for.
pub proof fn lemma_issue_then_validate(c: ClaimsV, secret: Seq<char>, now: u64)
    requires
        claims_wf(c),
        now < c.expires_at,
    ensures
        validation_outcome(token_text(c, secret), now, secret) == Ok::<ClaimsV, AuthError>(c),
{
    let t = token_text(c, secret);
    let s = hs256_of(claims_text(c), secret);
    assert(frames(t, c, s));
    let (c2, s2) = choose|c2: ClaimsV, s2: Seq<char>| frames(t, c2, s2);
    lemma_frame_unique(t, c, s, c2, s2);
}

/// A token whose expiry has passed is refused as expired, whatever its
/// signature segment holds.
pub proof fn lemma_expired_token_refused(c: ClaimsV, sig: Seq<char>, secret: Seq<char>, now: u64)
    requires
        claims_wf(c),
        now >= c.expires_at,
    ensures
        validation_outcome(claims_text(c) + dot() + sig, now, secret) == Err::<ClaimsV, AuthError>(
            AuthError::TokenExpired,
        ),
{
    let t = claims_text(c) + dot() + sig;
    assert(frames(t, c, sig));
    let (c2, s2) = choose|c2: ClaimsV, s2: Seq<char>| frames(t, c2, s2);
    lemma_frame_unique(t, c, sig, c2, s2);
}

/// Before expiry, a token whose signature segment differs in any way from
/// the issued one (a single flipped bit included) is refused as forged.
pub proof fn lemma_altered_signature_refused(c: ClaimsV, sig: Seq<char>, secret: Seq<char>, now: u64)
    requires
        claims_wf(c),
        now < c.expires_at,
        sig != hs256_of(claims_text(c), secret),
    ensures
        validation_outcome(claims_text(c) + dot() + sig, now, secret) == Err::<ClaimsV, AuthError>(
            AuthError::TokenSignatureInvalid,
        ),
{
    let t = claims_text(c) + dot() + sig;
    assert(frames(t, c, sig));
    let (c2, s2) = choose|c2: ClaimsV, s2: Seq<char>| frames(t, c2, s2);
    lemma_frame_unique(t, c, sig, c2, s2);
}

/// Relies on jsonwebtoken::crypto::sign with HS256 and a key made by
/// `EncodingKey::from_secret`: the HMAC-SHA256 of the message, in URL-safe
/// base64; for the HMAC algorithms it always succeeds.
#[verifier::external_body]
fn hs256_sign(message: &str, secret: &str) -> (r: Option<String>)
    ensures
        r is Some,
        r.unwrap()@ == hs256_of(message@, secret@),
{
    jsonwebtoken::crypto::sign(
        message.as_bytes(),
        &jsonwebtoken::EncodingKey::from_secret(secret.as_bytes()),
        jsonwebtoken::Algorithm::HS256,
    ).ok()
}

/// Splits at the first dot.
fn split_dot<'a>(s: &'a str) -> (r: Option<(&'a str, &'a str)>)
    ensures
        match r {
            Some((a, b)) => no_dot(a@) && s@ == a@ + dot() + b@,
            None => no_dot(s@),
        },
{
    let len = s.unicode_len();
    let mut i: usize = 0;
    while i < len
        invariant
            len == s@.len(),
            i <= len,
            forall|j: int| 0 <= j < i ==> s@[j] != '.',
        decreases len - i,
    {
        if s.get_char(i) == '.' {
            let a = s.substring_char(0, i);
            let b = s.substring_char(i + 1, len);
            assert(s@ =~= a@ + dot() + b@);
            return Some((a, b));
        }
        i = i + 1;
    }
    None
}

/// Reads the claims and the signature segment of a token.
fn split_token<'a>(t: &'a str) -> (r: Option<(SessionClaims, &'a str)>)
    ensures
        match r {
            Some((c, sig)) => frames(t@, c@, sig@),
            None => !exists|c: ClaimsV, sig: Seq<char>| frames(t@, c, sig),
        },
{
    let (f0, r0) = match split_dot(t) {
        Some(p) => p,
        None => {
            proof {
                assert forall|c: ClaimsV, sig: Seq<char>| !frames(t@, c, sig) by {
                    if frames(t@, c, sig) {
                        lemma_frame_parts(c, sig);
                        assert(t@[2] == '.');
                    }
                }
            }
            return None;
        },
    };
    if !(f0.unicode_len() == 2 && f0.get_char(0) == 'v' && f0.get_char(1) == '1') {
        proof {
            assert forall|c: ClaimsV, sig: Seq<char>| !frames(t@, c, sig) by {
                if frames(t@, c, sig) {
                    lemma_frame_parts(c, sig);
                    let r = dec(c.id as nat) + dot() + (c.address + dot() + (dec(c.issued_at as nat) + dot()
                        + (dec(c.expires_at as nat) + dot() + sig)));
                    lemma_split_unique(f0@, r0@, version_tag(), r);
                }
            }
        }
        return None;
    }
    assert(f0@ =~= version_tag());
    let (f1, r1) = match split_dot(r0) {
        Some(p) => p,
        None => {
            proof {
                assert forall|c: ClaimsV, sig: Seq<char>| !frames(t@, c, sig) by {
                    if frames(t@, c, sig) {
                        lemma_frame_parts(c, sig);
                        let q = c.address + dot() + (dec(c.issued_at as nat) + dot() + (dec(c.expires_at as nat)
                            + dot() + sig));
                        let r = dec(c.id as nat) + dot() + q;
                        lemma_split_unique(f0@, r0@, version_tag(), r);
                        assert(r[dec(c.id as nat).len() as int] == '.');
                    }
                }
            }
            return None;
        },
    };
    let (f2, r2) = match split_dot(r1) {
        Some(p) => p,
        None => {
            proof {
                assert forall|c: ClaimsV, sig: Seq<char>| !frames(t@, c, sig) by {
                    if frames(t@, c, sig) {
                        lemma_frame_parts(c, sig);
                        let p = dec(c.issued_at as nat) + dot() + (dec(c.expires_at as nat) + dot() + sig);
                        let q = c.address + dot() + p;
                        let r = dec(c.id as nat) + dot() + q;
                        lemma_split_unique(f0@, r0@, version_tag(), r);
                        lemma_split_unique(f1@, r1@, dec(c.id as nat), q);
                        assert(q[c.address.len() as int] == '.');
                    }
                }
            }
            return None;
        },
    };
    let (f3, r3) = match split_dot(r2) {
        Some(p) => p,
        None => {
            proof {
                assert forall|c: ClaimsV, sig: Seq<char>| !frames(t@, c, sig) by {
                    if frames(t@, c, sig) {
                        lemma_frame_parts(c, sig);
                        let p = dec(c.issued_at as nat) + dot() + (dec(c.expires_at as nat) + dot() + sig);
                        let q = c.address + dot() + p;
                        let r = dec(c.id as nat) + dot() + q;
                        lemma_split_unique(f0@, r0@, version_tag(), r);
                        lemma_split_unique(f1@, r1@, dec(c.id as nat), q);
                        lemma_split_unique(f2@, r2@, c.address, p);
                        assert(p[dec(c.issued_at as nat).len() as int] == '.');
                    }
                }
            }
            return None;
        },
    };
    let (f4, sig) = match split_dot(r3) {
        Some(p) => p,
        None => {
            proof {
                assert forall|c: ClaimsV, sig: Seq<char>| !frames(t@, c, sig) by {
                    if frames(t@, c, sig) {
                        lemma_frame_parts(c, sig);
                        let o = dec(c.expires_at as nat) + dot() + sig;
                        let p = dec(c.issued_at as nat) + dot() + o;
                        let q = c.address + dot() + p;
                        let r = dec(c.id as nat) + dot() + q;
                        lemma_split_unique(f0@, r0@, version_tag(), r);
                        lemma_split_unique(f1@, r1@, dec(c.id as nat), q);
                        lemma_split_unique(f2@, r2@, c.address, p);
                        lemma_split_unique(f3@, r3@, dec(c.issued_at as nat), o);
                        assert(o[dec(c.expires_at as nat).len() as int] == '.');
                    }
                }
            }
            return None;
        },
    };
    let id = parse_decimal(f1);
    let issued_at = parse_decimal(f3);
    let expires_at = parse_decimal(f4);
    match (id, issued_at, expires_at) {
        (Some(id), Some(issued_at), Some(expires_at)) => {
            let c = SessionClaims { id, address: String::from_str(f2), issued_at, expires_at };
            assert(t@ =~= claims_text(c@) + dot() + sig@);
            Some((c, sig))
        },
        _ => {
            proof {
                assert forall|c: ClaimsV, s: Seq<char>| !frames(t@, c, s) by {
                    if frames(t@, c, s) {
                        lemma_frame_parts(c, s);
                        let o = dec(c.expires_at as nat) + dot() + s;
                        let p = dec(c.issued_at as nat) + dot() + o;
                        let q = c.address + dot() + p;
                        let r = dec(c.id as nat) + dot() + q;
                        lemma_split_unique(f0@, r0@, version_tag(), r);
                        lemma_split_unique(f1@, r1@, dec(c.id as nat), q);
                        lemma_split_unique(f2@, r2@, c.address, p);
                        lemma_split_unique(f3@, r3@, dec(c.issued_at as nat), o);
                        lemma_split_unique(f4@, sig@, dec(c.expires_at as nat), s);
                    }
                }
            }
            None
        },
    }
}

/// The claims text of `c`.
fn render_claims(c: &SessionClaims) -> (r: String)
    ensures
        r@ == claims_text(c@),
{
    let mut s = String::new();
    s.push('v');
    s.push('1');
    s.push('.');
    push_decimal(&mut s, c.id);
    s.push('.');
    s.append(c.address.as_str());
    s.push('.');
    push_decimal(&mut s, c.issued_at);
    s.push('.');
    push_decimal(&mut s, c.expires_at);
    assert(s@ =~= claims_text(c@));
    s
}

impl SessionClaims {
    /// The claims for a session of `wallet` that starts at `now`.
    pub fn for_wallet(wallet: &Wallet, now: u64) -> (r: SessionClaims)
        requires
            now <= u64::MAX - SESSION_TTL,
        ensures
            r@ == session_claims(wallet@, now),
    {
        SessionClaims {
            id: wallet.id,
            address: wallet.address.clone(),
            issued_at: now,
            expires_at: now + SESSION_TTL,
        }
    }
}

/// Issues and validates session tokens under one secret, fixed for the
/// life of the service.
pub struct JwtAuthentication {
    secret: String,
}

impl JwtAuthentication {
    pub closed spec fn key(&self) -> Seq<char> {
        self.secret@
    }

    pub fn new(secret: String) -> (r: Self)
        ensures
            r.key() == secret@,
    {
        JwtAuthentication { secret }
    }

    /// The signed token for `claims`.
    pub fn create_token(&self, claims: &SessionClaims) -> (r: String)
        requires
            claims_wf(claims@),
        ensures
            r@ == token_text(claims@, self.key()),
    {
        let text = render_claims(claims);
        let sig = match hs256_sign(text.as_str(), self.secret.as_str()) {
            Some(s) => s,
            None => String::new(),
        };
        let mut token = text;
        token.push('.');
        token.append(sig.as_str());
        assert(token@ =~= token_text(claims@, self.key()));
        token
    }

    /// Checks a presented token at time `now` and gives back its claims.
    pub fn validate(&self, token: &str, now: u64) -> (r: Result<SessionClaims, AuthError>)
        ensures
            match r {
                Ok(c) => validation_outcome(token@, now, self.key()) == Ok::<ClaimsV, AuthError>(c@),
                Err(e) => validation_outcome(token@, now, self.key()) == Err::<ClaimsV, AuthError>(e),
            },
    {
        let (claims, sig) = match split_token(token) {
            Some(p) => p,
            None => return Err(AuthError::TokenMalformed),
        };
        proof {
            let (c2, s2) = choose|c2: ClaimsV, s2: Seq<char>| frames(token@, c2, s2);
            lemma_frame_unique(token@, claims@, sig@, c2, s2);
        }
        if now >= claims.expires_at {
            return Err(AuthError::TokenExpired);
        }
        let text = render_claims(&claims);
        let expected = match hs256_sign(text.as_str(), self.secret.as_str()) {
            Some(s) => s,
            None => String::new(),
        };
        if String::from_str(sig) == expected {
            Ok(claims)
        } else {
            Err(AuthError::TokenSignatureInvalid)
        }
    }
}

} // verus!
