//! The login protocol: a signed challenge for the wallet's current nonce is
//! exchanged for a session token, and the nonce is consumed in the same step.

use vstd::prelude::*;
use crate::address::{address_of_text, checksum_of, Address};
use crate::errors::AuthError;
use crate::hex::{hex_value, strip_0x};
use crate::jwt::{no_dot, session_claims, token_text, ClaimsV, JwtAuthentication, SessionClaims, SESSION_TTL};
use crate::message::message_text;
use crate::signature::signed_by;
use crate::wallet::{
    lemma_lookup_found, lemma_lookup_update, lookup, rotate_transition, rotated, store_wf, Wallet, WalletService,
    WalletV,
};

verus! {

/// What a successful login hands back.
#[derive(Debug, PartialEq, Eq)]
pub struct LoginResponse {
    pub token: String,
    pub wallet: Wallet,
}

/// The store after a login attempt for address `a` with `signature`, when
/// `fresh` is the nonce drawn to replace the consumed one, and the outcome.
pub open spec fn login_transition(
    ws: Seq<WalletV>,
    a: Seq<u8>,
    signature: Seq<char>,
    fresh: Seq<char>,
    now: u64,
) -> (Seq<WalletV>, Result<WalletV, AuthError>) {
    let key = checksum_of(a);
    match lookup(ws, key) {
        None => (ws, Err(AuthError::WalletNotFound)),
        Some(w) => if !signed_by(message_text(key, w.nonce), signature, a) {
            (ws, Err(AuthError::InvalidSignature))
        } else if fresh == w.nonce {
            (ws, Err(AuthError::NonceConflict))
        } else {
            (ws.update(w.id as int, rotated(w, fresh, now)), Ok(rotated(w, fresh, now)))
        },
    }
}

/// `r` reports the login transition `t`, and the store is left as `t` says;
/// tokens are signed under `secret` and start at `now`.
pub open spec fn login_reported(
    t: (Seq<WalletV>, Result<WalletV, AuthError>),
    ws: Seq<WalletV>,
    r: Result<LoginResponse, AuthError>,
    now: u64,
    secret: Seq<char>,
) -> bool {
    &&& ws == t.0
    &&& match r {
        Ok(resp) => t.1 == Ok::<WalletV, AuthError>(resp.wallet@) && resp.token@ == token_text(
            session_claims(resp.wallet@, now),
            secret,
        ),
        Err(e) => t.1 == Err::<WalletV, AuthError>(e),
    }
}

proof fn lemma_address_text_no_dot(s: Seq<char>)
    requires
        address_of_text(s) is Some,
    ensures
        no_dot(s),
{
    let h = strip_0x(s);
    assert forall|i: int| 0 <= i < s.len() implies s[i] != '.' by {
        if h.len() < s.len() {
            if i >= 2 {
                assert(s[i] == h[i - 2]);
                assert(hex_value(h[i - 2]) >= 0);
            }
        } else {
            assert(h == s);
            assert(hex_value(h[i]) >= 0);
        }
    }
}

/// The login service: the wallet store and the token issuer.
pub struct AuthService {
    pub wallet_service: WalletService,
    pub jwt_auth: JwtAuthentication,
}

impl AuthService {
    pub open spec fn wf(&self) -> bool {
        self.wallet_service.wf()
    }

    pub fn new(wallet_service: WalletService, jwt_auth: JwtAuthentication) -> (r: Self)
        ensures
            r.wallet_service == wallet_service,
            r.jwt_auth == jwt_auth,
    {
        AuthService { wallet_service, jwt_auth }
    }

    /// Logs `addr` in with a signature over its current challenge; on
    /// success the nonce becomes `fresh` and a session token starting at
    /// `now` is issued.
    pub fn login(&mut self, addr: &Address, signature: &str, fresh: String, now: u64) -> (r: Result<LoginResponse, AuthError>)
        requires
            old(self).wf(),
            now <= u64::MAX - SESSION_TTL,
        ensures
            final(self).wf(),
            final(self).jwt_auth == old(self).jwt_auth,
            login_reported(
                login_transition(old(self).wallet_service@, addr@, signature@, fresh@, now),
                final(self).wallet_service@,
                r,
                now,
                old(self).jwt_auth.key(),
            ),
    {
        let wallet = match self.wallet_service.get_wallet(addr) {
            Ok(w) => w,
            Err(_) => return Err(AuthError::WalletNotFound),
        };
        proof {
            lemma_lookup_found(self.wallet_service@, checksum_of(addr@));
        }
        let wallet = match self.wallet_service.verify_and_update_nonce(&wallet, signature, fresh, now) {
            Ok(w) => w,
            Err(e) => return Err(e),
        };
        proof {
            lemma_address_text_no_dot(wallet.address@);
        }
        let claims = SessionClaims::for_wallet(&wallet, now);
        let token = self.jwt_auth.create_token(&claims);
        Ok(LoginResponse { token, wallet })
    }

    /// Checks a presented session token at time `now`.
    pub fn validate(&self, token: &str, now: u64) -> (r: Result<SessionClaims, AuthError>)
        ensures
            match r {
                Ok(c) => crate::jwt::validation_outcome(token@, now, self.jwt_auth.key()) == Ok::<
                    ClaimsV,
                    AuthError,
                >(c@),
                Err(e) => crate::jwt::validation_outcome(token@, now, self.jwt_auth.key()) == Err::<
                    ClaimsV,
                    AuthError,
                >(e),
            },
    {
        self.jwt_auth.validate(token, now)
    }
}

/// Login for an address that was never registered fails with
/// `WalletNotFound` and changes nothing.
pub proof fn lemma_unknown_wallet_refused(
    ws: Seq<WalletV>,
    a: Seq<u8>,
    signature: Seq<char>,
    fresh: Seq<char>,
    now: u64,
)
    requires
        lookup(ws, checksum_of(a)) is None,
    ensures
        login_transition(ws, a, signature, fresh, now) == (ws, Err::<WalletV, AuthError>(AuthError::WalletNotFound)),
{
}

/// A successful login consumes the nonce it was signed over: the wallet's
/// nonce is now the fresh one, so resubmitting the same address and
/// signature fails with `InvalidSignature` and changes nothing, for any
/// signature that does not also verify over the new challenge.
pub proof fn lemma_replay_refused(
    ws: Seq<WalletV>,
    a: Seq<u8>,
    signature: Seq<char>,
    fresh: Seq<char>,
    now: u64,
    fresh2: Seq<char>,
    now2: u64,
)
    requires
        store_wf(ws),
        login_transition(ws, a, signature, fresh, now).1 is Ok,
        !signed_by(message_text(checksum_of(a), fresh), signature, a),
    ensures
        ({
            let ws2 = login_transition(ws, a, signature, fresh, now).0;
            &&& store_wf(ws2)
            &&& login_transition(ws2, a, signature, fresh2, now2) == (ws2, Err::<WalletV, AuthError>(
                AuthError::InvalidSignature,
            ))
        }),
{
    let key = checksum_of(a);
    lemma_lookup_found(ws, key);
    let w = lookup(ws, key).unwrap();
    lemma_lookup_update(ws, w.id as int, rotated(w, fresh, now), key);
}

/// Two logins for one address with the same signature over the same nonce:
/// the first succeeds and rotates the nonce to its fresh value; the second
/// fails with `InvalidSignature` and rotates nothing, so the nonce takes the
/// post-rotation value exactly once.
pub proof fn lemma_concurrent_logins_one_wins(
    ws: Seq<WalletV>,
    a: Seq<u8>,
    signature: Seq<char>,
    f1: Seq<char>,
    t1: u64,
    f2: Seq<char>,
    t2: u64,
)
    requires
        store_wf(ws),
        lookup(ws, checksum_of(a)) is Some,
        signed_by(message_text(checksum_of(a), lookup(ws, checksum_of(a)).unwrap().nonce), signature, a),
        f1 != lookup(ws, checksum_of(a)).unwrap().nonce,
        !signed_by(message_text(checksum_of(a), f1), signature, a),
    ensures
        ({
            let w = lookup(ws, checksum_of(a)).unwrap();
            let (ws1, out1) = login_transition(ws, a, signature, f1, t1);
            let (ws2, out2) = login_transition(ws1, a, signature, f2, t2);
            &&& out1 == Ok::<WalletV, AuthError>(rotated(w, f1, t1))
            &&& out2 == Err::<WalletV, AuthError>(AuthError::InvalidSignature)
            &&& ws2 == ws1
            &&& lookup(ws2, checksum_of(a)) == Some(rotated(w, f1, t1))
        }),
{
    let key = checksum_of(a);
    lemma_lookup_found(ws, key);
    let w = lookup(ws, key).unwrap();
    lemma_lookup_update(ws, w.id as int, rotated(w, f1, t1), key);
}

/// Of two compare-and-set rotations that observed the same nonce, at most
/// one wins: once one has succeeded, the other finds the nonce changed and
/// is refused without effect.
pub proof fn lemma_rotation_race(
    ws: Seq<WalletV>,
    address: Seq<char>,
    observed: Seq<char>,
    f1: Seq<char>,
    t1: u64,
    f2: Seq<char>,
    t2: u64,
)
    requires
        store_wf(ws),
        rotate_transition(ws, address, observed, f1, t1).1 is Ok,
    ensures
        ({
            let ws1 = rotate_transition(ws, address, observed, f1, t1).0;
            &&& store_wf(ws1)
            &&& rotate_transition(ws1, address, observed, f2, t2) == (ws1, Err::<WalletV, crate::errors::StoreError>(
                crate::errors::StoreError::Conflict,
            ))
        }),
{
    lemma_lookup_found(ws, address);
    let w = lookup(ws, address).unwrap();
    lemma_lookup_update(ws, w.id as int, rotated(w, f1, t1), address);
}

} // verus!
