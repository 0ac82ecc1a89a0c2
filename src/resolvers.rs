//! The operations offered to clients, on address text as clients send it.

use vstd::prelude::*;
use crate::address::{address_of_text, checksum_of, differs_only_in_case, lemma_address_case_insensitive, Address};
use crate::auth::{login_reported, login_transition, AuthService, LoginResponse};
use crate::errors::AuthError;
use crate::jwt::SESSION_TTL;
use crate::wallet::{fresh_wallet, lookup, new_nonce, Wallet, WalletV};

verus! {

/// Login from address text: text that is not an address is refused before
/// anything else.
pub open spec fn text_login_transition(
    ws: Seq<WalletV>,
    address: Seq<char>,
    signature: Seq<char>,
    fresh: Seq<char>,
    now: u64,
) -> (Seq<WalletV>, Result<WalletV, AuthError>) {
    match address_of_text(address) {
        None => (ws, Err(AuthError::InvalidAddress)),
        Some(a) => login_transition(ws, a, signature, fresh, now),
    }
}

/// Two spellings of one address that differ only in letter case log in to
/// the same wallet with the same outcome.
pub proof fn lemma_login_case_insensitive(
    ws: Seq<WalletV>,
    s1: Seq<char>,
    s2: Seq<char>,
    signature: Seq<char>,
    fresh: Seq<char>,
    now: u64,
)
    requires
        differs_only_in_case(s1, s2),
    ensures
        text_login_transition(ws, s1, signature, fresh, now) == text_login_transition(ws, s2, signature, fresh, now),
{
    lemma_address_case_insensitive(s1, s2);
}

pub struct QueryRoot;

impl QueryRoot {
    pub fn health(&self) -> (r: String)
        ensures
            r@ == "ok"@,
    {
        String::from_str("ok")
    }
}

pub struct MutationRoot;

impl MutationRoot {
    /// The wallet for `address`, registered with a freshly drawn nonce if it
    /// is new; clients sign the challenge for the nonce it holds.
    pub fn wallet(&self, auth: &mut AuthService, address: &str, now: u64) -> (r: Result<Wallet, AuthError>)
        requires
            old(auth).wf(),
        ensures
            final(auth).wf(),
            final(auth).jwt_auth == old(auth).jwt_auth,
            match address_of_text(address@) {
                None => r == Err::<Wallet, AuthError>(AuthError::InvalidAddress) && final(auth).wallet_service@
                    == old(auth).wallet_service@,
                Some(a) => r matches Ok(w) && match lookup(old(auth).wallet_service@, checksum_of(a)) {
                    Some(existing) => w@ == existing && final(auth).wallet_service@ == old(auth).wallet_service@,
                    None => w@ == fresh_wallet(old(auth).wallet_service@, checksum_of(a), w@.nonce, now)
                        && final(auth).wallet_service@ == old(auth).wallet_service@.push(w@),
                },
            },
    {
        let addr = match Address::from_text(address) {
            Some(a) => a,
            None => return Err(AuthError::InvalidAddress),
        };
        let nonce = new_nonce();
        Ok(auth.wallet_service.upsert_wallet(&addr, nonce, now))
    }

    /// Logs in with address text and a signature; the replacement nonce is
    /// drawn at random.
    pub fn login(&self, auth: &mut AuthService, address: &str, signature: &str, now: u64) -> (r: Result<
        LoginResponse,
        AuthError,
    >)
        requires
            old(auth).wf(),
            now <= u64::MAX - SESSION_TTL,
        ensures
            final(auth).wf(),
            final(auth).jwt_auth == old(auth).jwt_auth,
            exists|fresh: Seq<char>|
                login_reported(
                    #[trigger] text_login_transition(old(auth).wallet_service@, address@, signature@, fresh, now),
                    final(auth).wallet_service@,
                    r,
                    now,
                    old(auth).jwt_auth.key(),
                ),
    {
        let addr = match Address::from_text(address) {
            Some(a) => a,
            None => {
                let r = Err(AuthError::InvalidAddress);
                assert(login_reported(
                    text_login_transition(auth.wallet_service@, address@, signature@, Seq::empty(), now),
                    auth.wallet_service@,
                    r,
                    now,
                    auth.jwt_auth.key(),
                ));
                return r;
            },
        };
        let fresh = new_nonce();
        let ghost n = fresh@;
        let r = auth.login(&addr, signature, fresh, now);
        assert(login_reported(
            text_login_transition(old(auth).wallet_service@, address@, signature@, n, now),
            final(auth).wallet_service@,
            r,
            now,
            old(auth).jwt_auth.key(),
        ));
        r
    }
}

} // verus!
