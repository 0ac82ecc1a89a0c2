//! Failures of the wallet store and of the authentication protocol.

use vstd::prelude::*;

verus! {

/// A wallet store operation that could not be carried out.
#[derive(Debug, Clone, Copy, PartialEq, Eq, Structural)]
pub enum StoreError {
    /// No wallet is recorded for the address.
    NotFound,
    /// The address already has a wallet, or the nonce was not the one observed.
    Conflict,
}

/// Why a login or a session token was refused.
#[derive(Debug, Clone, Copy, PartialEq, Eq, Structural)]
pub enum AuthError {
    /// The address text is not an address.
    InvalidAddress,
    /// Login for an address that was never registered.
    WalletNotFound,
    /// The signature is malformed, or was not made by the claimed address
    /// over the current challenge.
    InvalidSignature,
    /// The nonce changed under the attempt, or the replacement drawn equals
    /// it; the client may retry.
    NonceConflict,
    /// The token does not have the shape of a session token.
    TokenMalformed,
    /// The token's expiry time has passed.
    TokenExpired,
    /// The token's signature does not match its claims.
    TokenSignatureInvalid,
}

impl AuthError {
    /// Token failures all read as one outcome to an untrusted caller; the
    /// specific kind is for the service's own records.
    pub fn is_unauthenticated(&self) -> (r: bool)
        ensures
            r <==> (*self == AuthError::TokenMalformed || *self == AuthError::TokenExpired
                || *self == AuthError::TokenSignatureInvalid),
    {
        match self {
            AuthError::TokenMalformed | AuthError::TokenExpired | AuthError::TokenSignatureInvalid => true,
            _ => false,
        }
    }
}

} // verus!
