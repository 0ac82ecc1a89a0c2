//! Wallet-based challenge/response authentication: canonical sign-in
//! messages, signature recovery, a wallet store with single-use nonces, the
//! login protocol, and signed, time-bounded session tokens.

pub mod decimal;
pub mod hex;
pub mod address;
pub mod message;
pub mod errors;
pub mod signature;
pub mod wallet;
pub mod jwt;
pub mod auth;
pub mod guards;
pub mod resolvers;
