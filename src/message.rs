//! The canonical sign-in message a wallet owner signs.

use vstd::prelude::*;
use vstd::string::*;
use crate::address::{checksum_of, to_full_addr, Address};

verus! {

/// Everything up to the wallet address; versioned by its wording.
pub const MESSAGE_HEAD: &'static str = "Welcome\n\nClick to sign in and accept the Terms of Service\nThis request will not trigger a blockchain transaction or cost any gas fees.\nYour authentication status will reset after 24 hours.\n\nWallet address:\n";

/// Between the wallet address and the nonce.
pub const NONCE_LABEL: &'static str = "\n\nNonce:\n";

/// The message for a normalized address and a nonce, both verbatim.
pub open spec fn message_text(address: Seq<char>, nonce: Seq<char>) -> Seq<char> {
    MESSAGE_HEAD@ + address + NONCE_LABEL@ + nonce
}

/// Builds the message to sign for `address` and `nonce`. The text is a
/// function of the two inputs alone, so every call gives the same bytes.
pub fn create_message(address: &Address, nonce: &str) -> (r: String)
    ensures
        r@ == message_text(checksum_of(address@), nonce@),
{
    let full = to_full_addr(address);
    let mut s = String::from_str(MESSAGE_HEAD);
    s.append(full.as_str());
    s.append(NONCE_LABEL);
    s.append(nonce);
    s
}

/// A message names one nonce: for one address, different nonces give
/// different messages, so a signature is scoped to the nonce it was made for.
pub proof fn lemma_message_names_nonce(address: Seq<char>, n1: Seq<char>, n2: Seq<char>)
    requires
        message_text(address, n1) == message_text(address, n2),
    ensures
        n1 == n2,
{
    let p = MESSAGE_HEAD@ + address + NONCE_LABEL@;
    assert(message_text(address, n1) == p + n1);
    assert(message_text(address, n2) == p + n2);
    assert(n1 =~= (p + n1).subrange(p.len() as int, (p + n1).len() as int));
    assert(n2 =~= (p + n2).subrange(p.len() as int, (p + n2).len() as int));
}

} // verus!
