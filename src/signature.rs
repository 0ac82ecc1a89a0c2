//! Personal-message signatures: their text form, and recovery of the signer.

use vstd::prelude::*;
use vstd::string::*;
use crate::address::Address;
use crate::errors::AuthError;
use crate::hex::{all_hex, bytes_equal, decode_hex, decode_hex_from, strip_0x_any_case};

verus! {

pub const SIGNATURE_LEN: usize = 65;

/// The 65 bytes (r, s, v) of a signature written as text: an optional `0x`
/// or `0X`, then exactly 130 hex digits of either case.
pub open spec fn signature_of_text(s: Seq<char>) -> Option<Seq<u8>> {
    let h = strip_0x_any_case(s);
    if h.len() == 2 * SIGNATURE_LEN && all_hex(h) {
        Some(decode_hex(h))
    } else {
        None
    }
}

/// The address whose key made `signature` over `message`, hashed as an
/// Ethereum personal message; `None` when no signer can be recovered.
pub uninterp spec fn signer_of(message: Seq<char>, signature: Seq<u8>) -> Option<Seq<u8>>;

/// `signature` is well formed and was made by `signer` over `message`.
pub open spec fn signed_by(message: Seq<char>, signature: Seq<char>, signer: Seq<u8>) -> bool {
    match signature_of_text(signature) {
        Some(bytes) => signer_of(message, bytes) == Some(signer),
        None => false,
    }
}

/// Reads the bytes of a signature from text; `None` when malformed.
pub fn parse_signature(s: &str) -> (r: Option<Vec<u8>>)
    ensures
        r matches Some(v) ==> signature_of_text(s@) == Some(v@),
        r is None <==> signature_of_text(s@) is None,
{
    let len = s.unicode_len();
    let from: usize = if len >= 2 && s.get_char(0) == '0' && (s.get_char(1) == 'x' || s.get_char(1)
        == 'X') {
        2
    } else {
        0
    };
    assert(strip_0x_any_case(s@) == s@.subrange(from as int, len as int));
    if len - from != 2 * SIGNATURE_LEN {
        return None;
    }
    decode_hex_from(s, from)
}

/// Relies on ethers' `Signature::try_from` on 65 raw bytes (r, s, v) and
/// `Signature::recover`, which hashes the message as a personal message and
/// recovers the address of the signing key.
#[verifier::external_body]
fn recover_signer(message: &str, signature: &Vec<u8>) -> (r: Option<Vec<u8>>)
    requires
        signature@.len() == SIGNATURE_LEN,
    ensures
        match r {
            Some(a) => signer_of(message@, signature@) == Some(a@),
            None => signer_of(message@, signature@) is None,
        },
{
    match ethers::types::Signature::try_from(signature.as_slice()) {
        Ok(sig) => match sig.recover(message) {
            Ok(addr) => Some(addr.as_bytes().to_vec()),
            Err(_) => None,
        },
        Err(_) => None,
    }
}

/// Checks that `signature` was made over `message` by the key behind
/// `claimed`. Malformed signature text is refused like a wrong signer.
pub fn verify(message: &str, signature: &str, claimed: &Address) -> (r: Result<(), AuthError>)
    ensures
        r is Ok <==> signed_by(message@, signature@, claimed@),
        r is Err ==> r == Err::<(), AuthError>(AuthError::InvalidSignature),
{
    let bytes = match parse_signature(signature) {
        Some(b) => b,
        None => return Err(AuthError::InvalidSignature),
    };
    match recover_signer(message, &bytes) {
        Some(signer) => {
            if bytes_equal(&signer, claimed.as_bytes()) {
                Ok(())
            } else {
                Err(AuthError::InvalidSignature)
            }
        },
        None => Err(AuthError::InvalidSignature),
    }
}

} // verus!
