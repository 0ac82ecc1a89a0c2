//! Wallet addresses: twenty bytes, read from hex text and written in the
//! checksummed form that identifies a wallet.

use vstd::prelude::*;
use vstd::string::*;
use crate::hex::{all_hex, decode_hex, decode_hex_from, hex_value, nibble, spells_hex, strip_0x};

verus! {

pub const ADDRESS_LEN: usize = 20;

/// The bytes of an address written as text: an optional lower-case `0x`, then
/// exactly forty hex digits of either case.
pub open spec fn address_of_text(s: Seq<char>) -> Option<Seq<u8>> {
    let h = strip_0x(s);
    if h.len() == 40 && all_hex(h) {
        Some(decode_hex(h))
    } else {
        None
    }
}

/// The checksummed rendering of an address, as the signing wallets write it.
pub uninterp spec fn checksum_of(bytes: Seq<u8>) -> Seq<char>;

/// `0x`, then the address in hex, each digit in some case.
pub open spec fn is_rendering_of(s: Seq<char>, bytes: Seq<u8>) -> bool {
    &&& s.len() >= 2
    &&& s[0] == '0'
    &&& s[1] == 'x'
    &&& spells_hex(s.subrange(2, s.len() as int), bytes)
}

/// A wallet address.
pub struct Address {
    bytes: Vec<u8>,
}

impl View for Address {
    type V = Seq<u8>;

    closed spec fn view(&self) -> Seq<u8> {
        self.bytes@
    }
}

impl Address {
    #[verifier::type_invariant]
    spec fn inv(self) -> bool {
        self.bytes@.len() == ADDRESS_LEN
    }

    /// Reads an address from text; `None` when the text is not an address.
    pub fn from_text(s: &str) -> (r: Option<Address>)
        ensures
            r matches Some(a) ==> address_of_text(s@) == Some(a@),
            r is None <==> address_of_text(s@) is None,
    {
        let len = s.unicode_len();
        let from: usize = if len >= 2 && s.get_char(0) == '0' && s.get_char(1) == 'x' {
            2
        } else {
            0
        };
        assert(strip_0x(s@) == s@.subrange(from as int, len as int));
        if len - from != 40 {
            return None;
        }
        match decode_hex_from(s, from) {
            Some(bytes) => Some(Address { bytes }),
            None => None,
        }
    }

    pub fn as_bytes(&self) -> (r: &Vec<u8>)
        ensures
            r@ == self@,
            r@.len() == ADDRESS_LEN,
    {
        proof {
            use_type_invariant(self);
        }
        &self.bytes
    }
}

/// Relies on ethers::utils::to_checksum without a chain id: `0x`, then the
/// address's hex digits, each upper- or lower-cased after EIP-55.
#[verifier::external_body]
fn eip55_checksum(bytes: &Vec<u8>) -> (r: String)
    requires
        bytes@.len() == ADDRESS_LEN,
    ensures
        r@ == checksum_of(bytes@),
        is_rendering_of(r@, bytes@),
{
    ethers::utils::to_checksum(&ethers::types::Address::from_slice(bytes.as_slice()), None)
}

/// The normalized (checksummed) text of an address.
pub fn to_full_addr(addr: &Address) -> (r: String)
    ensures
        r@ == checksum_of(addr@),
        is_rendering_of(r@, addr@),
        address_of_text(r@) == Some(addr@),
{
    let r = eip55_checksum(addr.as_bytes());
    proof {
        lemma_rendering_reads_back(r@, addr@);
    }
    r
}

} // verus!

verus! {

/// Two characters that are equal, or are the same ASCII letter in two cases.
pub open spec fn same_ignoring_case(c1: char, c2: char) -> bool {
    let (u1, u2) = (c1 as u32, c2 as u32);
    ||| u1 == u2
    ||| (65 <= u1 <= 90 && u2 == u1 + 32)
    ||| (65 <= u2 <= 90 && u1 == u2 + 32)
}

/// Text that differs from `s1` only in the case of its letters, past any `0x`.
pub open spec fn differs_only_in_case(s1: Seq<char>, s2: Seq<char>) -> bool {
    &&& s1.len() == s2.len()
    &&& (s1.len() >= 2 && s1[0] == '0' && s1[1] == 'x') <==> (s2.len() >= 2 && s2[0] == '0' && s2[1] == 'x')
    &&& forall|i: int| 0 <= i < s1.len() ==> same_ignoring_case(#[trigger] s1[i], s2[i])
}

/// The checksummed rendering of an address reads back as that address.
pub proof fn lemma_rendering_reads_back(s: Seq<char>, bytes: Seq<u8>)
    requires
        is_rendering_of(s, bytes),
        bytes.len() == ADDRESS_LEN,
    ensures
        address_of_text(s) == Some(bytes),
{
    let h = s.subrange(2, s.len() as int);
    assert(strip_0x(s) == h);
    assert(all_hex(h)) by {
        assert forall|i: int| 0 <= i < h.len() implies hex_value(#[trigger] h[i]) >= 0 by {
            assert(hex_value(h[i]) == nibble(bytes, i));
        }
    }
    assert forall|k: int| 0 <= k < 20 implies #[trigger] decode_hex(h)[k] == bytes[k] by {
        assert(hex_value(h[2 * k]) == nibble(bytes, 2 * k));
        assert(hex_value(h[2 * k + 1]) == nibble(bytes, 2 * k + 1));
        assert((2 * k) % 2 == 0 && (2 * k) / 2 == k);
        assert((2 * k + 1) % 2 == 1 && (2 * k + 1) / 2 == k);
        let b = bytes[k] as int;
        assert(16 * (b / 16) + b % 16 == b);
    }
    assert(decode_hex(h) =~= bytes);
}

/// Address text is read the same whatever the case of its hex digits: two
/// spellings of one address name the same wallet.
pub proof fn lemma_address_case_insensitive(s1: Seq<char>, s2: Seq<char>)
    requires
        differs_only_in_case(s1, s2),
    ensures
        address_of_text(s1) == address_of_text(s2),
{
    let (h1, h2) = (strip_0x(s1), strip_0x(s2));
    assert(h1.len() == h2.len());
    assert forall|i: int| 0 <= i < h1.len() implies hex_value(#[trigger] h1[i]) == hex_value(h2[i]) by {
        let off: int = if s1.len() >= 2 && s1[0] == '0' && s1[1] == 'x' { 2 } else { 0 };
        assert(h1[i] == s1[i + off] && h2[i] == s2[i + off]);
        assert(same_ignoring_case(s1[i + off], s2[i + off]));
    }
    if h1.len() == 40 && all_hex(h1) {
        assert(all_hex(h2)) by {
            assert forall|i: int| 0 <= i < h2.len() implies hex_value(#[trigger] h2[i]) >= 0 by {
                assert(hex_value(h1[i]) == hex_value(h2[i]));
            }
        }
        assert forall|k: int| 0 <= k < 20 implies #[trigger] decode_hex(h1)[k] == decode_hex(h2)[k] by {
            assert(hex_value(h1[2 * k]) == hex_value(h2[2 * k]));
            assert(hex_value(h1[2 * k + 1]) == hex_value(h2[2 * k + 1]));
        }
        assert(decode_hex(h1) =~= decode_hex(h2));
    } else if h2.len() == 40 && all_hex(h2) {
        assert(all_hex(h1)) by {
            assert forall|i: int| 0 <= i < h1.len() implies hex_value(#[trigger] h1[i]) >= 0 by {
                assert(hex_value(h1[i]) == hex_value(h2[i]));
            }
        }
    }
}

} // verus!
