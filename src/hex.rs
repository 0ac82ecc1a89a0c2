//! Hexadecimal digits and their decoding into bytes.

use vstd::prelude::*;
use vstd::string::*;

verus! {

/// The value of a hexadecimal digit (either case), or -1 for any other character.
pub open spec fn hex_value(c: char) -> int {
    let u = c as u32;
    if 48 <= u && u <= 57 {
        u - 48
    } else if 97 <= u && u <= 102 {
        u - 87
    } else if 65 <= u && u <= 70 {
        u - 55
    } else {
        -1
    }
}

pub open spec fn all_hex(s: Seq<char>) -> bool {
    forall|i: int| 0 <= i < s.len() ==> hex_value(#[trigger] s[i]) >= 0
}

/// The bytes written by pairs of hex digits, high nibble first.
pub open spec fn decode_hex(s: Seq<char>) -> Seq<u8> {
    Seq::new(
        (s.len() / 2) as nat,
        |k: int| (16 * hex_value(s[2 * k]) + hex_value(s[2 * k + 1])) as u8,
    )
}

/// Nibble `i` of `bytes`, counting high nibble first.
pub open spec fn nibble(bytes: Seq<u8>, i: int) -> int {
    if i % 2 == 0 {
        bytes[i / 2] as int / 16
    } else {
        bytes[i / 2] as int % 16
    }
}

/// `s` spells out `bytes` in hex, two digits per byte, in any mix of cases.
pub open spec fn spells_hex(s: Seq<char>, bytes: Seq<u8>) -> bool {
    &&& s.len() == 2 * bytes.len()
    &&& forall|i: int| 0 <= i < s.len() ==> hex_value(#[trigger] s[i]) == nibble(bytes, i)
}

/// `s` with a leading lower-case `0x` removed, if it has one.
pub open spec fn strip_0x(s: Seq<char>) -> Seq<char> {
    if s.len() >= 2 && s[0] == '0' && s[1] == 'x' {
        s.subrange(2, s.len() as int)
    } else {
        s
    }
}

/// `s` with a leading `0x` or `0X` removed, if it has one.
pub open spec fn strip_0x_any_case(s: Seq<char>) -> Seq<char> {
    if s.len() >= 2 && s[0] == '0' && (s[1] == 'x' || s[1] == 'X') {
        s.subrange(2, s.len() as int)
    } else {
        s
    }
}

/// Whether two byte strings are equal.
pub fn bytes_equal(a: &Vec<u8>, b: &Vec<u8>) -> (r: bool)
    ensures
        r == (a@ == b@),
{
    if a.len() != b.len() {
        return false;
    }
    let mut i: usize = 0;
    while i < a.len()
        invariant
            a@.len() == b@.len(),
            i <= a@.len(),
            forall|j: int| 0 <= j < i ==> a@[j] == b@[j],
        decreases a@.len() - i,
    {
        if a[i] != b[i] {
            return false;
        }
        i = i + 1;
    }
    assert(a@ =~= b@);
    true
}

pub fn hex_digit(c: char) -> (r: Option<u8>)
    ensures
        r is Some <==> hex_value(c) >= 0,
        r matches Some(v) ==> v as int == hex_value(c),
{
    let u = c as u32;
    if 48 <= u && u <= 57 {
        Some((u - 48) as u8)
    } else if 97 <= u && u <= 102 {
        Some((u - 87) as u8)
    } else if 65 <= u && u <= 70 {
        Some((u - 55) as u8)
    } else {
        None
    }
}

/// Decodes `s[from..]` as pairs of hex digits.
pub fn decode_hex_from(s: &str, from: usize) -> (r: Option<Vec<u8>>)
    requires
        from <= s@.len(),
    ensures
        ({
            let t = s@.subrange(from as int, s@.len() as int);
            &&& r is Some <==> (t.len() % 2 == 0 && all_hex(t))
            &&& r matches Some(v) ==> v@ == decode_hex(t)
        }),
{
    let ghost t = s@.subrange(from as int, s@.len() as int);
    let len = s.unicode_len();
    if (len - from) % 2 != 0 {
        return None;
    }
    let n = (len - from) / 2;
    let mut out: Vec<u8> = Vec::new();
    let mut k: usize = 0;
    while k < n
        invariant
            len == s@.len(),
            from <= len,
            n == (len - from) / 2,
            (len - from) % 2 == 0,
            t == s@.subrange(from as int, len as int),
            k <= n,
            out@.len() == k,
            forall|j: int| 0 <= j < 2 * k ==> hex_value(#[trigger] t[j]) >= 0,
            forall|j: int| 0 <= j < k ==> #[trigger] out@[j] == decode_hex(t)[j],
        decreases n - k,
    {
        let hi = hex_digit(s.get_char(from + 2 * k));
        let lo = hex_digit(s.get_char(from + 2 * k + 1));
        assert(t[2 * k as int] == s@[from + 2 * k]);
        assert(t[2 * k + 1] == s@[from + 2 * k + 1]);
        match (hi, lo) {
            (Some(h), Some(l)) => {
                out.push(h * 16 + l);
                k = k + 1;
            },
            _ => {
                assert(!all_hex(t)) by {
                    if hi is None {
                        assert(hex_value(t[2 * k as int]) < 0);
                    } else {
                        assert(hex_value(t[2 * k + 1]) < 0);
                    }
                }
                return None;
            },
        }
    }
    assert(all_hex(t)) by {
        assert forall|j: int| 0 <= j < t.len() implies hex_value(#[trigger] t[j]) >= 0 by {
            assert(j < 2 * k);
        }
    }
    assert(out@ =~= decode_hex(t));
    Some(out)
}

} // verus!
