//! Decimal text of unsigned integers: rendering and exact reading.

use vstd::prelude::*;
use vstd::string::*;

verus! {

/// Relies on std's String::push: the string gains the character at its end.
pub assume_specification[ String::push ](s: &mut String, ch: char)
    ensures
        final(s)@ == old(s)@.push(ch),
;

pub open spec fn digit_char(d: int) -> char {
    if d == 0 {
        '0'
    } else if d == 1 {
        '1'
    } else if d == 2 {
        '2'
    } else if d == 3 {
        '3'
    } else if d == 4 {
        '4'
    } else if d == 5 {
        '5'
    } else if d == 6 {
        '6'
    } else if d == 7 {
        '7'
    } else if d == 8 {
        '8'
    } else {
        '9'
    }
}

/// The value of a decimal digit, or -1 for any other character.
pub open spec fn digit_value(c: char) -> int {
    let u = c as u32;
    if 48 <= u && u <= 57 {
        u - 48
    } else {
        -1
    }
}

/// The shortest decimal text of `n`.
pub open spec fn dec(n: nat) -> Seq<char>
    decreases n,
{
    if n < 10 {
        seq![digit_char(n as int)]
    } else {
        dec(n / 10).push(digit_char((n % 10) as int))
    }
}

/// The number that a string of digits spells.
pub open spec fn digits_value(s: Seq<char>) -> int
    decreases s.len(),
{
    if s.len() == 0 {
        0
    } else {
        10 * digits_value(s.drop_last()) + digit_value(s.last())
    }
}

pub open spec fn all_digits(s: Seq<char>) -> bool {
    forall|i: int| 0 <= i < s.len() ==> digit_value(#[trigger] s[i]) >= 0
}

proof fn lemma_digit_char(d: int)
    requires
        0 <= d < 10,
    ensures
        digit_value(digit_char(d)) == d,
{
}

/// The decimal text of `n` is made of digits and spells `n`.
pub proof fn lemma_dec(n: nat)
    ensures
        dec(n).len() >= 1,
        all_digits(dec(n)),
        digits_value(dec(n)) == n,
    decreases n,
{
    if n < 10 {
        lemma_digit_char(n as int);
        assert(dec(n).drop_last() =~= Seq::<char>::empty());
        assert(digits_value(Seq::<char>::empty()) == 0);
        assert(digits_value(dec(n)) == 10 * digits_value(dec(n).drop_last()) + digit_value(dec(n).last()));
    } else {
        lemma_dec(n / 10);
        lemma_digit_char((n % 10) as int);
        let s = dec(n);
        assert(s.drop_last() =~= dec(n / 10));
        assert(s.last() == digit_char((n % 10) as int));
        assert(10 * (n / 10) + n % 10 == n);
        assert(digits_value(s) == 10 * digits_value(s.drop_last()) + digit_value(s.last()));
        assert forall|i: int| 0 <= i < s.len() implies digit_value(#[trigger] s[i]) >= 0 by {
            if i < s.len() - 1 {
                assert(s[i] == dec(n / 10)[i]);
            }
        }
    }
}

/// Decimal text names one number.
pub proof fn lemma_dec_injective(m: nat, n: nat)
    requires
        dec(m) == dec(n),
    ensures
        m == n,
{
    lemma_dec(m);
    lemma_dec(n);
}

proof fn lemma_digits_value_prefix(s: Seq<char>, k: int)
    requires
        all_digits(s),
        0 <= k <= s.len(),
    ensures
        0 <= digits_value(s.subrange(0, k)) <= digits_value(s),
    decreases s.len(),
{
    if s.len() > 0 {
        let d = s.drop_last();
        assert(all_digits(d)) by {
            assert forall|i: int| 0 <= i < d.len() implies digit_value(#[trigger] d[i]) >= 0 by {
                assert(d[i] == s[i]);
            }
        }
        assert(digit_value(s[s.len() - 1]) >= 0);
        if k == s.len() {
            assert(s.subrange(0, k) =~= s);
            lemma_digits_value_prefix(d, d.len() as int);
            assert(d.subrange(0, d.len() as int) =~= d);
        } else {
            lemma_digits_value_prefix(d, k);
            assert(d.subrange(0, k) =~= s.subrange(0, k));
            lemma_digits_value_prefix(d, d.len() as int);
            assert(d.subrange(0, d.len() as int) =~= d);
        }
    } else {
        assert(s.subrange(0, k) =~= s);
    }
}

fn digit_char_of(d: u64) -> (r: char)
    requires
        d < 10,
    ensures
        r == digit_char(d as int),
{
    if d == 0 {
        '0'
    } else if d == 1 {
        '1'
    } else if d == 2 {
        '2'
    } else if d == 3 {
        '3'
    } else if d == 4 {
        '4'
    } else if d == 5 {
        '5'
    } else if d == 6 {
        '6'
    } else if d == 7 {
        '7'
    } else if d == 8 {
        '8'
    } else {
        '9'
    }
}

/// Appends the decimal text of `n`.
pub fn push_decimal(out: &mut String, n: u64)
    ensures
        final(out)@ == old(out)@ + dec(n as nat),
    decreases n,
{
    if n >= 10 {
        push_decimal(out, n / 10);
    }
    out.push(digit_char_of(n % 10));
    assert(final(out)@ =~= old(out)@ + dec(n as nat));
}

/// Reads exactly the decimal text of a `u64`: no sign, no leading zero,
/// nothing around it.
pub fn parse_decimal(s: &str) -> (r: Option<u64>)
    ensures
        r matches Some(n) ==> s@ == dec(n as nat),
        r is None ==> forall|n: u64| s@ != dec(n as nat),
{
    let len = s.unicode_len();
    if len == 0 {
        proof {
            assert forall|n: u64| s@ != dec(n as nat) by {
                lemma_dec(n as nat);
            }
        }
        return None;
    }
    let mut v: u64 = 0;
    let mut i: usize = 0;
    while i < len
        invariant
            len == s@.len(),
            i <= len,
            all_digits(s@.subrange(0, i as int)),
            v == digits_value(s@.subrange(0, i as int)),
        decreases len - i,
    {
        let c = s.get_char(i);
        let u = c as u32;
        let ghost p = s@.subrange(0, i + 1);
        assert(p.drop_last() =~= s@.subrange(0, i as int));
        if u < 48 || u > 57 {
            proof {
                assert forall|n: u64| s@ != dec(n as nat) by {
                    lemma_dec(n as nat);
                    if s@ == dec(n as nat) {
                        assert(digit_value(s@[i as int]) >= 0);
                    }
                }
            }
            return None;
        }
        let d = (u - 48) as u64;
        if v > (u64::MAX - d) / 10 {
            proof {
                assert(digits_value(p) > u64::MAX) by (nonlinear_arith)
                    requires
                        digits_value(p) == 10 * v + d,
                        v > (u64::MAX - d) / 10,
                        d <= 9,
                ;
                assert forall|n: u64| s@ != dec(n as nat) by {
                    lemma_dec(n as nat);
                    if s@ == dec(n as nat) {
                        lemma_digits_value_prefix(s@, i + 1);
                    }
                }
            }
            return None;
        }
        assert(all_digits(p)) by {
            assert forall|j: int| 0 <= j < p.len() implies digit_value(#[trigger] p[j]) >= 0 by {
                if j < i {
                    assert(p[j] == s@.subrange(0, i as int)[j]);
                }
            }
        }
        assert(10 * v + d <= u64::MAX) by (nonlinear_arith)
            requires
                v <= (u64::MAX - d) / 10,
                d <= 9,
        ;
        v = v * 10 + d;
        i = i + 1;
    }
    assert(s@.subrange(0, len as int) =~= s@);
    let mut t = String::new();
    push_decimal(&mut t, v);
    assert(t@ =~= dec(v as nat));
    let given = String::from_str(s);
    if t == given {
        Some(v)
    } else {
        proof {
            assert forall|n: u64| s@ != dec(n as nat) by {
                lemma_dec(n as nat);
            }
        }
        None
    }
}

} // verus!
