//! Admission checks for requests, and the credential a request presents.

use vstd::prelude::*;
use vstd::string::*;
use crate::address::same_ignoring_case;
use crate::jwt::SessionClaims;

verus! {

pub open spec fn bearer_prefix() -> Seq<char> {
    seq!['b', 'e', 'a', 'r', 'e', 'r', ' ']
}

/// The credential in an `Authorization` header value: what follows a
/// leading `Bearer ` (in any letter case), or else the whole value.
pub open spec fn bearer_token(value: Seq<char>) -> Seq<char> {
    if value.len() >= 7 && forall|i: int| 0 <= i < 7 ==> same_ignoring_case(#[trigger] value[i], bearer_prefix()[i]) {
        value.subrange(7, value.len() as int)
    } else {
        value
    }
}

/// The session credential of a request, from its `Authorization` header
/// value if it has one.
pub fn get_token_from_headers(authorization: Option<&str>) -> (r: Option<String>)
    ensures
        match authorization {
            None => r is None,
            Some(v) => r matches Some(t) && t@ == bearer_token(v@),
        },
{
    let value = match authorization {
        Some(v) => v,
        None => return None,
    };
    let len = value.unicode_len();
    if len < 7 {
        return Some(String::from_str(value));
    }
    let prefix = ['b', 'e', 'a', 'r', 'e', 'r', ' '];
    let mut i: usize = 0;
    while i < 7
        invariant
            authorization == Some(value),
            len == value@.len(),
            len >= 7,
            i <= 7,
            prefix@ == bearer_prefix(),
            forall|j: int| 0 <= j < i ==> same_ignoring_case(#[trigger] value@[j], bearer_prefix()[j]),
        decreases 7 - i,
    {
        let c = value.get_char(i);
        let p = prefix[i];
        let (u, q) = (c as u32, p as u32);
        if !(u == q || (65 <= u && u <= 90 && q == u + 32) || (65 <= q && q <= 90 && u == q + 32)) {
            assert(!same_ignoring_case(value@[i as int], bearer_prefix()[i as int]));
            assert(bearer_token(value@) == value@);
            return Some(String::from_str(value));
        }
        i = i + 1;
    }
    Some(String::from_str(value.substring_char(7, len)))
}

/// Admits only requests that carry a validated session.
pub struct IsAuthenticated;

impl IsAuthenticated {
    pub fn check(&self, session: &Option<SessionClaims>) -> (r: Result<(), String>)
        ensures
            r is Ok <==> session is Some,
            r matches Err(m) ==> m@ == "Forbidden"@,
    {
        match session {
            Some(_) => Ok(()),
            None => Err(String::from_str("Forbidden")),
        }
    }
}

} // verus!
