//! Validated on-chain object identifiers.
//!
//! The read API takes object identifiers — accounts, contracts,
//! channels — from callers and hands them to store queries. A raw
//! string goes nowhere near a query: it is checked at the boundary
//! against the identifier shape and rejected with an explicit error
//! when malformed, never by aborting the process.
//!
//! The shape is two lowercase letters naming the object kind, an
//! underscore, and 40 to 60 characters of the base-58 alphabet (which
//! has no `0`, `O`, `I` or `l`).

use vstd::prelude::*;
use vstd::string::StringSliceAdditionalSpecFns;

use crate::error::MiddlewareError;

verus! {

/// An ASCII lowercase letter.
pub open spec fn is_lower_byte(b: u8) -> bool {
    97 <= b <= 122
}

/// A byte of the base-58 alphabet: `1-9`, `A-Z` without `I` and `O`,
/// `a-z` without `l`.
pub open spec fn is_base58_byte(b: u8) -> bool {
    ||| (49 <= b <= 57)
    ||| (65 <= b <= 90 && b != 73 && b != 79)
    ||| (97 <= b <= 122 && b != 108)
}

/// The identifier shape: kind prefix, underscore, 40 to 60 base-58
/// characters.
pub open spec fn valid_identifier(s: Seq<u8>) -> bool {
    &&& 43 <= s.len() <= 63
    &&& is_lower_byte(s[0])
    &&& is_lower_byte(s[1])
    &&& s[2] == 95
    &&& forall|i: int| 3 <= i < s.len() ==> is_base58_byte(#[trigger] s[i])
}

/// An object identifier that passed validation at the boundary.
pub struct Identifier {
    text: String,
}

impl View for Identifier {
    type V = Seq<char>;

    closed spec fn view(&self) -> Seq<char> {
        self.text@
    }
}

impl Identifier {
    /// The identifier's bytes satisfy the shape.
    pub closed spec fn wf(&self) -> bool {
        valid_identifier(vstd::utf8::encode_utf8(self.text@))
    }

    /// Validate a caller-supplied identifier. Malformed input gets a
    /// parse error; it never reaches a query.
    pub fn parse(s: &str) -> (r: Result<Identifier, MiddlewareError>)
        ensures
            match r {
                Ok(id) => valid_identifier(s.spec_bytes()) && id@ == s@ && id.wf(),
                Err(e) => e == MiddlewareError::Parse && !valid_identifier(s.spec_bytes()),
            },
    {
        let bytes = s.as_bytes();
        let n = bytes.len();
        if n < 43 || n > 63 {
            return Err(MiddlewareError::Parse);
        }
        let b0 = bytes[0];
        let b1 = bytes[1];
        if !(97 <= b0 && b0 <= 122 && 97 <= b1 && b1 <= 122 && bytes[2] == 95) {
            return Err(MiddlewareError::Parse);
        }
        let mut i: usize = 3;
        while i < n
            invariant
                3 <= i <= n,
                n == bytes@.len(),
                bytes@ == s.spec_bytes(),
                forall|k: int| 3 <= k < i ==> is_base58_byte(#[trigger] bytes@[k]),
            decreases n - i,
        {
            let b = bytes[i];
            let ok = (49 <= b && b <= 57) || (65 <= b && b <= 90 && b != 73 && b != 79) || (97 <= b
                && b <= 122 && b != 108);
            if !ok {
                proof {
                    assert(!is_base58_byte(s.spec_bytes()[i as int]));
                    assert(!valid_identifier(s.spec_bytes()));
                }
                return Err(MiddlewareError::Parse);
            }
            i = i + 1;
        }
        let id = Identifier { text: s.to_owned() };
        proof {
            assert(vstd::utf8::encode_utf8(id.text@) == s.spec_bytes());
        }
        Ok(id)
    }

    /// The validated text, for query parameters.
    pub fn as_str(&self) -> (r: &str)
        ensures
            r@ == self@,
    {
        self.text.as_str()
    }
}

} // verus!
