//! Syntactic validation of collection identifiers.
//!
//! A collection is named by an account identifier of the host chain.
//! This crate's definition of a well-formed identifier is the shape the
//! host environment's validator accepts, stated for the ASCII
//! identifiers that asset ledgers actually use: between three and ninety
//! characters, every one ASCII, and none an uppercase letter (an
//! identifier must equal its own lowercasing).  An identifier that fails
//! the check is rejected as `InvalidAddress` before anything is written;
//! identifiers outside ASCII are not part of this definition and are
//! rejected as well.

use vstd::prelude::*;
use vstd::string::*;

verus! {

/// The longest identifier accepted.
pub const MAX_COLLECTION_LEN: usize = 90;

/// The shortest identifier accepted.
pub const MIN_COLLECTION_LEN: usize = 3;

/// A character admissible in a collection identifier: ASCII, and not an
/// uppercase letter, so that lowercasing leaves the identifier unchanged.
pub open spec fn valid_collection_char(c: char) -> bool {
    (c as u32) < 128 && !('A' <= c && c <= 'Z')
}

/// `s` is a syntactically valid collection identifier.
pub open spec fn valid_collection(s: Seq<char>) -> bool {
    &&& MIN_COLLECTION_LEN <= s.len() <= MAX_COLLECTION_LEN
    &&& forall|i: int| 0 <= i < s.len() ==> valid_collection_char(#[trigger] s[i])
}

/// Checks a collection identifier's shape.
pub fn validate_collection(s: &str) -> (b: bool)
    ensures
        b == valid_collection(s@),
{
    let len = s.unicode_len();
    if len < MIN_COLLECTION_LEN || len > MAX_COLLECTION_LEN {
        return false;
    }
    let mut i: usize = 0;
    while i < len
        invariant
            0 <= i <= len,
            len == s@.len(),
            forall|j: int| 0 <= j < i ==> valid_collection_char(#[trigger] s@[j]),
        decreases len - i,
    {
        let c = s.get_char(i);
        let ok = (c as u32) < 128 && !(c >= 'A' && c <= 'Z');
        if !ok {
            proof {
                assert(!valid_collection_char(s@[i as int]));
            }
            return false;
        }
        i = i + 1;
    }
    true
}

} // verus!
