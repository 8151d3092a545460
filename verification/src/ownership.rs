//! Borrow-friendly string helpers.

use vstd::prelude::*;
use vstd::string::StrSliceExecFns;

verus! {

/// The first word of the string: the prefix up to, but not including, the
/// first space, or the whole string when it holds none. Returned as a slice
/// borrowed from the input.
pub fn first_word<'a>(s: &'a str) -> (r: &'a str)
    ensures
        r@.len() <= s@.len(),
        r@ == s@.take(r@.len() as int),
        forall|j: int| 0 <= j < r@.len() ==> s@[j] != ' ',
        r@.len() < s@.len() ==> s@[r@.len() as int] == ' ',
{
    let len = s.unicode_len();
    let mut i: usize = 0;
    while i < len
        invariant
            i <= len,
            len == s@.len(),
            forall|j: int| 0 <= j < i ==> s@[j] != ' ',
        decreases len - i,
    {
        if s.get_char(i) == ' ' {
            let r = s.substring_char(0, i);
            proof {
                assert(r@ =~= s@.take(i as int));
            }
            return r;
        }
        i += 1;
    }
    let r = s.substring_char(0, len);
    proof {
        assert(r@ =~= s@.take(len as int));
    }
    r
}

} // verus!
