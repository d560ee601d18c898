use vstd::prelude::*;

use substring::Substring;

verus! {

/// What `str::substring` of the `substring` crate returns: the characters
/// from `start` to `end` (exclusive), both indices clamped to the character
/// count, and the empty string whenever `end <= start`.
pub open spec fn substring_spec(s: Seq<char>, start: int, end: int) -> Seq<char> {
    if end <= start {
        Seq::empty()
    } else {
        let len = s.len() as int;
        let lo = if start < len {
            start
        } else {
            len
        };
        let hi = if end < len {
            end
        } else {
            len
        };
        s.subrange(lo, hi)
    }
}

/// Relies on `Substring::substring` for `str` (crate `substring`): it
/// returns the slice between the two character indices, clamping each to
/// the end of the string, and the empty string when `end <= start`.
#[verifier::external_body]
fn substring_clamped<'a>(s: &'a str, start: usize, end: usize) -> (r: &'a str)
    ensures
        r@ == substring_spec(s@, start as int, end as int),
{
    s.substring(start, end)
}

/// Drops the first `start` characters of `string`; the whole string stays
/// when `start` is zero and the empty string comes back when `start` is the
/// length or more.
pub fn substring_no_end<'a>(string: &'a str, start: usize) -> (r: &'a str)
    ensures
        r@ == if start <= string@.len() {
            string@.subrange(start as int, string@.len() as int)
        } else {
            Seq::<char>::empty()
        },
{
    let n = string.unicode_len();
    let r = substring_clamped(string, start, n);
    proof {
        if start as int == n as int {
            assert(r@ =~= string@.subrange(start as int, string@.len() as int));
        }
        if start > n {
            assert(r@ =~= Seq::<char>::empty());
        }
    }
    r
}

} // verus!
