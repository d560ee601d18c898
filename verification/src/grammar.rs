use vstd::prelude::*;

use crate::alphabet::{is_cipher_symbol, is_digit_char, is_space_char};

verus! {

// The segment pattern of the puzzle notation, as it stands in the raw text:
// one or more cipher symbols, one whitespace character, then a metadata
// block of the exact shape `[digits x digits x digits][digits]`.

/// First position at or after `i` that does not hold a decimal digit.
pub open spec fn digit_run_end(s: Seq<char>, i: int) -> int
    decreases s.len() - i,
{
    if i < 0 || i >= s.len() || !is_digit_char(s[i]) {
        i
    } else {
        digit_run_end(s, i + 1)
    }
}

/// First position at or after `i` that does not hold a cipher symbol.
pub open spec fn symbol_run_end(s: Seq<char>, i: int) -> int
    decreases s.len() - i,
{
    if i < 0 || i >= s.len() || !is_cipher_symbol(s[i]) {
        i
    } else {
        symbol_run_end(s, i + 1)
    }
}

pub proof fn lemma_digit_run_end(s: Seq<char>, i: int)
    requires
        0 <= i <= s.len(),
    ensures
        i <= digit_run_end(s, i) <= s.len(),
        forall|k: int| i <= k < digit_run_end(s, i) ==> is_digit_char(#[trigger] s[k]),
        digit_run_end(s, i) < s.len() ==> !is_digit_char(s[digit_run_end(s, i)]),
    decreases s.len() - i,
{
    if i < s.len() && is_digit_char(s[i]) {
        lemma_digit_run_end(s, i + 1);
    }
}

pub proof fn lemma_symbol_run_end(s: Seq<char>, i: int)
    requires
        0 <= i <= s.len(),
    ensures
        i <= symbol_run_end(s, i) <= s.len(),
        forall|k: int| i <= k < symbol_run_end(s, i) ==> is_cipher_symbol(#[trigger] s[k]),
        symbol_run_end(s, i) < s.len() ==> !is_cipher_symbol(s[symbol_run_end(s, i)]),
    decreases s.len() - i,
{
    if i < s.len() && is_cipher_symbol(s[i]) {
        lemma_symbol_run_end(s, i + 1);
    }
}

/// End of a metadata block `[digits x digits x digits][digits]` starting at
/// position `k` (the position one past its closing bracket), if one starts
/// there.
pub open spec fn meta_end_at(s: Seq<char>, k: int) -> Option<int> {
    if !(0 <= k && k < s.len() && s[k] == '[') {
        None
    } else {
        let e1 = digit_run_end(s, k + 1);
        if !(e1 > k + 1 && e1 < s.len() && s[e1] == 'x') {
            None
        } else {
            let e2 = digit_run_end(s, e1 + 1);
            if !(e2 > e1 + 1 && e2 < s.len() && s[e2] == 'x') {
                None
            } else {
                let e3 = digit_run_end(s, e2 + 1);
                if !(e3 > e2 + 1 && e3 + 1 < s.len() && s[e3] == ']' && s[e3 + 1] == '[') {
                    None
                } else {
                    let e4 = digit_run_end(s, e3 + 2);
                    if !(e4 > e3 + 2 && e4 < s.len() && s[e4] == ']') {
                        None
                    } else {
                        Some(e4 + 1)
                    }
                }
            }
        }
    }
}

pub proof fn lemma_meta_end_bounds(s: Seq<char>, k: int)
    requires
        meta_end_at(s, k) is Some,
    ensures
        k + 9 <= meta_end_at(s, k)->Some_0 <= s.len(),
    decreases s.len() - k,
{
    lemma_digit_run_end(s, k + 1);
    let e1 = digit_run_end(s, k + 1);
    lemma_digit_run_end(s, e1 + 1);
    let e2 = digit_run_end(s, e1 + 1);
    lemma_digit_run_end(s, e2 + 1);
    let e3 = digit_run_end(s, e2 + 1);
    lemma_digit_run_end(s, e3 + 2);
}

/// A segment match beginning at position `i`: `Some((j, e))` where `j` is
/// the position of the whitespace separator and `e` the end of the match,
/// if the pattern matches there.
pub open spec fn match_at(s: Seq<char>, i: int) -> Option<(int, int)> {
    if !(0 <= i && i < s.len() && is_cipher_symbol(s[i])) {
        None
    } else {
        let j = symbol_run_end(s, i);
        if !(j < s.len() && is_space_char(s[j])) {
            None
        } else {
            match meta_end_at(s, j + 1) {
                Some(e) => Some((j, e)),
                None => None,
            }
        }
    }
}

pub proof fn lemma_match_at(s: Seq<char>, i: int)
    requires
        match_at(s, i) is Some,
    ensures
        ({
            let (j, e) = match_at(s, i)->Some_0;
            &&& i < j < e <= s.len()
            &&& forall|k: int| i <= k < j ==> is_cipher_symbol(#[trigger] s[k])
            &&& is_space_char(s[j])
            &&& meta_end_at(s, j + 1) == Some(e)
        }),
{
    lemma_symbol_run_end(s, i);
    let j = symbol_run_end(s, i);
    lemma_meta_end_bounds(s, j + 1);
}

/// The bounds of every non-overlapping segment match from position `i` on,
/// scanning left to right: each entry is `(start, separator, end)`.
pub open spec fn segments_from(s: Seq<char>, i: int) -> Seq<(int, int, int)>
    decreases s.len() - i,
{
    if i < 0 || i >= s.len() {
        Seq::empty()
    } else {
        match match_at(s, i) {
            Some((j, e)) => if i < e <= s.len() {
                seq![(i, j, e)] + segments_from(s, e)
            } else {
                // never reached: a match always ends past its start and
                // within the text (`lemma_match_at`); the test keeps the
                // recursion visibly decreasing
                Seq::empty()
            },
            None => segments_from(s, i + 1),
        }
    }
}

/// The bounds of every segment match of the whole text, left to right.
pub open spec fn segments_of(s: Seq<char>) -> Seq<(int, int, int)> {
    segments_from(s, 0)
}

/// Every entry the scan reports is a real match: its separator and end are
/// what `match_at` gives at its start position.
pub proof fn lemma_segments_from_matches(s: Seq<char>, i: int)
    ensures
        forall|k: int|
            0 <= k < segments_from(s, i).len() ==> {
                let b = #[trigger] segments_from(s, i)[k];
                match_at(s, b.0) == Some((b.1, b.2))
            },
    decreases s.len() - i,
{
    if 0 <= i < s.len() {
        match match_at(s, i) {
            Some((j, e)) => {
                lemma_match_at(s, i);
                if i < e <= s.len() {
                    lemma_segments_from_matches(s, e);
                    let whole = segments_from(s, i);
                    let rest = segments_from(s, e);
                    assert forall|k: int| 0 <= k < whole.len() implies {
                        let b = #[trigger] whole[k];
                        match_at(s, b.0) == Some((b.1, b.2))
                    } by {
                        if k > 0 {
                            assert(whole[k] == rest[k - 1]);
                        }
                    }
                }
            },
            None => {
                lemma_segments_from_matches(s, i + 1);
            },
        }
    }
}

// Exec scanners, each mirroring its spec counterpart.

/// First position at or after `i` that does not hold a decimal digit.
pub fn scan_digit_run(s: &str, i: usize) -> (r: usize)
    requires
        i <= s@.len(),
    ensures
        r as int == digit_run_end(s@, i as int),
        i <= r <= s@.len(),
{
    let n = s.unicode_len();
    let mut j = i;
    while j < n
        invariant
            i <= j <= n,
            n == s@.len(),
            digit_run_end(s@, i as int) == digit_run_end(s@, j as int),
        decreases n - j,
    {
        let c = s.get_char(j);
        let v = c as u32;
        if !(48 <= v && v <= 57) {
            return j;
        }
        j = j + 1;
    }
    j
}

/// First position at or after `i` that does not hold a cipher symbol.
pub fn scan_symbol_run(s: &str, i: usize) -> (r: usize)
    requires
        i <= s@.len(),
    ensures
        r as int == symbol_run_end(s@, i as int),
        i <= r <= s@.len(),
{
    let n = s.unicode_len();
    let mut j = i;
    while j < n
        invariant
            i <= j <= n,
            n == s@.len(),
            symbol_run_end(s@, i as int) == symbol_run_end(s@, j as int),
        decreases n - j,
    {
        let c = s.get_char(j);
        if !(c == '.' || c == '*' || c == '<' || c == '>' || c == '-') {
            return j;
        }
        j = j + 1;
    }
    j
}

/// End of a metadata block starting at `k`, if one starts there.
pub fn scan_meta_end(s: &str, k: usize) -> (r: Option<usize>)
    requires
        k <= s@.len(),
    ensures
        match r {
            Some(e) => meta_end_at(s@, k as int) == Some(e as int) && k < e <= s@.len(),
            None => meta_end_at(s@, k as int) is None,
        },
{
    let n = s.unicode_len();
    if !(k < n && s.get_char(k) == '[') {
        return None;
    }
    let e1 = scan_digit_run(s, k + 1);
    if !(e1 > k + 1 && e1 < n && s.get_char(e1) == 'x') {
        return None;
    }
    let e2 = scan_digit_run(s, e1 + 1);
    if !(e2 > e1 + 1 && e2 < n && s.get_char(e2) == 'x') {
        return None;
    }
    let e3 = scan_digit_run(s, e2 + 1);
    if !(e3 > e2 + 1 && e3 < n && e3 + 1 < n && s.get_char(e3) == ']' && s.get_char(e3 + 1) == '[') {
        return None;
    }
    let e4 = scan_digit_run(s, e3 + 2);
    if !(e4 > e3 + 2 && e4 < n && s.get_char(e4) == ']') {
        return None;
    }
    Some(e4 + 1)
}

} // verus!
