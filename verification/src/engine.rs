use vstd::prelude::*;

use crate::alphabet::{is_letter, letter_ordinal, letter_ordinal_spec};
use crate::info::Info;

verus! {

/// Sum of the natural-alphabet ordinals of a word's letters.
pub open spec fn word_value_spec(w: Seq<char>) -> int
    decreases w.len(),
{
    if w.len() == 0 {
        0
    } else {
        word_value_spec(w.drop_last()) + letter_ordinal_spec(w.last())
    }
}

/// The second-letter lower bound: walk the cipher-ordinal sequence with a
/// running counter; once the counter has dropped below 1, the next ordinal
/// is the bound; 1 if the sequence ends first.
pub open spec fn min_second_spec(vals: Seq<int>, cur: int) -> int
    decreases vals.len(),
{
    if vals.len() == 0 {
        1
    } else if cur < 1 {
        vals[0]
    } else {
        min_second_spec(vals.drop_first(), cur - vals[0])
    }
}

/// Walks the segment's cipher-ordinal sequence with a running counter that
/// starts at `first_value` and drops by each ordinal in turn; the first
/// ordinal seen once the counter is below 1 is the lower bound a matching
/// word's second letter must reach (1 if the counter never drops that far).
pub fn get_min_second_value(encoded: Vec<usize>, first_value: usize) -> (r: usize)
    requires
        1 <= first_value <= 26,
        forall|k: int| 0 <= k < encoded@.len() ==> 1 <= #[trigger] encoded@[k] <= 5,
    ensures
        r as int == min_second_spec(
            encoded@.map_values(|v: usize| v as int),
            first_value as int,
        ),
{
    let ghost vals = encoded@.map_values(|v: usize| v as int);
    let mut cur: i32 = first_value as i32;
    let mut i: usize = 0;
    proof {
        assert(vals.skip(0) =~= vals);
    }
    while i < encoded.len()
        invariant
            0 <= i <= encoded@.len(),
            vals == encoded@.map_values(|v: usize| v as int),
            forall|k: int| 0 <= k < encoded@.len() ==> 1 <= #[trigger] encoded@[k] <= 5,
            -4 <= cur <= 26,
            min_second_spec(vals, first_value as int) == min_second_spec(
                vals.skip(i as int),
                cur as int,
            ),
        decreases encoded@.len() - i,
    {
        let val = encoded[i];
        proof {
            assert(vals.skip(i as int)[0] == vals[i as int]);
            assert(vals.skip(i as int).drop_first() =~= vals.skip(i as int + 1));
        }
        if cur < 1 {
            return val;
        }
        cur = cur - val as i32;
        i = i + 1;
    }
    proof {
        assert(vals.skip(i as int) =~= Seq::<int>::empty());
    }
    1
}

/// Does the word reproduce the record's numeric metadata: its letter-value
/// sum equals `word_value` and the floor average of that sum over the word
/// length equals `average`?
pub fn is_equivalent(info: Info, chars: Vec<char>, size: usize) -> (r: bool)
    requires
        size == chars@.len(),
        size >= 1,
        forall|k: int| 0 <= k < chars@.len() ==> is_letter(chars@[k]),
    ensures
        r == (info.word_value == word_value_spec(chars@) && info.average == word_value_spec(
            chars@,
        ) / size as int),
{
    let mut sum: u128 = 0;
    let mut i: usize = 0;
    while i < chars.len()
        invariant
            0 <= i <= chars@.len(),
            chars@.len() <= usize::MAX,
            forall|k: int| 0 <= k < chars@.len() ==> is_letter(chars@[k]),
            sum == word_value_spec(chars@.subrange(0, i as int)),
            sum <= 26 * i,
        decreases chars@.len() - i,
    {
        let c = chars[i];
        let o = match letter_ordinal(c) {
            Some(o) => o,
            None => {
                // unreachable: every character was required to be a letter
                proof {
                    assert(is_letter(chars@[i as int]));
                }
                assert(false);
                0
            },
        };
        proof {
            assert(chars@.subrange(0, i as int + 1).drop_last() =~= chars@.subrange(0, i as int));
            assert(chars@.subrange(0, i as int + 1).last() == chars@[i as int]);
        }
        sum = sum + o as u128;
        i = i + 1;
    }
    proof {
        assert(chars@.subrange(0, chars@.len() as int) =~= chars@);
    }
    let value_ok: bool = sum == info.word_value as u128;
    let average_ok: bool = sum / (size as u128) == info.average as u128;
    value_ok && average_ok
}

/// The whole filter cascade for one candidate word against one constraint
/// record, with `min_second` the second-letter lower bound of the segment:
/// length is `size` or `size - 1`; the first letter's ordinal is
/// `first_value`; every character is a letter with ordinal at least
/// `lowest_value`; the second letter (if any) reaches `min_second`; some
/// letter's ordinal equals `lowest_value` exactly; and the letter-value sum
/// and floor average reproduce `word_value` and `average`.
pub open spec fn word_matches_spec(info: Info, min_second: int, w: Seq<char>) -> bool {
    let len = w.len() as int;
    &&& (len == info.size || len + 1 == info.size)
    &&& len >= 1
    &&& is_letter(w[0]) && letter_ordinal_spec(w[0]) == info.first_value
    &&& forall|k: int|
        0 <= k < len ==> is_letter(#[trigger] w[k]) && letter_ordinal_spec(w[k])
            >= info.lowest_value
    &&& (len > 1 ==> letter_ordinal_spec(w[1]) >= min_second)
    &&& exists|k: int| 0 <= k < len && letter_ordinal_spec(#[trigger] w[k]) == info.lowest_value
    &&& word_value_spec(w) == info.word_value
    &&& word_value_spec(w) / len == info.average
}

/// A word that never uses the letter at `lowest_value` is excluded,
/// whatever the other filters would say of it.
pub proof fn lemma_lowest_letter_used(info: Info, min_second: int, w: Seq<char>)
    requires
        forall|k: int|
            0 <= k < w.len() ==> letter_ordinal_spec(#[trigger] w[k]) != info.lowest_value,
    ensures
        !word_matches_spec(info, min_second, w),
{
}

/// Applies the filter cascade to one candidate word.
pub fn word_matches(info: Info, min_second_value: usize, word: &str) -> (r: bool)
    ensures
        r == word_matches_spec(info, min_second_value as int, word@),
{
    let n = word.unicode_len();
    // Length filter: the double truncation upstream makes both `size` and
    // `size - 1` acceptable.
    if !(n == info.size || (info.size >= 1 && n == info.size - 1)) {
        return false;
    }
    if n == 0 {
        return false;
    }
    // First-letter filter.
    let c0 = word.get_char(0);
    match letter_ordinal(c0) {
        None => {
            return false;
        },
        Some(o0) => {
            if o0 != info.first_value {
                return false;
            }
        },
    }
    // Minimum-letter filter, collecting the characters on the way.
    let mut chars: Vec<char> = Vec::new();
    let mut i: usize = 0;
    while i < n
        invariant
            0 <= i <= n,
            n == word@.len(),
            chars@ == word@.subrange(0, i as int),
            forall|k: int|
                0 <= k < i ==> is_letter(#[trigger] word@[k]) && letter_ordinal_spec(word@[k])
                    >= info.lowest_value,
        decreases n - i,
    {
        let c = word.get_char(i);
        match letter_ordinal(c) {
            None => {
                return false;
            },
            Some(o) => {
                if o < info.lowest_value {
                    return false;
                }
            },
        }
        chars.push(c);
        proof {
            assert(chars@ =~= word@.subrange(0, i as int + 1));
        }
        i = i + 1;
    }
    proof {
        assert(chars@ =~= word@);
    }
    // Second-letter lower bound, meaningful only when a second letter exists.
    if n > 1 {
        let c1 = chars[1];
        match letter_ordinal(c1) {
            None => {
                assert(false);
            },
            Some(o1) => {
                if o1 < min_second_value {
                    return false;
                }
            },
        }
    }
    // Lowest-letter-used filter: the ordinal `lowest_value` must occur.
    let mut used: bool = false;
    let mut j: usize = 0;
    while j < n
        invariant
            0 <= j <= n,
            n == chars@.len(),
            forall|k: int| 0 <= k < chars@.len() ==> is_letter(chars@[k]),
            used == exists|k: int|
                0 <= k < j && letter_ordinal_spec(#[trigger] chars@[k]) == info.lowest_value,
        decreases n - j,
    {
        let c = chars[j];
        match letter_ordinal(c) {
            None => {
                assert(false);
            },
            Some(o) => {
                if o == info.lowest_value {
                    used = true;
                }
            },
        }
        j = j + 1;
    }
    if !used {
        return false;
    }
    // Value-equivalence filter.
    is_equivalent(info, chars, n)
}

/// The ordered subsequence of the dictionary whose words pass the whole
/// filter cascade for one constraint record.
pub open spec fn matching_words(rec: Info, min_second: int, dict: Seq<String>) -> Seq<String> {
    dict.filter(|w: String| word_matches_spec(rec, min_second, w@))
}

/// Filters the dictionary down to the words matching one constraint record,
/// keeping dictionary order and multiplicity.
pub fn match_words(info: Info, min_second_value: usize, dictionary: &Vec<String>) -> (r: Vec<
    String,
>)
    ensures
        r@ == matching_words(info, min_second_value as int, dictionary@),
{
    let mut out: Vec<String> = Vec::new();
    let mut i: usize = 0;
    while i < dictionary.len()
        invariant
            0 <= i <= dictionary@.len(),
            out@ == matching_words(info, min_second_value as int, dictionary@.subrange(0, i as int)),
        decreases dictionary@.len() - i,
    {
        let word = &dictionary[i];
        let ghost prefix = dictionary@.subrange(0, i as int);
        if word_matches(info, min_second_value, word.as_str()) {
            out.push(word.clone());
        }
        proof {
            let pred = |w: String| word_matches_spec(info, min_second_value as int, w@);
            assert(dictionary@.subrange(0, i as int + 1).drop_last() =~= prefix);
            assert(dictionary@.subrange(0, i as int + 1).last() == dictionary@[i as int]);
            reveal_with_fuel(Seq::filter, 2);
            assert(dictionary@.subrange(0, i as int + 1).filter(pred) == if pred(
                dictionary@[i as int],
            ) {
                prefix.filter(pred).push(dictionary@[i as int])
            } else {
                prefix.filter(pred)
            });
        }
        i = i + 1;
    }
    proof {
        assert(dictionary@.subrange(0, dictionary@.len() as int) =~= dictionary@);
    }
    out
}

} // verus!
