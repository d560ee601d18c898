use vstd::prelude::*;

use crate::alphabet::{digit_value_spec, is_digit_char};
use crate::error::PuzzleError;
use crate::grammar::{digit_run_end, lemma_digit_run_end, meta_end_at, scan_meta_end};
use crate::info::Info;

verus! {

/// Value of a run of decimal digits read as an ordinary decimal literal;
/// leading zero digits carry no special meaning.
pub open spec fn digits_value(s: Seq<char>) -> int
    decreases s.len(),
{
    if s.len() == 0 {
        0
    } else {
        10 * digits_value(s.drop_last()) + digit_value_spec(s.last())
    }
}

pub proof fn lemma_digits_value_nonneg(s: Seq<char>)
    requires
        forall|k: int| 0 <= k < s.len() ==> is_digit_char(#[trigger] s[k]),
    ensures
        digits_value(s) >= 0,
    decreases s.len(),
{
    if s.len() > 0 {
        lemma_digits_value_nonneg(s.drop_last());
    }
}

/// Appending digits never lowers the value: the whole run is worth at least
/// any of its prefixes.
pub proof fn lemma_digits_value_prefix(s: Seq<char>, j: int)
    requires
        forall|k: int| 0 <= k < s.len() ==> is_digit_char(#[trigger] s[k]),
        0 <= j <= s.len(),
    ensures
        digits_value(s.subrange(0, j)) <= digits_value(s),
    decreases s.len(),
{
    if j == s.len() {
        assert(s.subrange(0, j) =~= s);
    } else {
        let t = s.drop_last();
        assert(s.subrange(0, j) =~= t.subrange(0, j));
        lemma_digits_value_prefix(t, j);
        lemma_digits_value_nonneg(t);
    }
}

// Positions inside a metadata block `[d1 x d2 x d3][d4]`: the end of each
// digit run, and the value of each field.

pub open spec fn meta_e1(m: Seq<char>) -> int {
    digit_run_end(m, 1)
}

pub open spec fn meta_e2(m: Seq<char>) -> int {
    digit_run_end(m, meta_e1(m) + 1)
}

pub open spec fn meta_e3(m: Seq<char>) -> int {
    digit_run_end(m, meta_e2(m) + 1)
}

pub open spec fn meta_e4(m: Seq<char>) -> int {
    digit_run_end(m, meta_e3(m) + 2)
}

/// Does the whole string have the exact shape `[d1 x d2 x d3][d4]`?
pub open spec fn meta_shape_ok(m: Seq<char>) -> bool {
    meta_end_at(m, 0) == Some(m.len() as int)
}

pub open spec fn meta_word_value(m: Seq<char>) -> int {
    digits_value(m.subrange(1, meta_e1(m)))
}

pub open spec fn meta_average(m: Seq<char>) -> int {
    digits_value(m.subrange(meta_e1(m) + 1, meta_e2(m)))
}

pub open spec fn meta_first(m: Seq<char>) -> int {
    digits_value(m.subrange(meta_e2(m) + 1, meta_e3(m)))
}

pub open spec fn meta_lowest(m: Seq<char>) -> int {
    digits_value(m.subrange(meta_e3(m) + 2, meta_e4(m)))
}

/// A metadata string decodes to a constraint record exactly when it has the
/// bracket shape, its fields fit the machine word, the average is nonzero
/// (the division defining `size` must be defined) and both letter fields
/// are ordinals of the natural alphabet.
pub open spec fn decode_ok(m: Seq<char>) -> bool {
    &&& meta_shape_ok(m)
    &&& meta_word_value(m) <= usize::MAX
    &&& 1 <= meta_average(m) <= usize::MAX
    &&& 1 <= meta_first(m) <= 26
    &&& 1 <= meta_lowest(m) <= 26
}

/// The constraint record a well-formed metadata string decodes to.
pub open spec fn info_of_meta(m: Seq<char>) -> Info {
    Info {
        word_value: meta_word_value(m) as usize,
        average: meta_average(m) as usize,
        first_value: meta_first(m) as usize,
        lowest_value: meta_lowest(m) as usize,
        size: (meta_word_value(m) / meta_average(m)) as usize,
    }
}

/// Reads a nonempty run of decimal digits as a decimal literal; `None` when
/// the value does not fit the machine word.
pub fn parse_decimal(s: &str) -> (r: Option<usize>)
    requires
        s@.len() >= 1,
        forall|k: int| 0 <= k < s@.len() ==> is_digit_char(#[trigger] s@[k]),
    ensures
        match r {
            Some(v) => digits_value(s@) <= usize::MAX && v == digits_value(s@),
            None => digits_value(s@) > usize::MAX,
        },
{
    let n = s.unicode_len();
    let mut acc: usize = 0;
    let mut i: usize = 0;
    proof {
        assert(s@.subrange(0, 0) =~= Seq::<char>::empty());
    }
    while i < n
        invariant
            0 <= i <= n,
            n == s@.len(),
            forall|k: int| 0 <= k < s@.len() ==> is_digit_char(#[trigger] s@[k]),
            acc == digits_value(s@.subrange(0, i as int)),
        decreases n - i,
    {
        let c = s.get_char(i);
        let d = (c as u32 - 48) as usize;
        proof {
            assert(s@.subrange(0, i as int + 1).drop_last() =~= s@.subrange(0, i as int));
            assert(s@.subrange(0, i as int + 1).last() == s@[i as int]);
        }
        if acc > usize::MAX / 10 {
            proof {
                assert(10 * (usize::MAX as int / 10) + usize::MAX as int % 10 == usize::MAX as int);
                assert(10 * acc as int + d as int > usize::MAX as int);
                lemma_digits_value_prefix(s@, i as int + 1);
            }
            return None;
        }
        proof {
            assert(10 * (usize::MAX as int / 10) + usize::MAX as int % 10 == usize::MAX as int);
            assert(10 * acc as int <= usize::MAX as int);
        }
        let t = acc * 10;
        if d > usize::MAX - t {
            proof {
                lemma_digits_value_prefix(s@, i as int + 1);
            }
            return None;
        }
        acc = t + d;
        i = i + 1;
    }
    proof {
        assert(s@.subrange(0, n as int) =~= s@);
    }
    Some(acc)
}

/// Decodes a metadata string of the exact form `[W x A x F][L]` into a
/// constraint record, computing `size = W / A` under floor division. Any
/// other shape, a field too large for the machine word, a zero average, or
/// a letter field outside the alphabet table is a metadata parse error.
pub fn decode_info(info: &str) -> (r: Result<Info, PuzzleError>)
    ensures
        match r {
            Ok(rec) => decode_ok(info@) && rec == info_of_meta(info@) && rec.wf(),
            Err(e) => !decode_ok(info@) && e == PuzzleError::MetadataParse,
        },
{
    let n = info.unicode_len();
    let e = match scan_meta_end(info, 0) {
        None => {
            return Err(PuzzleError::MetadataParse);
        },
        Some(e) => e,
    };
    if e != n {
        return Err(PuzzleError::MetadataParse);
    }
    // The shape holds; the four digit runs are now fixed by it.
    let e1 = crate::grammar::scan_digit_run(info, 1);
    let e2 = crate::grammar::scan_digit_run(info, e1 + 1);
    let e3 = crate::grammar::scan_digit_run(info, e2 + 1);
    let e4 = crate::grammar::scan_digit_run(info, e3 + 2);
    proof {
        lemma_digit_run_end(info@, 1);
        lemma_digit_run_end(info@, e1 as int + 1);
        lemma_digit_run_end(info@, e2 as int + 1);
        lemma_digit_run_end(info@, e3 as int + 2);
    }
    let word_value = match parse_decimal(info.substring_char(1, e1)) {
        None => {
            return Err(PuzzleError::MetadataParse);
        },
        Some(v) => v,
    };
    let average = match parse_decimal(info.substring_char(e1 + 1, e2)) {
        None => {
            return Err(PuzzleError::MetadataParse);
        },
        Some(v) => v,
    };
    let first_value = match parse_decimal(info.substring_char(e2 + 1, e3)) {
        None => {
            return Err(PuzzleError::MetadataParse);
        },
        Some(v) => v,
    };
    let lowest_value = match parse_decimal(info.substring_char(e3 + 2, e4)) {
        None => {
            return Err(PuzzleError::MetadataParse);
        },
        Some(v) => v,
    };
    if average < 1 {
        return Err(PuzzleError::MetadataParse);
    }
    if first_value < 1 || first_value > 26 {
        return Err(PuzzleError::MetadataParse);
    }
    if lowest_value < 1 || lowest_value > 26 {
        return Err(PuzzleError::MetadataParse);
    }
    let size = word_value / average;
    Ok(Info { word_value, average, first_value, lowest_value, size })
}

} // verus!
