use vstd::prelude::*;

use crate::grammar::{
    lemma_symbol_run_end, match_at, scan_meta_end, scan_symbol_run, segments_from, segments_of,
};

verus! {

/// One puzzle segment as it stands in the text: the run of cipher symbols,
/// the single whitespace character after it, and the metadata block.
pub struct Segment<'a> {
    pub encoded: &'a str,
    pub separator: char,
    pub metadata: &'a str,
}

/// A segment match attempt at one position, mirroring `match_at`.
fn try_match_at<'a>(text: &'a str, i: usize) -> (r: Option<(usize, usize)>)
    requires
        i < text@.len(),
    ensures
        match r {
            Some((j, e)) => match_at(text@, i as int) == Some((j as int, e as int)) && i < j < e
                <= text@.len(),
            None => match_at(text@, i as int) is None,
        },
{
    let c = text.get_char(i);
    if !(c == '.' || c == '*' || c == '<' || c == '>' || c == '-') {
        return None;
    }
    let j = scan_symbol_run(text, i);
    proof {
        lemma_symbol_run_end(text@, i as int + 1);
    }
    if !(j < text.unicode_len()) {
        return None;
    }
    let sep = text.get_char(j);
    if !(sep == ' ' || sep == '\t' || sep == '\n' || sep == '\r') {
        return None;
    }
    match scan_meta_end(text, j + 1) {
        None => None,
        Some(e) => Some((j, e)),
    }
}

/// Locates every non-overlapping segment match of the puzzle text, left to
/// right, and splits each at its whitespace separator into the encoded
/// symbol run and the metadata block. No match is an empty sequence, not
/// an error.
pub fn find_segments<'a>(text: &'a str) -> (r: Vec<Segment<'a>>)
    ensures
        ({
            let bs = segments_of(text@);
            &&& r@.len() == bs.len()
            &&& forall|k: int|
                0 <= k < bs.len() ==> {
                    &&& (#[trigger] r@[k]).encoded@ == text@.subrange(bs[k].0, bs[k].1)
                    &&& r@[k].separator == text@[bs[k].1]
                    &&& r@[k].metadata@ == text@.subrange(bs[k].1 + 1, bs[k].2)
                }
        }),
{
    let ghost bs = segments_of(text@);
    let n = text.unicode_len();
    let mut out: Vec<Segment<'a>> = Vec::new();
    let mut i: usize = 0;
    while i < n
        invariant
            0 <= i <= n,
            n == text@.len(),
            bs == segments_of(text@),
            out@.len() <= bs.len(),
            segments_from(text@, i as int) == bs.skip(out@.len() as int),
            forall|k: int|
                0 <= k < out@.len() ==> {
                    &&& (#[trigger] out@[k]).encoded@ == text@.subrange(bs[k].0, bs[k].1)
                    &&& out@[k].separator == text@[bs[k].1]
                    &&& out@[k].metadata@ == text@.subrange(bs[k].1 + 1, bs[k].2)
                },
        decreases n - i,
    {
        match try_match_at(text, i) {
            Some((j, e)) => {
                let ghost len0 = out@.len() as int;
                proof {
                    assert(segments_from(text@, i as int) == seq![
                        (i as int, j as int, e as int),
                    ] + segments_from(text@, e as int));
                    assert(bs.skip(len0)[0] == (i as int, j as int, e as int));
                    assert(bs[len0] == (i as int, j as int, e as int));
                    assert(bs.skip(len0).drop_first() =~= bs.skip(len0 + 1));
                    assert(segments_from(text@, e as int) =~= bs.skip(len0 + 1));
                }
                let sep = text.get_char(j);
                let encoded = text.substring_char(i, j);
                let metadata = text.substring_char(j + 1, e);
                out.push(Segment { encoded, separator: sep, metadata });
                i = e;
            },
            None => {
                proof {
                    assert(segments_from(text@, i as int) == segments_from(text@, i as int + 1));
                }
                i = i + 1;
            },
        }
    }
    proof {
        assert(segments_from(text@, i as int) =~= Seq::<(int, int, int)>::empty());
        assert(bs.skip(out@.len() as int).len() == 0);
    }
    out
}

} // verus!
