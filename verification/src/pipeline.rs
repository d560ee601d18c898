use vstd::prelude::*;

use crate::alphabet::{cipher_ordinal_spec, map_encoded};
use crate::decode::{decode_info, decode_ok, info_of_meta};
use crate::engine::{get_min_second_value, match_words, matching_words, min_second_spec};
use crate::error::PuzzleError;
use crate::grammar::{lemma_match_at, lemma_segments_from_matches, match_at, segments_of};
use crate::tokenize::find_segments;

verus! {

/// The characters of a segment's encoded symbol run, by its bounds.
pub open spec fn seg_encoded(s: Seq<char>, b: (int, int, int)) -> Seq<char> {
    s.subrange(b.0, b.1)
}

/// The characters of a segment's metadata block, by its bounds.
pub open spec fn seg_meta(s: Seq<char>, b: (int, int, int)) -> Seq<char> {
    s.subrange(b.1 + 1, b.2)
}

/// What one segment contributes: its matched word list, or the first fault
/// it runs into — a separator that is not a space, then a metadata block
/// that does not decode.
pub open spec fn segment_result(s: Seq<char>, b: (int, int, int), dict: Seq<String>) -> Result<
    Seq<String>,
    PuzzleError,
> {
    if s[b.1] != ' ' {
        Err(PuzzleError::Tokenization)
    } else if !decode_ok(seg_meta(s, b)) {
        Err(PuzzleError::MetadataParse)
    } else {
        let rec = info_of_meta(seg_meta(s, b));
        let msv = min_second_spec(
            seg_encoded(s, b).map_values(|c: char| cipher_ordinal_spec(c)),
            rec.first_value as int,
        );
        Ok(matching_words(rec, msv, dict))
    }
}

/// Folds `segment_result` over a list of segment bounds, left to right,
/// stopping at the first fault.
pub open spec fn process_from(s: Seq<char>, dict: Seq<String>, bs: Seq<(int, int, int)>) -> Result<
    Seq<Seq<String>>,
    PuzzleError,
>
    decreases bs.len(),
{
    if bs.len() == 0 {
        Ok(Seq::empty())
    } else {
        match segment_result(s, bs[0], dict) {
            Ok(g) => match process_from(s, dict, bs.drop_first()) {
                Ok(rest) => Ok(seq![g] + rest),
                Err(e) => Err(e),
            },
            Err(e) => Err(e),
        }
    }
}

/// The whole run over one puzzle text and one dictionary: one matched word
/// list per segment, in text order, or the first fault met.
pub open spec fn process_spec(s: Seq<char>, dict: Seq<String>) -> Result<
    Seq<Seq<String>>,
    PuzzleError,
> {
    process_from(s, dict, segments_of(s))
}

/// Runs the whole pipeline: tokenizes the puzzle text, decodes each
/// segment's metadata, and filters the dictionary for each segment in
/// text order. The first fault aborts the run with its error.
pub fn process_puzzle(text: &str, dictionary: &Vec<String>) -> (r: Result<
    Vec<Vec<String>>,
    PuzzleError,
>)
    ensures
        match r {
            Ok(groups) => process_spec(text@, dictionary@) == Ok::<_, PuzzleError>(
                groups@.map_values(|g: Vec<String>| g@),
            ),
            Err(e) => process_spec(text@, dictionary@) == Err::<Seq<Seq<String>>, _>(e),
        },
{
    let ghost s = text@;
    let ghost dict = dictionary@;
    let ghost bs = segments_of(s);
    proof {
        lemma_segments_from_matches(s, 0);
    }
    let segs = find_segments(text);
    let mut groups: Vec<Vec<String>> = Vec::new();
    let mut k: usize = 0;
    proof {
        assert(bs.skip(0) =~= bs);
        assert(groups@.map_values(|g: Vec<String>| g@) =~= Seq::<Seq<String>>::empty());
        if process_from(s, dict, bs) is Ok {
            assert(Seq::<Seq<String>>::empty() + process_from(s, dict, bs)->Ok_0 =~= process_from(
                s,
                dict,
                bs,
            )->Ok_0);
        }
    }
    while k < segs.len()
        invariant
            0 <= k <= segs@.len(),
            s == text@,
            dict == dictionary@,
            bs == segments_of(s),
            segs@.len() == bs.len(),
            groups@.len() == k,
            forall|t: int|
                0 <= t < bs.len() ==> {
                    &&& (#[trigger] segs@[t]).encoded@ == s.subrange(bs[t].0, bs[t].1)
                    &&& segs@[t].separator == s[bs[t].1]
                    &&& segs@[t].metadata@ == s.subrange(bs[t].1 + 1, bs[t].2)
                },
            forall|t: int|
                0 <= t < bs.len() ==> match_at(s, (#[trigger] bs[t]).0) == Some((bs[t].1, bs[t].2)),
            process_from(s, dict, bs) == (match process_from(s, dict, bs.skip(k as int)) {
                Ok(rest) => Ok::<_, PuzzleError>(groups@.map_values(|g: Vec<String>| g@) + rest),
                Err(e) => Err::<Seq<Seq<String>>, _>(e),
            }),
        decreases segs@.len() - k,
    {
        let ghost b = bs[k as int];
        let ghost tail = bs.skip(k as int);
        proof {
            assert(tail[0] == b);
            assert(tail.drop_first() =~= bs.skip(k as int + 1));
        }
        let seg = &segs[k];
        if seg.separator != ' ' {
            proof {
                assert(segment_result(s, b, dict) == Err::<Seq<String>, _>(
                    PuzzleError::Tokenization,
                ));
            }
            return Err(PuzzleError::Tokenization);
        }
        let rec = match decode_info(seg.metadata) {
            Err(e) => {
                proof {
                    assert(segment_result(s, b, dict) == Err::<Seq<String>, _>(
                        PuzzleError::MetadataParse,
                    ));
                }
                return Err(e);
            },
            Ok(rec) => rec,
        };
        let ords = match map_encoded(seg.encoded) {
            Err(e) => {
                // unreachable: the tokenizer admits only cipher symbols in
                // the encoded run
                proof {
                    lemma_match_at(s, b.0);
                    assert(false);
                }
                return Err(e);
            },
            Ok(ords) => ords,
        };
        proof {
            lemma_match_at(s, b.0);
            assert forall|t: int| 0 <= t < ords@.len() implies 1 <= #[trigger] ords@[t] <= 5 by {
                assert(crate::alphabet::is_cipher_symbol(seg.encoded@[t]));
            }
        }
        let msv = get_min_second_value(ords, rec.first_value);
        proof {
            assert(ords@.map_values(|v: usize| v as int) =~= seg_encoded(s, b).map_values(
                |c: char| cipher_ordinal_spec(c),
            ));
        }
        let group = match_words(rec, msv, dictionary);
        proof {
            assert(segment_result(s, b, dict) == Ok::<_, PuzzleError>(group@));
        }
        let ghost old_view = groups@.map_values(|g: Vec<String>| g@);
        groups.push(group);
        proof {
            assert(groups@.map_values(|g: Vec<String>| g@) =~= old_view.push(group@));
            match process_from(s, dict, bs.skip(k as int + 1)) {
                Ok(rest) => {
                    assert(process_from(s, dict, tail) == Ok::<_, PuzzleError>(
                        seq![group@] + rest,
                    ));
                    assert(old_view + (seq![group@] + rest) =~= old_view.push(group@) + rest);
                },
                Err(e) => {
                    assert(process_from(s, dict, tail) == Err::<Seq<Seq<String>>, _>(e));
                },
            }
        }
        k = k + 1;
    }
    proof {
        assert(bs.skip(k as int) =~= Seq::<(int, int, int)>::empty());
        assert(process_from(s, dict, bs.skip(k as int)) == Ok::<_, PuzzleError>(
            Seq::<Seq<String>>::empty(),
        ));
        assert(groups@.map_values(|g: Vec<String>| g@) + Seq::<Seq<String>>::empty()
            =~= groups@.map_values(|g: Vec<String>| g@));
    }
    Ok(groups)
}

/// A segment's matched words joined by newlines.
pub open spec fn join_group(g: Seq<String>) -> Seq<char>
    decreases g.len(),
{
    if g.len() == 0 {
        Seq::empty()
    } else if g.len() == 1 {
        g[0]@
    } else {
        join_group(g.drop_last()) + seq!['\n'] + g.last()@
    }
}

/// The whole output: each segment's joined word block followed by the
/// literal separator line, in segment order.
pub open spec fn render_spec(gs: Seq<Seq<String>>) -> Seq<char>
    decreases gs.len(),
{
    if gs.len() == 0 {
        Seq::empty()
    } else {
        render_spec(gs.drop_last()) + join_group(gs.last()) + "\n----------------\n"@
    }
}

/// Renders the grouped matches: per segment the words joined by newlines,
/// each block closed by the literal separator line.
pub fn render_output(groups: &Vec<Vec<String>>) -> (r: String)
    ensures
        r@ == render_spec(groups@.map_values(|g: Vec<String>| g@)),
{
    let ghost gs = groups@.map_values(|g: Vec<String>| g@);
    let mut out = String::new();
    let mut i: usize = 0;
    proof {
        assert(gs.subrange(0, 0) =~= Seq::<Seq<String>>::empty());
    }
    while i < groups.len()
        invariant
            0 <= i <= groups@.len(),
            gs == groups@.map_values(|g: Vec<String>| g@),
            gs.len() == groups@.len(),
            out@ == render_spec(gs.subrange(0, i as int)),
        decreases groups@.len() - i,
    {
        let g = &groups[i];
        let mut j: usize = 0;
        while j < g.len()
            invariant
                0 <= j <= g@.len(),
                g@ == groups@[i as int]@,
                0 <= i < groups@.len(),
                gs == groups@.map_values(|h: Vec<String>| h@),
                gs.len() == groups@.len(),
                out@ == render_spec(gs.subrange(0, i as int)) + join_group(g@.subrange(0, j as int)),
            decreases g@.len() - j,
        {
            if j > 0 {
                out.append("\n");
            }
            out.append(g[j].as_str());
            proof {
                let sub = g@.subrange(0, j as int + 1);
                assert(sub.drop_last() =~= g@.subrange(0, j as int));
                assert(sub.last() == g@[j as int]);
                if j == 0 {
                    assert(join_group(sub) == g@[0]@);
                    assert(out@ =~= render_spec(gs.subrange(0, i as int)) + join_group(sub));
                } else {
                    reveal_strlit("\n");
                    assert("\n"@ =~= seq!['\n']);
                    assert(join_group(sub) == join_group(g@.subrange(0, j as int)) + seq!['\n']
                        + g@[j as int]@);
                    assert(out@ =~= render_spec(gs.subrange(0, i as int)) + join_group(sub));
                }
            }
            j = j + 1;
        }
        out.append("\n----------------\n");
        proof {
            let sub = gs.subrange(0, i as int + 1);
            assert(sub.drop_last() =~= gs.subrange(0, i as int));
            assert(sub.last() == gs[i as int]);
            assert(g@.subrange(0, g@.len() as int) =~= g@);
            assert(gs[i as int] == g@);
            assert(out@ =~= render_spec(sub));
        }
        i = i + 1;
    }
    proof {
        assert(gs.subrange(0, gs.len() as int) =~= gs);
    }
    out
}

} // verus!
