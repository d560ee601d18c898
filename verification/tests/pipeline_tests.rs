use cipher_puzzle::error::PuzzleError;
use cipher_puzzle::pipeline::{process_puzzle, render_output};
use cipher_puzzle::tokenize::find_segments;

const PUZZLE: &str = "<<<**.>..>>**. [33x11x020][5].*>**<**-.<..><>. [41x13x011][5]<>..<**-<> [28x9x08][1]><>...-<<*..>-**>*. [49x16x014][14]..*.*.**-*>... [26x6x02][2]*<..**...<>>.>.<*>*>*>><. [60x12x06][4]";

fn dictionary(words: &[&str]) -> Vec<String> {
    words.iter().map(|w| String::from(*w)).collect()
}

#[test]
fn tokenizer_finds_all_six_segments() {
    let segments = find_segments(PUZZLE);
    assert_eq!(segments.len(), 6);
    assert_eq!(segments[0].encoded, "<<<**.>..>>**.");
    assert_eq!(segments[0].separator, ' ');
    assert_eq!(segments[0].metadata, "[33x11x020][5]");
    assert_eq!(segments[2].encoded, "<>..<**-<>");
    assert_eq!(segments[2].metadata, "[28x9x08][1]");
    assert_eq!(segments[5].encoded, "*<..**...<>>.>.<*>*>*>><.");
    assert_eq!(segments[5].metadata, "[60x12x06][4]");
}

#[test]
fn tokenizer_scans_left_to_right_past_failed_starts() {
    // The first two symbol runs have no metadata after them; only the run
    // just before the block is matched.
    let segments = find_segments(".. . [3x1x1][1]");
    assert_eq!(segments.len(), 1);
    assert_eq!(segments[0].encoded, ".");
    assert_eq!(segments[0].metadata, "[3x1x1][1]");
}

#[test]
fn scanning_resumes_right_after_a_match() {
    let segments = find_segments("<. [1x1x1][1]. [2x1x2][2]");
    assert_eq!(segments.len(), 2);
    assert_eq!(segments[0].encoded, "<.");
    assert_eq!(segments[0].metadata, "[1x1x1][1]");
    assert_eq!(segments[1].encoded, ".");
    assert_eq!(segments[1].metadata, "[2x1x2][2]");
}

#[test]
fn text_without_a_pattern_has_no_segments() {
    assert_eq!(find_segments("no segment stands here").len(), 0);
    assert_eq!(find_segments("").len(), 0);
    // A symbol run without whitespace before the block does not match.
    assert_eq!(find_segments("<<[3x1x1][1]").len(), 0);
}

#[test]
fn end_to_end_canonical_puzzle() {
    // "the": t=20, h=8, e=5; sum 33, average 11, all ordinals at least 5,
    // second-letter bound 4 holds, 'e' is the lowest letter: it matches the
    // first segment and no other.
    let dict = dictionary(&["the", "dime", "cat", ""]);
    let groups = process_puzzle(PUZZLE, &dict).unwrap();
    assert_eq!(groups.len(), 6);
    assert_eq!(groups[0], vec![String::from("the")]);
    for k in 1..6 {
        assert!(groups[k].is_empty());
    }
    let out = render_output(&groups);
    let expected = "the\n----------------\n\n----------------\n\n----------------\n\n----------------\n\n----------------\n\n----------------\n";
    assert_eq!(out, expected);
}

#[test]
fn empty_text_renders_nothing() {
    let dict = dictionary(&["the"]);
    let groups = process_puzzle("", &dict).unwrap();
    assert_eq!(groups.len(), 0);
    assert_eq!(render_output(&groups), "");
}

#[test]
fn render_joins_words_within_a_block() {
    let groups = vec![dictionary(&["ab", "cd"]), dictionary(&[])];
    assert_eq!(
        render_output(&groups),
        "ab\ncd\n----------------\n\n----------------\n"
    );
}

#[test]
fn tab_separator_is_a_tokenization_error() {
    let dict = dictionary(&["the"]);
    let segments = find_segments("<.\t[4x2x1][1]");
    assert_eq!(segments.len(), 1);
    assert_eq!(segments[0].separator, '\t');
    assert_eq!(
        process_puzzle("<.\t[4x2x1][1]", &dict),
        Err(PuzzleError::Tokenization)
    );
}

#[test]
fn bad_metadata_is_a_parse_error() {
    let dict = dictionary(&["the"]);
    assert_eq!(
        process_puzzle("<. [1x0x1][1]", &dict),
        Err(PuzzleError::MetadataParse)
    );
}

#[test]
fn first_faulty_segment_decides_the_error() {
    let dict = dictionary(&["the"]);
    // Metadata fault first, separator fault second.
    assert_eq!(
        process_puzzle("<. [1x0x1][1]>.\t[1x1x1][1]", &dict),
        Err(PuzzleError::MetadataParse)
    );
    // Separator fault first, metadata fault second.
    assert_eq!(
        process_puzzle("<.\t[1x1x1][1]>. [1x0x1][1]", &dict),
        Err(PuzzleError::Tokenization)
    );
}

#[test]
fn faultless_segments_with_no_matches_are_empty_blocks() {
    let dict = dictionary(&["zzz"]);
    let groups = process_puzzle("<. [4x2x1][1]", &dict).unwrap();
    assert_eq!(groups.len(), 1);
    assert!(groups[0].is_empty());
}
