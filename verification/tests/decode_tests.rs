use cipher_puzzle::alphabet::{cipher_ordinal, letter_ordinal, map_encoded};
use cipher_puzzle::decode::{decode_info, parse_decimal};
use cipher_puzzle::error::PuzzleError;
use cipher_puzzle::info::Info;
use cipher_puzzle::strutil::substring_no_end;

#[test]
fn decodes_a_canonical_block() {
    let info = decode_info("[31x7x04][4]").unwrap();
    assert_eq!(
        info,
        Info { word_value: 31, average: 7, first_value: 4, lowest_value: 4, size: 4 }
    );
}

#[test]
fn leading_zero_digits_are_plain_decimal() {
    let info = decode_info("[33x11x020][5]").unwrap();
    assert_eq!(info.word_value, 33);
    assert_eq!(info.average, 11);
    assert_eq!(info.first_value, 20);
    assert_eq!(info.lowest_value, 5);
    assert_eq!(info.size, 3);
}

#[test]
fn malformed_blocks_are_metadata_errors() {
    // Missing opening bracket.
    assert_eq!(decode_info("31x7x04][4]"), Err(PuzzleError::MetadataParse));
    // Missing second group.
    assert_eq!(decode_info("[31x7x04]"), Err(PuzzleError::MetadataParse));
    // Two fields instead of three.
    assert_eq!(decode_info("[31x7][4]"), Err(PuzzleError::MetadataParse));
    // Four fields instead of three.
    assert_eq!(decode_info("[31x7x04x9][4]"), Err(PuzzleError::MetadataParse));
    // Empty field.
    assert_eq!(decode_info("[31xx04][4]"), Err(PuzzleError::MetadataParse));
    // Trailing text after the second group.
    assert_eq!(decode_info("[31x7x04][4]z"), Err(PuzzleError::MetadataParse));
    // Non-numeric field.
    assert_eq!(decode_info("[31x7x0a][4]"), Err(PuzzleError::MetadataParse));
    // Empty string.
    assert_eq!(decode_info(""), Err(PuzzleError::MetadataParse));
}

#[test]
fn out_of_range_fields_are_metadata_errors() {
    // Zero average: the division defining size is undefined.
    assert_eq!(decode_info("[31x0x04][4]"), Err(PuzzleError::MetadataParse));
    // First-letter and lowest-letter ordinals outside 1..=26.
    assert_eq!(decode_info("[31x7x0][4]"), Err(PuzzleError::MetadataParse));
    assert_eq!(decode_info("[31x7x27][4]"), Err(PuzzleError::MetadataParse));
    assert_eq!(decode_info("[31x7x04][0]"), Err(PuzzleError::MetadataParse));
    assert_eq!(decode_info("[31x7x04][27]"), Err(PuzzleError::MetadataParse));
    // A field too large for the machine word.
    assert_eq!(
        decode_info("[99999999999999999999999x7x04][4]"),
        Err(PuzzleError::MetadataParse)
    );
}

#[test]
fn zero_word_value_is_accepted() {
    let info = decode_info("[0x5x01][1]").unwrap();
    assert_eq!(info.size, 0);
}

#[test]
fn parse_decimal_reads_plain_literals() {
    assert_eq!(parse_decimal("007"), Some(7));
    assert_eq!(parse_decimal("0"), Some(0));
    assert_eq!(parse_decimal("18446744073709551615"), Some(usize::MAX));
    assert_eq!(parse_decimal("18446744073709551616"), None);
}

#[test]
fn map_encoded_maps_each_symbol() {
    assert_eq!(map_encoded(".*<>-"), Ok(vec![1, 2, 3, 4, 5]));
    assert_eq!(map_encoded(""), Ok(vec![]));
    assert_eq!(map_encoded(".a"), Err(PuzzleError::UnknownSymbol));
}

#[test]
fn ordinal_lookups_match_their_tables() {
    assert_eq!(cipher_ordinal('.'), Some(1));
    assert_eq!(cipher_ordinal('-'), Some(5));
    assert_eq!(cipher_ordinal('a'), None);
    assert_eq!(letter_ordinal('a'), Some(1));
    assert_eq!(letter_ordinal('m'), Some(13));
    assert_eq!(letter_ordinal('z'), Some(26));
    assert_eq!(letter_ordinal('['), None);
}

#[test]
fn substring_no_end_drops_a_prefix() {
    assert_eq!(substring_no_end("abc", 1), "bc");
    assert_eq!(substring_no_end("abc", 0), "abc");
    assert_eq!(substring_no_end("abc", 3), "");
    assert_eq!(substring_no_end("abc", 7), "");
    assert_eq!(substring_no_end("[33", 1), "33");
}

#[test]
fn error_messages_name_each_fault() {
    assert_eq!(
        PuzzleError::Tokenization.message(),
        "received an invalidly formatted input chunk"
    );
    assert_eq!(
        PuzzleError::MetadataParse.message(),
        "received an invalidly formatted metadata block"
    );
    assert_eq!(
        PuzzleError::UnknownSymbol.message(),
        "looked up a character outside its alphabet"
    );
}
