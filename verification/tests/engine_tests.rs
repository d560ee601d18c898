use cipher_puzzle::decode::decode_info;
use cipher_puzzle::engine::{get_min_second_value, is_equivalent, match_words, word_matches};
use cipher_puzzle::info::Info;

fn record(word_value: usize, average: usize, first_value: usize, lowest_value: usize) -> Info {
    Info { word_value, average, first_value, lowest_value, size: word_value / average }
}

#[test]
fn size_derivation_and_accepted_lengths() {
    // size = 33 / 11 = 3; lengths 3 and 2 pass the length filter.
    let info = decode_info("[33x11x05][5]").unwrap();
    assert_eq!(info.size, 3);
    // "enn": e=5, n=14, n=14; sum 33, length 3 == size.
    assert!(word_matches(info, 1, "enn"));
    // A length of size + 1 is rejected whatever the letters.
    assert!(!word_matches(info, 1, "enna"));
}

#[test]
fn length_one_below_size_is_accepted() {
    // "caef": c=3, a=1, e=5, f=6; sum 15, average 15/4 = 3, size 15/3 = 5,
    // so the word's length 4 is size - 1 and passes.
    let info = decode_info("[15x3x03][1]").unwrap();
    assert_eq!(info.size, 5);
    assert!(word_matches(info, 1, "caef"));
}

#[test]
fn dime_is_accepted_by_its_own_record() {
    // d=4, i=9, m=13, e=5: sum 31, length 4, average 7 (floor).
    let info = record(31, 7, 4, 4);
    assert_eq!(info.size, 4);
    assert!(word_matches(info, 1, "dime"));
}

#[test]
fn changed_word_value_rejects_dime() {
    // Only word_value differs; the value-equivalence filter must fail.
    let info = record(32, 7, 4, 4);
    assert!(!word_matches(info, 1, "dime"));
}

#[test]
fn minimum_letter_filter_rejects_dime() {
    // lowest_value = ordinal('m') = 13; 'd', 'i', 'e' fall below it.
    let info = record(31, 7, 4, 13);
    assert!(!word_matches(info, 1, "dime"));
}

#[test]
fn lowest_letter_must_be_used() {
    // "mine": m=13, i=9, n=14, e=5; sum 41, average 10, size 4; every
    // numeric and range filter passes with lowest_value 4, but no letter
    // has ordinal 4, so the word is excluded ...
    let info = record(41, 10, 13, 4);
    assert!(!word_matches(info, 1, "mine"));
    // ... and with lowest_value 5 the same word contains 'e' and passes.
    let info5 = record(41, 10, 13, 5);
    assert!(word_matches(info5, 1, "mine"));
}

#[test]
fn second_letter_bound_rejects_low_second_letter() {
    // "mind": m=13, i=9, n=14, d=4; sum 40, average 10, size 4.
    let info = record(40, 10, 13, 4);
    assert!(word_matches(info, 9, "mind"));
    // A bound above ordinal('i') = 9 rejects it.
    assert!(!word_matches(info, 10, "mind"));
}

#[test]
fn min_second_value_counter_trace() {
    // first_value 6 over [5, 5, 1, 2]: counter 6, 1, -4; the ordinal met
    // once the counter is below 1 is the third, 1.
    assert_eq!(get_min_second_value(vec![5, 5, 1, 2], 6), 1);
    // Same trace with a distinct third ordinal.
    assert_eq!(get_min_second_value(vec![5, 5, 4, 2], 6), 4);
}

#[test]
fn min_second_value_defaults_to_one() {
    // The counter never drops below 1 before the sequence ends.
    assert_eq!(get_min_second_value(vec![1, 2], 26), 1);
    // It also defaults when the drop happens only on the last ordinal.
    assert_eq!(get_min_second_value(vec![3], 2), 1);
    assert_eq!(get_min_second_value(vec![], 1), 1);
}

#[test]
fn is_equivalent_checks_sum_and_floor_average() {
    let chars = vec!['d', 'i', 'm', 'e'];
    assert!(is_equivalent(record(31, 7, 4, 4), chars.clone(), 4));
    assert!(!is_equivalent(record(32, 7, 4, 4), chars.clone(), 4));
    assert!(!is_equivalent(record(31, 8, 4, 4), chars, 4));
}

#[test]
fn match_words_keeps_dictionary_order_and_duplicates() {
    let dictionary = vec![
        String::from("mind"),
        String::from("mine"),
        String::from("mind"),
    ];
    let info = record(40, 10, 13, 4);
    let found = match_words(info, 1, &dictionary);
    assert_eq!(found, vec![String::from("mind"), String::from("mind")]);
}

#[test]
fn empty_word_never_matches() {
    // A zero-length candidate fails the first-letter filter even when the
    // record's size would admit its length.
    let info = record(0, 5, 1, 1);
    assert_eq!(info.size, 0);
    assert!(!word_matches(info, 1, ""));
}
