use vstd::prelude::*;

use crate::error::PuzzleError;

verus! {

// The two fixed alphabets. The natural alphabet is the 26 lowercase letters,
// ordinal(a) = 1 .. ordinal(z) = 26. The cipher alphabet is the five symbols
// '.', '*', '<', '>', '-', with ordinals 1..5 assigned in declaration order.

/// Is `c` one of the five cipher symbols?
pub open spec fn is_cipher_symbol(c: char) -> bool {
    c == '.' || c == '*' || c == '<' || c == '>' || c == '-'
}

/// One-based position of a cipher symbol in the cipher alphabet
/// (0 for a character outside it).
pub open spec fn cipher_ordinal_spec(c: char) -> int {
    if c == '.' {
        1
    } else if c == '*' {
        2
    } else if c == '<' {
        3
    } else if c == '>' {
        4
    } else if c == '-' {
        5
    } else {
        0
    }
}

/// Is `c` a lowercase letter of the natural alphabet?
pub open spec fn is_letter(c: char) -> bool {
    'a' <= c && c <= 'z'
}

/// One-based position of a lowercase letter in the natural alphabet;
/// meaningful only when `is_letter(c)` holds.
pub open spec fn letter_ordinal_spec(c: char) -> int {
    c as int - 96
}

/// Is `c` a decimal digit?
pub open spec fn is_digit_char(c: char) -> bool {
    '0' <= c && c <= '9'
}

/// Numeric value of a decimal digit; meaningful only when `is_digit_char(c)`.
pub open spec fn digit_value_spec(c: char) -> int {
    c as int - 48
}

/// Is `c` one of the whitespace characters the tokenizer accepts between a
/// symbol run and its metadata block?
pub open spec fn is_space_char(c: char) -> bool {
    c == ' ' || c == '\t' || c == '\n' || c == '\r'
}

/// Cipher-alphabet lookup: the ordinal of a cipher symbol, `None` outside
/// the table.
pub fn cipher_ordinal(c: char) -> (r: Option<usize>)
    ensures
        match r {
            Some(v) => is_cipher_symbol(c) && v == cipher_ordinal_spec(c),
            None => !is_cipher_symbol(c),
        },
{
    if c == '.' {
        Some(1)
    } else if c == '*' {
        Some(2)
    } else if c == '<' {
        Some(3)
    } else if c == '>' {
        Some(4)
    } else if c == '-' {
        Some(5)
    } else {
        None
    }
}

/// Natural-alphabet lookup: the ordinal of a lowercase letter, `None`
/// outside the table.
pub fn letter_ordinal(c: char) -> (r: Option<usize>)
    ensures
        match r {
            Some(v) => is_letter(c) && v == letter_ordinal_spec(c),
            None => !is_letter(c),
        },
{
    let n = c as u32;
    if 97 <= n && n <= 122 {
        Some((n - 96) as usize)
    } else {
        None
    }
}

/// Maps a run of cipher symbols to their cipher ordinals, left to right.
/// A character outside the cipher alphabet is an unknown-symbol error.
pub fn map_encoded(encoded: &str) -> (r: Result<Vec<usize>, PuzzleError>)
    ensures
        match r {
            Ok(v) => {
                &&& forall|k: int| 0 <= k < encoded@.len() ==> is_cipher_symbol(encoded@[k])
                &&& v@.len() == encoded@.len()
                &&& forall|k: int|
                    0 <= k < encoded@.len() ==> v@[k] == cipher_ordinal_spec(encoded@[k])
            },
            Err(e) => {
                &&& e == PuzzleError::UnknownSymbol
                &&& exists|k: int| 0 <= k < encoded@.len() && !is_cipher_symbol(encoded@[k])
            },
        },
{
    let n = encoded.unicode_len();
    let mut out: Vec<usize> = Vec::new();
    let mut i: usize = 0;
    while i < n
        invariant
            0 <= i <= n,
            n == encoded@.len(),
            out@.len() == i,
            forall|k: int| 0 <= k < i ==> is_cipher_symbol(encoded@[k]),
            forall|k: int| 0 <= k < i ==> out@[k] == cipher_ordinal_spec(encoded@[k]),
        decreases n - i,
    {
        let c = encoded.get_char(i);
        match cipher_ordinal(c) {
            Some(v) => out.push(v),
            None => {
                return Err(PuzzleError::UnknownSymbol);
            },
        }
        i = i + 1;
    }
    Ok(out)
}

} // verus!
