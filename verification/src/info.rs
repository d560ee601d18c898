use vstd::prelude::*;

verus! {

/// A constraint record decoded from one segment's metadata block.
#[derive(Clone, Copy, Debug, PartialEq, Eq, Structural)]
pub struct Info {
    /// The summed ordinal value of each letter in a matching word.
    pub word_value: usize,
    /// Target of `word_value / word length` under floor division.
    pub average: usize,
    /// Ordinal of the letter a matching word must start with.
    pub first_value: usize,
    /// Ordinal no letter of a matching word may fall below, and that at
    /// least one letter must equal exactly.
    pub lowest_value: usize,
    /// `word_value / average` under floor division: an approximation of the
    /// word length; both `size` and `size - 1` are accepted lengths.
    pub size: usize,
}

impl Info {
    /// Well-formedness: the division defining `size` is defined and agrees
    /// with the stored field, and both letter ordinals lie in the natural
    /// alphabet's table.
    pub open spec fn wf(self) -> bool {
        &&& self.average >= 1
        &&& 1 <= self.first_value <= 26
        &&& 1 <= self.lowest_value <= 26
        &&& self.size == self.word_value as int / self.average as int
    }
}

} // verus!
