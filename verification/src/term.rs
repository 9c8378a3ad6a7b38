//! The records the codec carries.

use vstd::prelude::*;

verus! {

/// One posting of an index term: the document, the fields it occurs in (one
/// bit per field) and how often it occurs.
#[derive(Debug, Clone, Copy, PartialEq, Eq, Structural)]
pub struct FullTerm {
    pub doc_id: u64,
    pub field_mask: u128,
    pub frequency: u64,
}

/// An ordered run of terms that is encoded and decoded as one unit. The order
/// is part of the value.
#[derive(Debug, PartialEq, Eq)]
pub struct Block {
    pub full_terms: Vec<FullTerm>,
}

impl Clone for Block {
    /// A copy with the same terms in the same order.
    fn clone(&self) -> (copy: Self)
        ensures
            copy@ == self@,
    {
        Block { full_terms: self.full_terms.clone() }
    }
}

impl View for Block {
    type V = Seq<FullTerm>;

    /// A block is the sequence of its terms.
    open spec fn view(&self) -> Seq<FullTerm> {
        self.full_terms@
    }
}

/// The 128-bit number with the given high and low 64-bit words.
pub open spec fn join_words(high: u64, low: u64) -> u128 {
    (high as u128 * 0x1_0000_0000_0000_0000 + low as u128) as u128
}

/// Joins two 64-bit words into a field mask. Formats without a 128-bit
/// integer carry a mask as such a pair.
pub fn join_mask(high: u64, low: u64) -> (mask: u128)
    ensures
        mask == join_words(high, low),
        mask == high * 0x1_0000_0000_0000_0000 + low,
{
    let high = high as u128;
    let low = low as u128;
    assert((high << 64) | low == high * 0x1_0000_0000_0000_0000 + low) by (bit_vector)
        requires
            high <= 0xffff_ffff_ffff_ffff,
            low <= 0xffff_ffff_ffff_ffff,
    ;
    (high << 64) | low
}

/// Splits a field mask into its high and its low 64-bit word, in this order.
/// `join_mask` puts them together again.
pub fn split_mask(mask: u128) -> (words: (u64, u64))
    ensures
        words.0 == mask / 0x1_0000_0000_0000_0000,
        words.1 == mask % 0x1_0000_0000_0000_0000,
        join_words(words.0, words.1) == mask,
{
    assert(mask >> 64 == mask / 0x1_0000_0000_0000_0000) by (bit_vector);
    assert(mask >> 64 <= 0xffff_ffff_ffff_ffff) by (bit_vector);
    assert(mask & 0xffff_ffff_ffff_ffff == mask % 0x1_0000_0000_0000_0000) by (bit_vector);
    let high = (mask >> 64) as u64;
    let low = (mask & 0xffff_ffff_ffff_ffff) as u64;
    (high, low)
}

/// Two pairs of words that join to the same mask are the same pair.
pub proof fn lemma_join_words_injective(high: u64, low: u64, other_high: u64, other_low: u64)
    requires
        join_words(high, low) == join_words(other_high, other_low),
    ensures
        high == other_high,
        low == other_low,
{
}

} // verus!
