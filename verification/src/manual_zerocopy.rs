//! Encoding, eager decoding and zero-copy reading by offset.
//!
//! The reader keeps the whole buffer and a record count; an iterator walks
//! the buffer by offset and hands out one `TermReader` per record. A
//! `TermReader` reads a field only when asked, so a caller can test
//! `field_mask()` on every record and call `deserialize()` on the matches
//! alone.
//!
//! The buffer is checked once, when a reader is made. Every type below
//! carries what that check established as its invariant, which is why none of
//! the accessors can fail.

use crate::layout::{block_bytes, decoded_terms, parse_block, record_at, term_at, terms_bytes};
use crate::layout::{declared_count, filtered_scan, matches_query, term_bytes, validate};
use crate::layout::{lemma_block_bytes_len, lemma_filtered_scan_is_filter};
use crate::layout::{DecodeError, HEADER_SIZE, TERM_SIZE};
use crate::le::{get_le, le_bytes, put_le};
use crate::term::{Block, FullTerm};
use vstd::prelude::*;

verus! {

/// The size of the encoding of `count` terms: `Some` exactly where it fits the machine.
fn encoded_size(count: usize) -> (size: Option<usize>)
    ensures
        4 + 32 * count <= usize::MAX ==> size == Some((4 + 32 * count) as usize),
        4 + 32 * count > usize::MAX ==> size is None,
{
    match count.checked_mul(TERM_SIZE) {
        Some(payload) => payload.checked_add(HEADER_SIZE),
        None => None,
    }
}

/// Encodes a block: the count as four little-endian bytes, then each term as
/// `doc_id`, `field_mask`, `frequency`, little-endian and without padding.
/// The header holds the four low-order bytes of the count, so the encoding
/// declares its own length for every block of at most `u32::MAX` terms.
pub fn serialize(block: &Block) -> (bytes: Vec<u8>)
    ensures
        bytes@ == block_bytes(block@),
        bytes@.len() == 4 + 32 * block@.len(),
{
    let num_terms = block.full_terms.len();
    let mut bytes: Vec<u8> = match encoded_size(num_terms) {
        Some(total_size) => Vec::with_capacity(total_size),
        None => Vec::new(),
    };

    put_le(&mut bytes, num_terms as u128, HEADER_SIZE);
    let ghost header = bytes@;

    for index in 0..num_terms
        invariant
            num_terms == block@.len(),
            bytes@ == header + terms_bytes(block@.take(index as int)),
    {
        let term = &block.full_terms[index];
        put_le(&mut bytes, term.doc_id as u128, 8);
        put_le(&mut bytes, term.field_mask, 16);
        put_le(&mut bytes, term.frequency as u128, 8);
        assert(block@.take(index + 1).drop_last() =~= block@.take(index as int));
    }

    proof {
        assert(block@.take(num_terms as int) =~= block@);
        lemma_block_bytes_len(block@);
    }
    bytes
}

/// Decodes a whole block into owned terms, in encoded order.
///
/// The buffer is validated first and nothing is produced unless it passes:
/// `HeaderTooSmall` when it has fewer than four bytes, `PayloadTooSmall` when
/// it is shorter than the `4 + 32 N` bytes that its header declares. Bytes
/// after the declared records are ignored.
pub fn deserialize(bytes: &[u8]) -> (result: Result<Block, DecodeError>)
    ensures
        match result {
            Ok(block) => parse_block(bytes@) == Ok::<Seq<FullTerm>, DecodeError>(block@),
            Err(error) => parse_block(bytes@) == Err::<Seq<FullTerm>, DecodeError>(error),
        },
{
    let num_terms = match validate(bytes) {
        Ok(count) => count,
        Err(error) => {
            return Err(error);
        },
    };

    let mut full_terms: Vec<FullTerm> = Vec::with_capacity(num_terms);
    let mut offset: usize = HEADER_SIZE;

    for index in 0..num_terms
        invariant
            4 + 32 * num_terms <= bytes.len(),
            offset == 4 + 32 * index,
            full_terms@ =~= Seq::new(index as nat, |k: int| term_at(bytes@, k)),
    {
        let doc_id = get_le(&bytes[offset..offset + 8]) as u64;
        offset += 8;

        let field_mask = get_le(&bytes[offset..offset + 16]);
        offset += 16;

        let frequency = get_le(&bytes[offset..offset + 8]) as u64;
        offset += 8;

        full_terms.push(FullTerm { doc_id, field_mask, frequency });
    }

    Ok(Block { full_terms })
}

/// A validated buffer and the number of records in it. It borrows the buffer
/// and owns nothing.
pub struct BlockReader<'a> {
    bytes: &'a [u8],
    num_terms: usize,
}

impl<'a> View for BlockReader<'a> {
    type V = Seq<FullTerm>;

    /// The terms that the buffer encodes, in order.
    closed spec fn view(&self) -> Seq<FullTerm> {
        decoded_terms(self.bytes@)
    }
}

impl<'a> BlockReader<'a> {
    /// The count is the one the header declares, and the buffer holds every
    /// record it declares.
    #[verifier::type_invariant]
    spec fn well_formed(self) -> bool {
        &&& self.num_terms == declared_count(self.bytes@)
        &&& 4 + 32 * self.num_terms <= self.bytes.len()
    }

    /// Opens a reader on `bytes` after the same validation as `deserialize`:
    /// it succeeds on exactly the buffers that decode, with the same terms,
    /// and fails with the same error on the others.
    pub fn new(bytes: &'a [u8]) -> (result: Result<Self, DecodeError>)
        ensures
            match result {
                Ok(reader) => parse_block(bytes@) == Ok::<Seq<FullTerm>, DecodeError>(reader@),
                Err(error) => parse_block(bytes@) == Err::<Seq<FullTerm>, DecodeError>(error),
            },
    {
        match validate(bytes) {
            Ok(num_terms) => Ok(BlockReader { bytes, num_terms }),
            Err(error) => Err(error),
        }
    }

    /// The number of records, as declared by the header.
    pub fn len(&self) -> (count: usize)
        ensures
            count == self@.len(),
    {
        proof {
            use_type_invariant(self);
        }
        self.num_terms
    }

    /// A fresh traversal of all the records, from the first.
    pub fn iter(&self) -> (terms: TermIterator<'a>)
        ensures
            terms@ == self@,
    {
        proof {
            use_type_invariant(self);
        }
        TermIterator { bytes: self.bytes, offset: HEADER_SIZE, remaining: self.num_terms }
    }

    /// The terms that occur in at least one field of `query_mask`, in encoded
    /// order: what filtering the decoded block would keep. One traversal
    /// tests the field mask of every record in place and reads in full only
    /// the records that pass.
    pub fn matching(&self, query_mask: u128) -> (matches: Vec<FullTerm>)
        ensures
            matches@ == filtered_scan(self@, query_mask),
            matches@ == self@.filter(|term: FullTerm| matches_query(term, query_mask)),
    {
        let mut matches: Vec<FullTerm> = Vec::new();
        let mut terms = self.iter();
        let ghost all = filtered_scan(self@, query_mask);
        loop
            invariant
                matches@ + filtered_scan(terms@, query_mask) == all,
            ensures
                matches@ == all,
            decreases terms@.len(),
        {
            match terms.next() {
                Some(term) => {
                    if term.field_mask() & query_mask != 0 {
                        matches.push(term.deserialize());
                    }
                },
                None => {
                    break ;
                },
            }
        }
        proof {
            lemma_filtered_scan_is_filter(self@, query_mask);
        }
        matches
    }
}

/// A traversal of the records of a block that reads nothing until asked.
pub struct TermIterator<'a> {
    bytes: &'a [u8],
    offset: usize,
    remaining: usize,
}

impl<'a> View for TermIterator<'a> {
    type V = Seq<FullTerm>;

    /// The terms still to come, next one first.
    closed spec fn view(&self) -> Seq<FullTerm> {
        Seq::new(self.remaining as nat, |k: int| record_at(self.bytes@, self.offset + 32 * k))
    }
}

impl<'a> TermIterator<'a> {
    /// All the records still to come lie inside the buffer.
    #[verifier::type_invariant]
    spec fn well_formed(self) -> bool {
        self.offset + 32 * self.remaining <= self.bytes.len()
    }

    /// Hands out a view of the next record and steps over it, or returns
    /// `None` when no record is left. It never reads past the validated
    /// records.
    pub fn next(&mut self) -> (item: Option<TermReader<'a>>)
        ensures
            old(self)@.len() == 0 ==> item is None && final(self)@ == old(self)@,
            old(self)@.len() > 0 ==> item is Some && item.unwrap()@ == old(self)@[0],
            old(self)@.len() > 0 ==> final(self)@ == old(self)@.drop_first(),
    {
        proof {
            use_type_invariant(&*self);
        }
        if self.remaining == 0 {
            return None;
        }
        let term = TermReader { bytes: self.bytes, offset: self.offset };

        self.remaining -= 1;
        self.offset += TERM_SIZE;

        Some(term)
    }

    /// The number of records still to come, as lower and upper bound.
    pub fn size_hint(&self) -> (bounds: (usize, Option<usize>))
        ensures
            bounds.0 == self@.len(),
            bounds.1 == Some(bounds.0),
    {
        (self.remaining, Some(self.remaining))
    }

    /// The exact number of records still to come.
    pub fn len(&self) -> (count: usize)
        ensures
            count == self@.len(),
    {
        self.remaining
    }
}

/// A view of one record inside a validated buffer.
pub struct TermReader<'a> {
    bytes: &'a [u8],
    offset: usize,
}

impl<'a> View for TermReader<'a> {
    type V = FullTerm;

    /// The term that the record encodes.
    closed spec fn view(&self) -> FullTerm {
        record_at(self.bytes@, self.offset as int)
    }
}

impl<'a> TermReader<'a> {
    /// The 32 bytes of the record lie inside the buffer.
    #[verifier::type_invariant]
    spec fn well_formed(self) -> bool {
        self.offset + 32 <= self.bytes.len()
    }

    /// Reads `doc_id` and nothing else.
    #[inline]
    pub fn doc_id(&self) -> (value: u64)
        ensures
            value == self@.doc_id,
    {
        proof {
            use_type_invariant(self);
        }
        get_le(&self.bytes[self.offset..self.offset + 8]) as u64
    }

    /// Reads `field_mask` and nothing else.
    #[inline]
    pub fn field_mask(&self) -> (value: u128)
        ensures
            value == self@.field_mask,
    {
        proof {
            use_type_invariant(self);
        }
        get_le(&self.bytes[self.offset + 8..self.offset + 24])
    }

    /// Reads `frequency` and nothing else.
    #[inline]
    pub fn frequency(&self) -> (value: u64)
        ensures
            value == self@.frequency,
    {
        proof {
            use_type_invariant(self);
        }
        get_le(&self.bytes[self.offset + 24..self.offset + 32]) as u64
    }

    /// Reads all three fields into an owned term: the one that eager
    /// decoding produces at this position.
    pub fn deserialize(&self) -> (term: FullTerm)
        ensures
            term == self@,
    {
        FullTerm {
            doc_id: self.doc_id(),
            field_mask: self.field_mask(),
            frequency: self.frequency(),
        }
    }
}

} // verus!
