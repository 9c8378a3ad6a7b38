//! Zero-copy reading through borrowed field views.
//!
//! Here the item of a traversal holds three borrowed byte ranges, one per
//! field, cut out of the buffer when the item is made. An accessor converts
//! its range and computes no offset. Eager decoding is a traversal that
//! materializes every item.

use crate::layout::{block_bytes, declared_count, decoded_terms, parse_block, record_at, validate};
use crate::layout::{DecodeError, HEADER_SIZE, TERM_SIZE};
use crate::le::{get_le, le_value};
use crate::term::{Block, FullTerm};
use vstd::prelude::*;

verus! {

/// Encodes a block in the format of `crate::layout`; see
/// `crate::manual_zerocopy::serialize`, which does the work.
pub fn serialize(block: &Block) -> (bytes: Vec<u8>)
    ensures
        bytes@ == block_bytes(block@),
        bytes@.len() == 4 + 32 * block@.len(),
{
    crate::manual_zerocopy::serialize(block)
}

/// One record of a validated buffer, as the byte ranges of its three fields.
pub struct ArchivedFullTerm<'a> {
    doc_id_bytes: &'a [u8],
    field_mask_bytes: &'a [u8],
    frequency_bytes: &'a [u8],
}

impl<'a> View for ArchivedFullTerm<'a> {
    type V = FullTerm;

    /// The term that the three ranges encode.
    closed spec fn view(&self) -> FullTerm {
        FullTerm {
            doc_id: le_value(self.doc_id_bytes@) as u64,
            field_mask: le_value(self.field_mask_bytes@) as u128,
            frequency: le_value(self.frequency_bytes@) as u64,
        }
    }
}

impl<'a> ArchivedFullTerm<'a> {
    /// Each range has the width of its field.
    #[verifier::type_invariant]
    spec fn well_formed(self) -> bool {
        &&& self.doc_id_bytes.len() == 8
        &&& self.field_mask_bytes.len() == 16
        &&& self.frequency_bytes.len() == 8
    }

    /// Cuts the three field ranges of the record at `offset` out of `bytes`.
    /// The caller has validated the buffer, so no bound is checked when the
    /// program runs.
    #[inline(always)]
    fn from_bytes_unchecked(bytes: &'a [u8], offset: usize) -> (term: Self)
        requires
            offset + 32 <= bytes.len(),
        ensures
            term@ == record_at(bytes@, offset as int),
    {
        let doc_id_bytes = &bytes[offset..offset + 8];
        let field_mask_bytes = &bytes[offset + 8..offset + 24];
        let frequency_bytes = &bytes[offset + 24..offset + 32];

        ArchivedFullTerm { doc_id_bytes, field_mask_bytes, frequency_bytes }
    }

    /// Reads `doc_id` and nothing else.
    #[inline(always)]
    pub fn doc_id(&self) -> (value: u64)
        ensures
            value == self@.doc_id,
    {
        proof {
            use_type_invariant(self);
        }
        get_le(self.doc_id_bytes) as u64
    }

    /// Reads `field_mask` and nothing else.
    #[inline(always)]
    pub fn field_mask(&self) -> (value: u128)
        ensures
            value == self@.field_mask,
    {
        proof {
            use_type_invariant(self);
        }
        get_le(self.field_mask_bytes)
    }

    /// Reads `frequency` and nothing else.
    #[inline(always)]
    pub fn frequency(&self) -> (value: u64)
        ensures
            value == self@.frequency,
    {
        proof {
            use_type_invariant(self);
        }
        get_le(self.frequency_bytes) as u64
    }

    /// Reads all three fields into an owned term.
    #[inline]
    pub fn deserialize(&self) -> (term: FullTerm)
        ensures
            term == self@,
    {
        FullTerm {
            doc_id: self.doc_id(),
            field_mask: self.field_mask(),
            frequency: self.frequency(),
        }
    }
}

/// Decodes a whole block by opening a reader and materializing every item of
/// one traversal. It accepts and refuses the same buffers as
/// `BlockReader::new`, and what it returns is what the traversal shows, item
/// for item and in order.
pub fn deserialize(bytes: &[u8]) -> (result: Result<Block, DecodeError>)
    ensures
        match result {
            Ok(block) => parse_block(bytes@) == Ok::<Seq<FullTerm>, DecodeError>(block@),
            Err(error) => parse_block(bytes@) == Err::<Seq<FullTerm>, DecodeError>(error),
        },
{
    let reader = match BlockReader::new(bytes) {
        Ok(reader) => reader,
        Err(error) => {
            return Err(error);
        },
    };

    let mut full_terms: Vec<FullTerm> = Vec::with_capacity(reader.len());
    let mut terms = reader.iter();
    let ghost all = reader@;
    loop
        invariant
            full_terms@ + terms@ == all,
        ensures
            full_terms@ == all,
        decreases terms@.len(),
    {
        match terms.next() {
            Some(archived_term) => {
                full_terms.push(archived_term.deserialize());
            },
            None => {
                break ;
            },
        }
    }

    Ok(Block { full_terms })
}

/// A validated buffer and the number of records in it. It borrows the buffer
/// and owns nothing.
pub struct BlockReader<'a> {
    bytes: &'a [u8],
    num_terms: usize,
}

impl<'a> View for BlockReader<'a> {
    type V = Seq<FullTerm>;

    /// The terms that the buffer encodes, in order.
    closed spec fn view(&self) -> Seq<FullTerm> {
        decoded_terms(self.bytes@)
    }
}

impl<'a> BlockReader<'a> {
    /// The count is the one the header declares, and the buffer holds every
    /// record it declares.
    #[verifier::type_invariant]
    spec fn well_formed(self) -> bool {
        &&& self.num_terms == declared_count(self.bytes@)
        &&& 4 + 32 * self.num_terms <= self.bytes.len()
    }

    /// Opens a reader on `bytes`. It succeeds when the buffer holds the
    /// header and every record that the header declares, and says which of
    /// the two is missing when it does not.
    pub fn new(bytes: &'a [u8]) -> (result: Result<Self, DecodeError>)
        ensures
            match result {
                Ok(reader) => parse_block(bytes@) == Ok::<Seq<FullTerm>, DecodeError>(reader@),
                Err(error) => parse_block(bytes@) == Err::<Seq<FullTerm>, DecodeError>(error),
            },
    {
        match validate(bytes) {
            Ok(num_terms) => Ok(BlockReader { bytes, num_terms }),
            Err(error) => Err(error),
        }
    }

    /// The number of records, as declared by the header.
    pub fn len(&self) -> (count: usize)
        ensures
            count == self@.len(),
    {
        proof {
            use_type_invariant(self);
        }
        self.num_terms
    }

    /// A fresh traversal of all the records, from the first.
    pub fn iter(&self) -> (terms: TermIterator<'a>)
        ensures
            terms@ == self@,
    {
        proof {
            use_type_invariant(self);
        }
        TermIterator { bytes: self.bytes, offset: HEADER_SIZE, remaining: self.num_terms }
    }
}

/// A traversal of the records of a block that cuts out the field ranges of
/// one record at a time.
pub struct TermIterator<'a> {
    bytes: &'a [u8],
    offset: usize,
    remaining: usize,
}

impl<'a> View for TermIterator<'a> {
    type V = Seq<FullTerm>;

    /// The terms still to come, next one first.
    closed spec fn view(&self) -> Seq<FullTerm> {
        Seq::new(self.remaining as nat, |k: int| record_at(self.bytes@, self.offset + 32 * k))
    }
}

impl<'a> TermIterator<'a> {
    /// All the records still to come lie inside the buffer.
    #[verifier::type_invariant]
    spec fn well_formed(self) -> bool {
        self.offset + 32 * self.remaining <= self.bytes.len()
    }

    /// Hands out the field ranges of the next record and steps over it, or
    /// returns `None` when no record is left.
    #[inline]
    pub fn next(&mut self) -> (item: Option<ArchivedFullTerm<'a>>)
        ensures
            old(self)@.len() == 0 ==> item is None && final(self)@ == old(self)@,
            old(self)@.len() > 0 ==> item is Some && item.unwrap()@ == old(self)@[0],
            old(self)@.len() > 0 ==> final(self)@ == old(self)@.drop_first(),
    {
        proof {
            use_type_invariant(&*self);
        }
        if self.remaining == 0 {
            return None;
        }
        let term = ArchivedFullTerm::from_bytes_unchecked(self.bytes, self.offset);

        self.remaining -= 1;
        self.offset += TERM_SIZE;

        Some(term)
    }

    /// The number of records still to come, as lower and upper bound.
    pub fn size_hint(&self) -> (bounds: (usize, Option<usize>))
        ensures
            bounds.0 == self@.len(),
            bounds.1 == Some(bounds.0),
    {
        (self.remaining, Some(self.remaining))
    }

    /// The exact number of records still to come.
    pub fn len(&self) -> (count: usize)
        ensures
            count == self@.len(),
    {
        self.remaining
    }
}

} // verus!
