//! Eager decoding by consuming the buffer from the front.
//!
//! This decoder keeps no offset. It splits the header off the buffer, then
//! each field off what remains, and converts every piece as it comes. There
//! is no reader here: the module is for callers that want the whole block.

use crate::layout::{block_bytes, decoded_terms, parse_block, term_at, DecodeError};
use crate::layout::{HEADER_SIZE, TERM_SIZE};
use crate::le::{get_le, lemma_le_value_bound, lemma_radix_pow_values};
use crate::term::{Block, FullTerm};
use vstd::prelude::*;

verus! {

/// Encodes a block in the format of `crate::layout`; see
/// `crate::manual_zerocopy::serialize`, which does the work.
pub fn serialize(block: &Block) -> (bytes: Vec<u8>)
    ensures
        bytes@ == block_bytes(block@),
        bytes@.len() == 4 + 32 * block@.len(),
{
    crate::manual_zerocopy::serialize(block)
}

/// Decodes a whole block into owned terms, in encoded order.
///
/// It refuses a buffer of fewer than four bytes with `HeaderTooSmall`, and
/// one whose remainder after the header is shorter than the `32 N` bytes of
/// records that the header declares with `PayloadTooSmall`; a size that does
/// not fit the machine is longer than any remainder. Bytes after the declared
/// records are ignored.
pub fn deserialize(bytes: &[u8]) -> (result: Result<Block, DecodeError>)
    ensures
        match result {
            Ok(block) => parse_block(bytes@) == Ok::<Seq<FullTerm>, DecodeError>(block@),
            Err(error) => parse_block(bytes@) == Err::<Seq<FullTerm>, DecodeError>(error),
        },
{
    if bytes.len() < HEADER_SIZE {
        return Err(DecodeError::HeaderTooSmall);
    }

    // Split off the header.
    let (num_terms_bytes, rest) = bytes.split_at(HEADER_SIZE);
    let mut remaining: &[u8] = rest;
    proof {
        lemma_radix_pow_values();
        lemma_le_value_bound(num_terms_bytes@);
    }
    let num_terms = get_le(num_terms_bytes) as usize;

    let expected_size = match num_terms.checked_mul(TERM_SIZE) {
        Some(size) => size,
        None => {
            return Err(DecodeError::PayloadTooSmall);
        },
    };
    if remaining.len() < expected_size {
        return Err(DecodeError::PayloadTooSmall);
    }
    let mut full_terms: Vec<FullTerm> = Vec::with_capacity(num_terms);

    for index in 0..num_terms
        invariant
            4 + 32 * num_terms <= bytes.len(),
            remaining@ == bytes@.subrange(4 + 32 * index, bytes.len() as int),
            full_terms@ =~= Seq::new(index as nat, |k: int| term_at(bytes@, k)),
    {
        let ghost base = 4 + 32 * index;

        // Split off doc_id.
        let (doc_id_bytes, rest) = remaining.split_at(8);
        proof {
            assert(doc_id_bytes@ =~= bytes@.subrange(base, base + 8));
        }
        let doc_id = get_le(doc_id_bytes) as u64;
        remaining = rest;

        // Split off field_mask.
        let (field_mask_bytes, rest) = remaining.split_at(16);
        proof {
            assert(field_mask_bytes@ =~= bytes@.subrange(base + 8, base + 24));
        }
        let field_mask = get_le(field_mask_bytes);
        remaining = rest;

        // Split off frequency.
        let (frequency_bytes, rest) = remaining.split_at(8);
        proof {
            assert(frequency_bytes@ =~= bytes@.subrange(base + 24, base + 32));
        }
        let frequency = get_le(frequency_bytes) as u64;
        remaining = rest;

        full_terms.push(FullTerm { doc_id, field_mask, frequency });
    }

    Ok(Block { full_terms })
}

} // verus!
