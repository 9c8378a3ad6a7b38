//! The wire format of a block, as a mathematical model, and the validation
//! that every decoder performs once before it touches a record.
//!
//! ```text
//! offset 0 .. 4              record count N, u32 little-endian
//! offset 4 + 32 i      .. +8   doc_id of record i, u64 little-endian
//! offset 4 + 32 i + 8  .. +16  field_mask of record i, u128 little-endian
//! offset 4 + 32 i + 24 .. +8   frequency of record i, u64 little-endian
//! ```
//!
//! A buffer is accepted when it holds the header and at least the `32 N`
//! bytes of records that the header declares; bytes after them are ignored.

use crate::le::{get_le, le_bytes, le_value};
use crate::le::{lemma_le_bytes_len, lemma_le_bytes_of_le_value, lemma_le_value_bound};
use crate::le::{lemma_le_value_of_le_bytes, lemma_radix_pow_values};
use crate::term::FullTerm;
use vstd::prelude::*;

verus! {

/// Bytes of the count header.
pub const HEADER_SIZE: usize = 4;

/// Bytes of one encoded term: 8 + 16 + 8.
pub const TERM_SIZE: usize = 32;

/// Why a buffer was refused. Both are found before any record is read.
#[derive(Debug, Clone, Copy, PartialEq, Eq, Structural)]
pub enum DecodeError {
    /// The buffer is shorter than the count header.
    HeaderTooSmall,
    /// The buffer is shorter than the records its header declares.
    PayloadTooSmall,
}

impl DecodeError {
    /// The text of `message`.
    pub open spec fn spec_message(self) -> Seq<char> {
        match self {
            DecodeError::HeaderTooSmall => "Buffer too small for header"@,
            DecodeError::PayloadTooSmall => "Buffer too small for data"@,
        }
    }

    /// A short description for people.
    pub fn message(&self) -> (text: &'static str)
        ensures
            text@ == self.spec_message(),
    {
        match self {
            DecodeError::HeaderTooSmall => "Buffer too small for header",
            DecodeError::PayloadTooSmall => "Buffer too small for data",
        }
    }
}

/// The 32 bytes of one term: its three fields in order, each little-endian,
/// with no padding.
pub open spec fn term_bytes(term: FullTerm) -> Seq<u8> {
    le_bytes(term.doc_id as nat, 8) + le_bytes(term.field_mask as nat, 16) + le_bytes(
        term.frequency as nat,
        8,
    )
}

/// The bytes of a run of terms, one after the other.
pub open spec fn terms_bytes(terms: Seq<FullTerm>) -> Seq<u8>
    decreases terms.len(),
{
    if terms.len() == 0 {
        Seq::empty()
    } else {
        terms_bytes(terms.drop_last()) + term_bytes(terms.last())
    }
}

/// The encoding of a block: the four low-order bytes of the count, then the
/// terms.
pub open spec fn block_bytes(terms: Seq<FullTerm>) -> Seq<u8> {
    le_bytes(terms.len(), 4) + terms_bytes(terms)
}

/// The term whose 32 bytes start at `offset` in `bytes`. Each field is read
/// from as many bytes as its type has, so the conversions lose nothing
/// (`lemma_le_value_bound`).
pub open spec fn record_at(bytes: Seq<u8>, offset: int) -> FullTerm {
    FullTerm {
        doc_id: le_value(bytes.subrange(offset, offset + 8)) as u64,
        field_mask: le_value(bytes.subrange(offset + 8, offset + 24)) as u128,
        frequency: le_value(bytes.subrange(offset + 24, offset + 32)) as u64,
    }
}

/// The record count that the header of `bytes` declares.
pub open spec fn declared_count(bytes: Seq<u8>) -> nat {
    le_value(bytes.subrange(0, 4))
}

/// The term at position `index` of an encoded block.
pub open spec fn term_at(bytes: Seq<u8>, index: int) -> FullTerm {
    record_at(bytes, 4 + 32 * index)
}

/// All the terms that the header of `bytes` declares, in encoded order.
pub open spec fn decoded_terms(bytes: Seq<u8>) -> Seq<FullTerm> {
    Seq::new(declared_count(bytes), |index: int| term_at(bytes, index))
}

/// What decoding `bytes` gives: the terms, or the reason for refusing.
pub open spec fn parse_block(bytes: Seq<u8>) -> Result<Seq<FullTerm>, DecodeError> {
    if bytes.len() < 4 {
        Err(DecodeError::HeaderTooSmall)
    } else if bytes.len() < 4 + 32 * declared_count(bytes) {
        Err(DecodeError::PayloadTooSmall)
    } else {
        Ok(decoded_terms(bytes))
    }
}

/// Validates `bytes` and returns the declared record count. The size that
/// the count asks for is computed with checked arithmetic; a size that does
/// not fit the machine is larger than any buffer.
pub fn validate(bytes: &[u8]) -> (result: Result<usize, DecodeError>)
    ensures
        match result {
            Ok(count) => parse_block(bytes@) is Ok && count == declared_count(bytes@) && 4 + 32
                * count <= bytes.len(),
            Err(error) => parse_block(bytes@) == Err::<Seq<FullTerm>, DecodeError>(error),
        },
{
    if bytes.len() < HEADER_SIZE {
        return Err(DecodeError::HeaderTooSmall);
    }
    let declared: u128 = get_le(&bytes[0..HEADER_SIZE]);
    proof {
        lemma_le_value_bound(bytes@.subrange(0, 4));
        lemma_radix_pow_values();
    }
    let count: usize = declared as usize;
    let expected: Option<usize> = match count.checked_mul(TERM_SIZE) {
        Some(payload) => payload.checked_add(HEADER_SIZE),
        None => None,
    };
    match expected {
        Some(size) => {
            if bytes.len() < size {
                Err(DecodeError::PayloadTooSmall)
            } else {
                Ok(count)
            }
        },
        None => Err(DecodeError::PayloadTooSmall),
    }
}

/// A run of `n` terms takes `32 n` bytes.
pub proof fn lemma_terms_bytes_len(terms: Seq<FullTerm>)
    ensures
        terms_bytes(terms).len() == 32 * terms.len(),
    decreases terms.len(),
{
    if terms.len() > 0 {
        lemma_terms_bytes_len(terms.drop_last());
        lemma_term_bytes_fields(terms.last());
    }
}

/// The three fields of an encoded term lie at offsets 0, 8 and 24.
pub proof fn lemma_term_bytes_fields(term: FullTerm)
    ensures
        term_bytes(term).len() == 32,
        term_bytes(term).subrange(0, 8) == le_bytes(term.doc_id as nat, 8),
        term_bytes(term).subrange(8, 24) == le_bytes(term.field_mask as nat, 16),
        term_bytes(term).subrange(24, 32) == le_bytes(term.frequency as nat, 8),
{
    lemma_le_bytes_len(term.doc_id as nat, 8);
    lemma_le_bytes_len(term.field_mask as nat, 16);
    lemma_le_bytes_len(term.frequency as nat, 8);
}

/// Reading back the bytes of one term gives that term.
pub proof fn lemma_record_of_term_bytes(term: FullTerm)
    ensures
        record_at(term_bytes(term), 0) == term,
{
    lemma_term_bytes_fields(term);
    lemma_radix_pow_values();
    lemma_le_value_of_le_bytes(term.doc_id as nat, 8);
    lemma_le_value_of_le_bytes(term.field_mask as nat, 16);
    lemma_le_value_of_le_bytes(term.frequency as nat, 8);
}

/// Term `index` of a run occupies the 32 bytes from `32 index` on.
pub proof fn lemma_terms_bytes_window(terms: Seq<FullTerm>, index: int)
    requires
        0 <= index < terms.len(),
    ensures
        terms_bytes(terms).subrange(32 * index, 32 * index + 32) == term_bytes(terms[index]),
    decreases terms.len(),
{
    let front = terms.drop_last();
    lemma_terms_bytes_len(front);
    lemma_term_bytes_fields(terms.last());
    if index < terms.len() - 1 {
        lemma_terms_bytes_window(front, index);
    }
}

/// A record is read from its own 32 bytes and from nothing else.
pub proof fn lemma_record_at_window(bytes: Seq<u8>, offset: int)
    requires
        0 <= offset,
        offset + 32 <= bytes.len(),
    ensures
        record_at(bytes, offset) == record_at(bytes.subrange(offset, offset + 32), 0),
{
    let window = bytes.subrange(offset, offset + 32);
    assert(window.subrange(0, 8) =~= bytes.subrange(offset, offset + 8));
    assert(window.subrange(8, 24) =~= bytes.subrange(offset + 8, offset + 24));
    assert(window.subrange(24, 32) =~= bytes.subrange(offset + 24, offset + 32));
}

/// An encoded block of `n` terms is exactly `4 + 32 n` bytes long.
pub proof fn lemma_block_bytes_len(terms: Seq<FullTerm>)
    ensures
        block_bytes(terms).len() == 4 + 32 * terms.len(),
{
    lemma_le_bytes_len(terms.len(), 4);
    lemma_terms_bytes_len(terms);
}

/// The header of an encoded block declares the number of its terms, and so
/// does every buffer that keeps at least the header of one.
pub proof fn lemma_declared_count(terms: Seq<FullTerm>, bytes: Seq<u8>)
    requires
        terms.len() <= u32::MAX,
        bytes.len() >= 4,
        bytes.subrange(0, 4) == block_bytes(terms).subrange(0, 4),
    ensures
        declared_count(bytes) == terms.len(),
{
    lemma_le_bytes_len(terms.len(), 4);
    lemma_radix_pow_values();
    lemma_le_value_of_le_bytes(terms.len(), 4);
    assert(block_bytes(terms).subrange(0, 4) =~= le_bytes(terms.len(), 4));
}

/// Round trip: decoding the encoding of a block gives back its terms, all of
/// them and in order, whatever bytes follow the encoding. A block of more
/// than `u32::MAX` terms has no encoding that declares its length.
pub proof fn lemma_roundtrip(terms: Seq<FullTerm>, trailing: Seq<u8>)
    requires
        terms.len() <= u32::MAX,
    ensures
        parse_block(block_bytes(terms) + trailing) == Ok::<Seq<FullTerm>, DecodeError>(terms),
{
    let encoded = block_bytes(terms);
    let bytes = encoded + trailing;
    lemma_block_bytes_len(terms);
    lemma_le_bytes_len(terms.len(), 4);
    assert(bytes.subrange(0, 4) =~= encoded.subrange(0, 4));
    lemma_declared_count(terms, bytes);
    assert forall|index: int| 0 <= index < terms.len() implies term_at(bytes, index)
        == terms[index] by {
        lemma_terms_bytes_window(terms, index);
        lemma_record_at_window(bytes, 4 + 32 * index);
        assert(bytes.subrange(4 + 32 * index, 4 + 32 * index + 32) =~= terms_bytes(
            terms,
        ).subrange(32 * index, 32 * index + 32));
        lemma_record_of_term_bytes(terms[index]);
    }
    assert(decoded_terms(bytes) =~= terms);
}

/// Exact size: the encoding of a block declares, and decodes to, exactly as
/// many terms as the block holds.
pub proof fn lemma_exact_size(terms: Seq<FullTerm>)
    requires
        terms.len() <= u32::MAX,
    ensures
        block_bytes(terms).len() == 4 + 32 * terms.len(),
        declared_count(block_bytes(terms)) == terms.len(),
        decoded_terms(block_bytes(terms)).len() == terms.len(),
{
    lemma_block_bytes_len(terms);
    lemma_declared_count(terms, block_bytes(terms));
}

/// Truncation is rejected: every proper prefix of the encoding of a block
/// that holds at least one term is refused, with `HeaderTooSmall` when fewer
/// than four bytes are left and with `PayloadTooSmall` otherwise.
pub proof fn lemma_truncation_rejected(terms: Seq<FullTerm>, kept: int)
    requires
        0 < terms.len() <= u32::MAX,
        0 <= kept < block_bytes(terms).len(),
    ensures
        kept < 4 ==> parse_block(block_bytes(terms).take(kept)) == Err::<
            Seq<FullTerm>,
            DecodeError,
        >(DecodeError::HeaderTooSmall),
        kept >= 4 ==> parse_block(block_bytes(terms).take(kept)) == Err::<
            Seq<FullTerm>,
            DecodeError,
        >(DecodeError::PayloadTooSmall),
{
    let encoded = block_bytes(terms);
    let prefix = encoded.take(kept);
    lemma_block_bytes_len(terms);
    if kept >= 4 {
        assert(prefix.subrange(0, 4) =~= encoded.subrange(0, 4));
        lemma_declared_count(terms, prefix);
    }
}

/// A buffer shorter than the header is refused with `HeaderTooSmall`,
/// whatever it holds.
pub proof fn lemma_short_buffer_rejected(bytes: Seq<u8>)
    requires
        bytes.len() < 4,
    ensures
        parse_block(bytes) == Err::<Seq<FullTerm>, DecodeError>(DecodeError::HeaderTooSmall),
{
}

/// The bytes of a decoded term are the 32 bytes it was read from.
pub proof fn lemma_term_bytes_of_record(bytes: Seq<u8>, offset: int)
    requires
        0 <= offset,
        offset + 32 <= bytes.len(),
    ensures
        term_bytes(record_at(bytes, offset)) == bytes.subrange(offset, offset + 32),
{
    let doc_id = bytes.subrange(offset, offset + 8);
    let field_mask = bytes.subrange(offset + 8, offset + 24);
    let frequency = bytes.subrange(offset + 24, offset + 32);
    lemma_radix_pow_values();
    lemma_le_value_bound(doc_id);
    lemma_le_value_bound(field_mask);
    lemma_le_value_bound(frequency);
    lemma_le_bytes_of_le_value(doc_id);
    lemma_le_bytes_of_le_value(field_mask);
    lemma_le_bytes_of_le_value(frequency);
}

/// The bytes of the first `count` decoded terms are the `32 count` bytes
/// after the header.
pub proof fn lemma_terms_bytes_of_decoded(bytes: Seq<u8>, count: nat)
    requires
        4 + 32 * count <= bytes.len(),
    ensures
        terms_bytes(Seq::new(count, |index: int| term_at(bytes, index))) == bytes.subrange(
            4,
            4 + 32 * count as int,
        ),
    decreases count,
{
    if count > 0 {
        let terms = Seq::new(count, |index: int| term_at(bytes, index));
        let front = Seq::new((count - 1) as nat, |index: int| term_at(bytes, index));
        assert(terms.drop_last() =~= front);
        lemma_terms_bytes_of_decoded(bytes, (count - 1) as nat);
        lemma_term_bytes_of_record(bytes, 4 + 32 * (count - 1));
    }
}

/// Decoding is the exact inverse of encoding: the terms of an accepted buffer
/// encode to the bytes they were decoded from, which are the header and the
/// records it declares. Two accepted buffers that differ there decode to
/// different blocks.
pub proof fn lemma_reencode(bytes: Seq<u8>, terms: Seq<FullTerm>)
    requires
        parse_block(bytes) == Ok::<Seq<FullTerm>, DecodeError>(terms),
    ensures
        4 + 32 * terms.len() <= bytes.len(),
        block_bytes(terms) == bytes.take(4 + 32 * terms.len() as int),
{
    lemma_le_bytes_of_le_value(bytes.subrange(0, 4));
    lemma_terms_bytes_of_decoded(bytes, declared_count(bytes));
}

/// Whether a term passes a query: it occurs in at least one of the fields
/// that `query_mask` asks for.
pub open spec fn matches_query(term: FullTerm, query_mask: u128) -> bool {
    term.field_mask & query_mask != 0
}

/// What a filtered scan collects from a traversal that still has `pending`
/// to hand out: it takes the next item, tests its field mask against the
/// query, materializes the item on a match, and goes on with the rest.
pub open spec fn filtered_scan(pending: Seq<FullTerm>, query_mask: u128) -> Seq<FullTerm>
    decreases pending.len(),
{
    if pending.len() == 0 {
        Seq::empty()
    } else if matches_query(pending[0], query_mask) {
        seq![pending[0]] + filtered_scan(pending.drop_first(), query_mask)
    } else {
        filtered_scan(pending.drop_first(), query_mask)
    }
}

/// A filtered scan collects the terms that pass the query, all of them and
/// in their order.
pub proof fn lemma_filtered_scan_is_filter(pending: Seq<FullTerm>, query_mask: u128)
    ensures
        filtered_scan(pending, query_mask) == pending.filter(
            |term: FullTerm| matches_query(term, query_mask),
        ),
    decreases pending.len(),
{
    let passes = |term: FullTerm| matches_query(term, query_mask);
    if pending.len() > 0 {
        let rest = pending.drop_first();
        lemma_filtered_scan_is_filter(rest, query_mask);
        rest.lemma_filter_prepend(pending[0], passes);
        assert(seq![pending[0]] + rest =~= pending);
    }
}

/// Zero-copy parity. On the encoding of a block, what a reader shows
/// (`streamed`: the view of a reader that was opened on the encoding, and of
/// a fresh traversal of it) and what eager decoding returns (`decoded`: the
/// view of the decoded block) are the same terms in the same order, field
/// for field. They are the terms of the block where the block has at most
/// `u32::MAX` of them.
pub proof fn lemma_zero_copy_parity(
    terms: Seq<FullTerm>,
    streamed: Seq<FullTerm>,
    decoded: Seq<FullTerm>,
)
    requires
        parse_block(block_bytes(terms)) == Ok::<Seq<FullTerm>, DecodeError>(streamed),
        parse_block(block_bytes(terms)) == Ok::<Seq<FullTerm>, DecodeError>(decoded),
    ensures
        streamed.len() == decoded.len(),
        forall|index: int|
            0 <= index < streamed.len() ==> {
                &&& (#[trigger] streamed[index]).doc_id == decoded[index].doc_id
                &&& streamed[index].field_mask == decoded[index].field_mask
                &&& streamed[index].frequency == decoded[index].frequency
            },
        terms.len() <= u32::MAX ==> streamed == terms && decoded == terms,
{
    if terms.len() <= u32::MAX {
        lemma_roundtrip(terms, Seq::empty());
    }
}

/// Filter correctness. On the encoding of a block and for every query mask,
/// a filtered scan of what a reader shows collects exactly the terms that
/// filtering the eagerly decoded block keeps, in the same order.
pub proof fn lemma_filter_correctness(
    terms: Seq<FullTerm>,
    query_mask: u128,
    streamed: Seq<FullTerm>,
    decoded: Seq<FullTerm>,
)
    requires
        parse_block(block_bytes(terms)) == Ok::<Seq<FullTerm>, DecodeError>(streamed),
        parse_block(block_bytes(terms)) == Ok::<Seq<FullTerm>, DecodeError>(decoded),
    ensures
        filtered_scan(streamed, query_mask) == decoded.filter(
            |term: FullTerm| matches_query(term, query_mask),
        ),
{
    lemma_filtered_scan_is_filter(streamed, query_mask);
}

} // verus!
