use codec_comparison::layout::DecodeError;
use codec_comparison::manual_zerocopy_v2::{deserialize, serialize, BlockReader};
use codec_comparison::{Block, FullTerm};

#[test]
fn manual_zerocopy_v2_test_roundtrip() {
    let block = Block {
        full_terms: vec![
            FullTerm { doc_id: 1, field_mask: 0xDEADBEEF, frequency: 42 },
            FullTerm { doc_id: 2, field_mask: 0xCAFEBABE, frequency: 123 },
        ],
    };

    let bytes = serialize(&block);
    let deserialized = deserialize(&bytes).unwrap();

    assert_eq!(block.full_terms.len(), deserialized.full_terms.len());
    assert_eq!(block.full_terms[0].doc_id, deserialized.full_terms[0].doc_id);
    assert_eq!(block.full_terms[1].frequency, deserialized.full_terms[1].frequency);
}

#[test]
fn manual_zerocopy_v2_test_zero_copy_reader() {
    let block = Block {
        full_terms: vec![FullTerm { doc_id: 100, field_mask: 0xFF00FF00, frequency: 7 }],
    };

    let bytes = serialize(&block);
    let reader = BlockReader::new(&bytes).unwrap();

    assert_eq!(reader.len(), 1);

    let term = reader.iter().next().unwrap();
    assert_eq!(term.doc_id(), 100);
    assert_eq!(term.field_mask(), 0xFF00FF00);
    assert_eq!(term.frequency(), 7);
}

#[test]
fn field_views_serialize_the_same_bytes_as_the_offset_codec() {
    let block = Block {
        full_terms: vec![
            FullTerm { doc_id: u64::MAX, field_mask: 1 << 100, frequency: 0 },
            FullTerm { doc_id: 77, field_mask: u128::MAX, frequency: u64::MAX },
        ],
    };
    assert_eq!(serialize(&block), codec_comparison::manual_zerocopy::serialize(&block));
    assert_eq!(serialize(&block).len(), 68);
}

#[test]
fn field_views_roundtrip_every_field() {
    let block = Block {
        full_terms: vec![
            FullTerm { doc_id: u64::MAX, field_mask: 1 << 100, frequency: 0 },
            FullTerm { doc_id: 77, field_mask: u128::MAX, frequency: u64::MAX },
            FullTerm { doc_id: 0, field_mask: 0, frequency: 5 },
        ],
    };
    let bytes = serialize(&block);
    assert_eq!(deserialize(&bytes).unwrap(), block);

    let reader = BlockReader::new(&bytes).unwrap();
    assert_eq!(reader.len(), 3);
    let mut terms = reader.iter();
    assert_eq!(terms.size_hint(), (3, Some(3)));
    for expected in &block.full_terms {
        let archived = terms.next().unwrap();
        assert_eq!(archived.doc_id(), expected.doc_id);
        assert_eq!(archived.field_mask(), expected.field_mask);
        assert_eq!(archived.frequency(), expected.frequency);
        assert_eq!(archived.deserialize(), *expected);
    }
    assert_eq!(terms.len(), 0);
    assert!(terms.next().is_none());
}

#[test]
fn field_views_reject_what_the_format_rejects() {
    let block = Block {
        full_terms: vec![FullTerm { doc_id: 3, field_mask: 4, frequency: 5 }],
    };
    let bytes = serialize(&block);
    for kept in 0..bytes.len() {
        let expected = if kept < 4 {
            DecodeError::HeaderTooSmall
        } else {
            DecodeError::PayloadTooSmall
        };
        assert_eq!(deserialize(&bytes[..kept]).unwrap_err(), expected);
        assert_eq!(BlockReader::new(&bytes[..kept]).err(), Some(expected));
    }
    let huge: Vec<u8> = vec![0xFF, 0xFF, 0xFF, 0xFF];
    assert_eq!(deserialize(&huge).unwrap_err(), DecodeError::PayloadTooSmall);
}

#[test]
fn field_views_of_an_empty_block() {
    let bytes = serialize(&Block { full_terms: Vec::new() });
    assert_eq!(bytes.len(), 4);
    assert!(deserialize(&bytes).unwrap().full_terms.is_empty());
    let reader = BlockReader::new(&bytes).unwrap();
    assert_eq!(reader.len(), 0);
    assert!(reader.iter().next().is_none());
}

#[test]
fn field_views_filter_like_the_decoded_block() {
    let mut full_terms: Vec<FullTerm> = Vec::new();
    for index in 0u64..40 {
        full_terms.push(FullTerm {
            doc_id: index,
            field_mask: 1u128 << (3 * index),
            frequency: 1000 - index,
        });
    }
    let block = Block { full_terms };
    let bytes = serialize(&block);
    let query_mask: u128 = 1 | (1 << 9) | (1 << 30) | (1 << 117) | (1 << 118);
    let reader = BlockReader::new(&bytes).unwrap();
    let mut terms = reader.iter();
    let mut scanned: Vec<FullTerm> = Vec::new();
    loop {
        match terms.next() {
            Some(archived) => {
                if archived.field_mask() & query_mask != 0 {
                    scanned.push(archived.deserialize());
                }
            }
            None => break,
        }
    }
    let decoded = deserialize(&bytes).unwrap();
    let filtered: Vec<FullTerm> = decoded
        .full_terms
        .iter()
        .filter(|term| term.field_mask & query_mask != 0)
        .copied()
        .collect();
    assert_eq!(scanned, filtered);
    let doc_ids: Vec<u64> = scanned.iter().map(|term| term.doc_id).collect();
    assert_eq!(doc_ids, vec![0, 3, 10, 39]);
}
