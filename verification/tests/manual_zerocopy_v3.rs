use codec_comparison::layout::DecodeError;
use codec_comparison::manual_zerocopy_v3::{deserialize, serialize};
use codec_comparison::{Block, FullTerm};

#[test]
fn manual_zerocopy_v3_test_roundtrip() {
    let block = Block {
        full_terms: vec![
            FullTerm { doc_id: 1, field_mask: 0xDEADBEEF, frequency: 42 },
            FullTerm { doc_id: 2, field_mask: 0xCAFEBABE, frequency: 123 },
        ],
    };

    let bytes = serialize(&block);
    let deserialized = deserialize(&bytes).unwrap();

    assert_eq!(block.full_terms.len(), deserialized.full_terms.len());
    assert_eq!(block.full_terms[0].doc_id, deserialized.full_terms[0].doc_id);
    assert_eq!(block.full_terms[1].frequency, deserialized.full_terms[1].frequency);
}

#[test]
fn splitting_decoder_roundtrips_every_field() {
    let block = Block {
        full_terms: vec![
            FullTerm { doc_id: u64::MAX, field_mask: u128::MAX, frequency: u64::MAX },
            FullTerm { doc_id: 0, field_mask: 0, frequency: 0 },
            FullTerm { doc_id: 0x0807_0605_0403_0201, field_mask: 0xA5 << 120, frequency: 9 },
        ],
    };
    let bytes = serialize(&block);
    assert_eq!(bytes.len(), 4 + 32 * 3);
    assert_eq!(&bytes[0..4], &[3, 0, 0, 0]);
    assert_eq!(&bytes[68..76], &[1, 2, 3, 4, 5, 6, 7, 8]);
    assert_eq!(bytes[91], 0xA5);
    assert_eq!(deserialize(&bytes).unwrap(), block);
}

#[test]
fn splitting_decoder_agrees_with_the_other_decoders() {
    let block = Block {
        full_terms: vec![
            FullTerm { doc_id: 10, field_mask: 20, frequency: 30 },
            FullTerm { doc_id: 11, field_mask: 21, frequency: 31 },
        ],
    };
    let mut bytes = serialize(&block);
    bytes.extend_from_slice(&[9, 9, 9]);
    let here = deserialize(&bytes).unwrap();
    assert_eq!(here, codec_comparison::manual_zerocopy::deserialize(&bytes).unwrap());
    assert_eq!(here, codec_comparison::manual_zerocopy_v2::deserialize(&bytes).unwrap());
    assert_eq!(here, block);
}

#[test]
fn splitting_decoder_rejects_what_the_format_rejects() {
    let block = Block {
        full_terms: vec![
            FullTerm { doc_id: 10, field_mask: 20, frequency: 30 },
            FullTerm { doc_id: 11, field_mask: 21, frequency: 31 },
        ],
    };
    let bytes = serialize(&block);
    for kept in 0..bytes.len() {
        let expected = if kept < 4 {
            DecodeError::HeaderTooSmall
        } else {
            DecodeError::PayloadTooSmall
        };
        assert_eq!(deserialize(&bytes[..kept]).unwrap_err(), expected);
    }
    let huge: Vec<u8> = vec![0xFF, 0xFF, 0xFF, 0xFF, 0, 0];
    assert_eq!(deserialize(&huge).unwrap_err(), DecodeError::PayloadTooSmall);
}

#[test]
fn splitting_decoder_of_an_empty_block() {
    let bytes = serialize(&Block { full_terms: Vec::new() });
    assert_eq!(bytes, vec![0u8; 4]);
    assert!(deserialize(&bytes).unwrap().full_terms.is_empty());
}
