use codec_comparison::term::{join_mask, split_mask};
use codec_comparison::{Block, FullTerm};

#[test]
fn split_mask_gives_high_word_then_low_word() {
    assert_eq!(split_mask(0), (0, 0));
    assert_eq!(split_mask(1), (0, 1));
    assert_eq!(split_mask(1 << 64), (1, 0));
    assert_eq!(split_mask(u128::MAX), (u64::MAX, u64::MAX));
    assert_eq!(
        split_mask(0x0011_2233_4455_6677_8899_AABB_CCDD_EEFF),
        (0x0011_2233_4455_6677, 0x8899_AABB_CCDD_EEFF)
    );
}

#[test]
fn join_mask_puts_the_first_word_high() {
    assert_eq!(join_mask(0, 0), 0);
    assert_eq!(join_mask(0, 5), 5);
    assert_eq!(join_mask(5, 0), 5u128 << 64);
    assert_eq!(join_mask(u64::MAX, u64::MAX), u128::MAX);
    assert_eq!(
        join_mask(0x0011_2233_4455_6677, 0x8899_AABB_CCDD_EEFF),
        0x0011_2233_4455_6677_8899_AABB_CCDD_EEFF
    );
}

#[test]
fn join_mask_undoes_split_mask() {
    for mask in [0u128, 1, 0xFF00FF00, 1 << 63, 1 << 64, (1 << 127) | 1, u128::MAX] {
        let (high, low) = split_mask(mask);
        assert_eq!(join_mask(high, low), mask);
    }
    for (high, low) in [(0u64, 0u64), (1, 2), (u64::MAX, 0), (0, u64::MAX)] {
        assert_eq!(split_mask(join_mask(high, low)), (high, low));
    }
}

#[test]
fn blocks_compare_by_their_terms_in_order() {
    let first = FullTerm { doc_id: 1, field_mask: 2, frequency: 3 };
    let second = FullTerm { doc_id: 4, field_mask: 5, frequency: 6 };
    let block = Block { full_terms: vec![first, second] };
    assert_eq!(block.clone(), block);
    assert_ne!(block, Block { full_terms: vec![second, first] });
    assert_ne!(block, Block { full_terms: vec![first] });
}
