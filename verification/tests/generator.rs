use codec_comparison::manual_zerocopy::{deserialize, serialize, BlockReader};
use codec_comparison::{generate_test_data, FullTerm, Xorshift64};

#[test]
fn xorshift_steps_through_the_known_sequence() {
    let mut rng = Xorshift64::new(42);
    assert_eq!(rng.next(), 45454805674);
    assert_eq!(rng.next(), 11532217803599905471);
    assert_eq!(rng.next(), 10021416941527320954);
}

#[test]
fn xorshift_seed_zero_starts_from_one() {
    let mut zero = Xorshift64::new(0);
    let mut one = Xorshift64::new(1);
    let first: u64 = zero.next();
    assert_eq!(first, 1082269761);
    assert_eq!(first, one.next());
    assert_eq!(zero.next(), one.next());
}

#[test]
fn xorshift_u128_puts_the_first_step_in_the_high_word() {
    let mut wide = Xorshift64::new(1);
    let mut narrow = Xorshift64::new(1);
    let value: u128 = wide.next_u128();
    let high: u64 = narrow.next();
    let low: u64 = narrow.next();
    assert_eq!(value, ((high as u128) << 64) | low as u128);
    assert_eq!(value, 0x40822041100041060c011441);
    assert_eq!(wide.next(), narrow.next());
}

#[test]
fn xorshift_never_returns_zero() {
    let mut rng = Xorshift64::new(0xDEAD_BEEF);
    for _ in 0..10_000 {
        assert_ne!(rng.next(), 0);
    }
}

#[test]
fn test_data_has_the_documented_shape() {
    let blocks = generate_test_data();
    assert_eq!(blocks.len(), 10_000);
    let mut previous: u64 = 0;
    let mut frequency_sum: u64 = 0;
    let mut gaps: usize = 0;
    for block in &blocks {
        assert_eq!(block.full_terms.len(), 100);
        for term in &block.full_terms {
            let step: u64 = term.doc_id - previous;
            assert!(1 <= step && step <= 5);
            if step > 1 {
                gaps += 1;
            }
            assert!(1 <= term.frequency && term.frequency <= 1000);
            previous = term.doc_id;
            frequency_sum += term.frequency;
        }
    }
    assert_eq!(previous, 1199510);
    assert_eq!(frequency_sum, 500278934);
    assert_eq!(gaps, 79823);
}

#[test]
fn test_data_starts_and_ends_with_the_known_terms() {
    let blocks = generate_test_data();
    assert_eq!(
        blocks[0].full_terms[0],
        FullTerm { doc_id: 1, field_mask: 212731870425284338099159223868922612090, frequency: 737 }
    );
    assert_eq!(
        blocks[0].full_terms[1],
        FullTerm { doc_id: 2, field_mask: 186216264857747108700369605745269969107, frequency: 115 }
    );
    assert_eq!(
        blocks[0].full_terms[99],
        FullTerm {
            doc_id: 121,
            field_mask: 222593039272178897616309716977795642859,
            frequency: 577
        }
    );
    assert_eq!(
        blocks[1].full_terms[0],
        FullTerm {
            doc_id: 125,
            field_mask: 320573605334998232617329716057240407022,
            frequency: 690
        }
    );
    assert_eq!(
        blocks[9_999].full_terms[99],
        FullTerm {
            doc_id: 1199510,
            field_mask: 36622301801793046483772084930004439678,
            frequency: 419
        }
    );
}

#[test]
fn test_data_is_the_same_on_every_call() {
    let first = generate_test_data();
    let second = generate_test_data();
    assert!(first == second);
}

#[test]
fn test_data_survives_the_codec() {
    let blocks = generate_test_data();
    for block in blocks.iter().take(300) {
        let bytes = serialize(block);
        assert_eq!(bytes.len(), 3204);
        assert_eq!(&bytes[0..4], &[100, 0, 0, 0]);
        assert_eq!(&deserialize(&bytes).unwrap(), block);
        assert_eq!(
            &codec_comparison::manual_zerocopy_v2::deserialize(&bytes).unwrap(),
            block
        );
        assert_eq!(
            &codec_comparison::manual_zerocopy_v3::deserialize(&bytes).unwrap(),
            block
        );
        let reader = BlockReader::new(&bytes).unwrap();
        assert_eq!(reader.len(), 100);
        let mut terms = reader.iter();
        for expected in &block.full_terms {
            assert_eq!(terms.next().unwrap().field_mask(), expected.field_mask);
        }
        assert!(terms.next().is_none());
    }
}
