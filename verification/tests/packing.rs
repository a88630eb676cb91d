use simple_anvil::error::AnvilError;
use simple_anvil::packing::{
    bin_append, bit_length, block_state_width, pack_fields, packed_field, unpack_heightmap,
};

#[test]
fn bit_length_values() {
    assert_eq!(bit_length(0), 0);
    assert_eq!(bit_length(1), 1);
    assert_eq!(bit_length(2), 2);
    assert_eq!(bit_length(3), 2);
    assert_eq!(bit_length(4), 3);
    assert_eq!(bit_length(16), 5);
    assert_eq!(bit_length(usize::MAX), usize::BITS);
}

#[test]
fn block_state_width_has_minimum_four() {
    // a single-entry palette still uses 4-bit fields
    assert_eq!(block_state_width(1), 4);
    assert_eq!(block_state_width(2), 4);
    assert_eq!(block_state_width(16), 4);
    // 17 entries need 5 bits
    assert_eq!(block_state_width(17), 5);
    assert_eq!(block_state_width(32), 5);
    assert_eq!(block_state_width(33), 6);
}

#[test]
fn aligned_round_trip_width_five() {
    // 12 fields of 5 bits fit one word; values survive packing exactly
    let values: Vec<u64> = vec![3, 0, 31, 7, 12, 1, 30, 2, 9, 27, 15, 4, 8, 22];
    let words = pack_fields(&values, 5);
    assert_eq!(words.len(), 2);
    for (i, v) in values.iter().enumerate() {
        assert_eq!(packed_field(&words, 5, false, i), Ok(*v));
    }
}

#[test]
fn aligned_round_trip_width_one_and_thirty_two() {
    let bits: Vec<u64> = vec![1, 0, 0, 1, 1, 1, 0, 1];
    let words = pack_fields(&bits, 1);
    for (i, v) in bits.iter().enumerate() {
        assert_eq!(packed_field(&words, 1, false, i), Ok(*v));
    }
    let wide: Vec<u64> = vec![0xdead_beef, 0, 0xffff_ffff, 7];
    let words = pack_fields(&wide, 32);
    for (i, v) in wide.iter().enumerate() {
        assert_eq!(packed_field(&words, 32, false, i), Ok(*v));
    }
}

#[test]
fn aligned_field_is_word_aligned() {
    // field 12 of width 5 starts a fresh word: the 4 top bits of word 0 are
    // never read
    let words: Vec<i64> = vec![(0b11111u64 << 60) as i64 | 0b01010, 0b00111];
    assert_eq!(packed_field(&words, 5, false, 0), Ok(0b01010));
    assert_eq!(packed_field(&words, 5, false, 12), Ok(0b00111));
}

#[test]
fn aligned_read_masks_sign_bit() {
    // a word with its top bit set is read as its unsigned bit pattern
    let words: Vec<i64> = vec![i64::MIN | 0b1001];
    assert_eq!(packed_field(&words, 4, false, 0), Ok(0b1001));
    assert_eq!(packed_field(&words, 4, false, 15), Ok(0b1000));
}

#[test]
fn stream_field_spans_word_boundary() {
    // 3-bit fields: field 21 occupies bits 63..65, spanning both words
    let words: Vec<i64> = vec![i64::MIN, 0b10, 0];
    assert_eq!(packed_field(&words, 3, true, 21), Ok(0b101));
    // its neighbours stay intact
    assert_eq!(packed_field(&words, 3, true, 20), Ok(0));
    assert_eq!(packed_field(&words, 3, true, 22), Ok(0));
}

#[test]
fn packed_field_reports_truncation() {
    let words: Vec<i64> = vec![0];
    assert_eq!(packed_field(&words, 5, false, 12), Err(AnvilError::Truncated));
    assert_eq!(packed_field(&words, 3, true, 21), Err(AnvilError::Truncated));
    assert_eq!(packed_field(&words, 3, true, 63), Err(AnvilError::Truncated));
}

#[test]
fn heightmap_drops_trailing_zero_fields() {
    // fields 321 and 100, then padding; heights follow the "- 65" rule
    let word: i64 = 321 + (100 << 9);
    let heights = unpack_heightmap(&vec![word]).unwrap();
    assert_eq!(heights, vec![256, 35]);
}

#[test]
fn heightmap_keeps_interior_zero_fields() {
    // a zero field below a set field is data, not padding
    let word: i64 = 70 + (0 << 9) + (130 << 18);
    let heights = unpack_heightmap(&vec![word]).unwrap();
    assert_eq!(heights, vec![5, -65, 65]);
}

#[test]
fn heightmap_uses_63_bit_words() {
    // seven 9-bit fields per word: field 7 begins in the second word, and
    // bit 63 of the first word is never read
    let words: Vec<i64> = vec![(1 << 54) | i64::MIN, 91];
    let heights = unpack_heightmap(&words).unwrap();
    assert_eq!(heights.len(), 8);
    assert_eq!(heights[6], 1 - 65);
    assert_eq!(heights[7], 91 - 65);
}

#[test]
fn bin_append_concatenates_bits() {
    assert_eq!(bin_append(0b101, 0b11, None), 0b10111);
    assert_eq!(bin_append(0b101, 0b11, Some(4)), 0b1010011);
    assert_eq!(bin_append(7, 0, Some(3)), 0b111000);
}

#[test]
fn aligned_round_trip_all_widths() {
    // a fixed-seed generator drives the same check over every width
    let mut state: u64 = 0x2545_f491_4f6c_dd1d;
    let mut next = move || {
        state = state.wrapping_mul(6364136223846793005).wrapping_add(1442695040888963407);
        state
    };
    for width in 1..=32u32 {
        let mask = if width == 64 { u64::MAX } else { (1u64 << width) - 1 };
        let values: Vec<u64> = (0..100).map(|_| next() & mask).collect();
        let words = pack_fields(&values, width);
        for (i, v) in values.iter().enumerate() {
            assert_eq!(packed_field(&words, width, false, i), Ok(*v));
        }
    }
}
