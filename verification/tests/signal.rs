use candump_parse::error::CanError;
use candump_parse::signal::{extract, select_bytes, Extraction, ExtractionConfig};
use candump_parse::word::{pad_word, signed_of, word_unsigned, Endian};

fn config(endian: Endian, start_byte: u8, start_mask: u8, end_byte: u8, end_mask: u8) -> ExtractionConfig {
    ExtractionConfig { endian, start_byte, start_mask, end_byte, end_mask }
}

fn whole(endian: Endian) -> ExtractionConfig {
    config(endian, 0, 0xFF, 7, 0xFF)
}

#[test]
fn little_endian_four_bytes() {
    let payload = [0xDE, 0xAD, 0xBE, 0xEF, 0x00, 0x00, 0x00, 0x00];
    let x = extract(&payload, &config(Endian::Little, 0, 0xFF, 3, 0xFF)).unwrap();
    assert_eq!(x.unsigned_value, 0xEFBEADDE);
    assert_eq!(x.unsigned_value, 4022250974);
    assert_eq!(x.signed_value, 4022250974);
    assert_eq!(x.selected_hex, "DE AD BE EF");
}

#[test]
fn big_endian_four_bytes() {
    let payload = [0xDE, 0xAD, 0xBE, 0xEF, 0x00, 0x00, 0x00, 0x00];
    let x = extract(&payload, &config(Endian::Big, 0, 0xFF, 3, 0xFF)).unwrap();
    assert_eq!(x.unsigned_value, 0xDEADBEEF);
    assert_eq!(x.signed_value, 0xDEADBEEF);
    assert_eq!(x.selected_hex, "DE AD BE EF");
}

#[test]
fn inverted_range_is_an_empty_selection() {
    let payload = [1, 2, 3, 4, 5, 6, 7, 8];
    let r = extract(&payload, &config(Endian::Little, 3, 0xFF, 1, 0xFF));
    assert_eq!(r, Err(CanError::EmptySelection));
    assert_eq!(
        select_bytes(&payload, &config(Endian::Big, 3, 0xFF, 1, 0xFF)),
        Err(CanError::EmptySelection)
    );
}

#[test]
fn empty_payload_is_refused_for_any_range() {
    for &(start, end) in &[(0u8, 7u8), (0, 0), (3, 1), (7, 7), (255, 0)] {
        for &endian in &[Endian::Little, Endian::Big] {
            let r = extract(&[], &config(endian, start, 0xFF, end, 0xFF));
            assert_eq!(r, Err(CanError::EmptyPayload));
        }
    }
}

#[test]
fn start_beyond_a_short_payload_is_an_empty_selection() {
    let payload = [0x11, 0x22];
    let r = extract(&payload, &config(Endian::Little, 5, 0xFF, 7, 0xFF));
    assert_eq!(r, Err(CanError::EmptySelection));
}

#[test]
fn more_than_eight_bytes_is_a_configuration_error() {
    let payload = [0u8, 1, 2, 3, 4, 5, 6, 7, 8, 9];
    let r = extract(&payload, &config(Endian::Little, 0, 0xFF, 8, 0xFF));
    assert_eq!(r, Err(CanError::Config));
    let selected = select_bytes(&payload, &config(Endian::Little, 0, 0xFF, 8, 0xFF)).unwrap();
    assert_eq!(selected.len(), 9);
    let x = extract(&payload, &config(Endian::Big, 2, 0xFF, 9, 0xFF)).unwrap();
    assert_eq!(x.unsigned_value, 0x0203040506070809);
}

#[test]
fn end_byte_is_clamped_to_the_payload() {
    let payload = [0x01, 0x02, 0x03];
    let x = extract(&payload, &config(Endian::Little, 1, 0xFF, 7, 0xFF)).unwrap();
    assert_eq!(x.selected_hex, "02 03");
    assert_eq!(x.unsigned_value, 0x0302);
    let y = extract(&payload, &config(Endian::Big, 1, 0xFF, 7, 0x0F)).unwrap();
    assert_eq!(y.selected_hex, "02 03");
    assert_eq!(y.unsigned_value, 0x0203);
}

#[test]
fn masks_apply_to_the_boundary_bytes_only() {
    let payload = [0xFF, 0xFF, 0xFF, 0xFF];
    let x = extract(&payload, &config(Endian::Big, 0, 0x0F, 2, 0xF0)).unwrap();
    assert_eq!(x.selected_hex, "0F FF F0");
    assert_eq!(x.unsigned_value, 0x0FFFF0);
    assert_eq!(x.signed_value, 0x0FFFF0);
}

#[test]
fn single_byte_gets_both_masks() {
    let payload = [0x00, 0xFF, 0x00];
    let x = extract(&payload, &config(Endian::Little, 1, 0x3C, 1, 0xF0)).unwrap();
    assert_eq!(x.selected_hex, "30");
    assert_eq!(x.unsigned_value, 0x30);
    let clamped = extract(&[0xAB], &config(Endian::Big, 0, 0xF0, 7, 0x3F)).unwrap();
    assert_eq!(clamped.selected_hex, "20");
    assert_eq!(clamped.unsigned_value, 0x20);
}

#[test]
fn selected_hex_holds_one_group_per_selected_byte() {
    let payload = [0x10, 0x32, 0x54, 0x76, 0x98, 0xBA, 0xDC, 0xFE];
    for start in 0u8..8 {
        for end in start..8 {
            let x = extract(&payload, &config(Endian::Little, start, 0xFF, end, 0xFF)).unwrap();
            let groups: Vec<&str> = x.selected_hex.split(' ').collect();
            assert_eq!(groups.len(), (end - start + 1) as usize);
            assert_eq!(x.selected_hex.len(), 3 * groups.len() - 1);
            for (k, group) in groups.iter().enumerate() {
                assert_eq!(*group, format!("{:02X}", payload[start as usize + k]));
            }
        }
    }
    let short = extract(&payload[..3], &config(Endian::Little, 1, 0xFF, 6, 0xFF)).unwrap();
    assert_eq!(short.selected_hex.split(' ').count(), 2);
}

#[test]
fn masking_twice_changes_nothing() {
    let payload = [0xA7, 0x5C, 0xE1, 0x3B];
    let cfg = config(Endian::Big, 1, 0x6D, 3, 0xB3);
    let once = select_bytes(&payload, &cfg).unwrap();
    assert_eq!(once, vec![0x5C & 0x6D, 0xE1, 0x3B & 0xB3]);
    let again = select_bytes(&once, &config(Endian::Big, 0, 0x6D, 2, 0xB3)).unwrap();
    assert_eq!(again, once);
    let single = select_bytes(&payload, &config(Endian::Big, 0, 0x6D, 0, 0xB3)).unwrap();
    assert_eq!(single, vec![0xA7 & 0x6D & 0xB3]);
    assert_eq!(select_bytes(&single, &config(Endian::Big, 0, 0x6D, 0, 0xB3)).unwrap(), single);
}

#[test]
fn encoded_values_come_back() {
    let values = [0u64, 1, 255, 256, 0xEFBEADDE, 0x0123456789ABCDEF, i64::MAX as u64, 1 << 63, u64::MAX];
    for &v in &values {
        let little = extract(&v.to_le_bytes(), &whole(Endian::Little)).unwrap();
        assert_eq!(little.unsigned_value, v);
        let big = extract(&v.to_be_bytes(), &whole(Endian::Big)).unwrap();
        assert_eq!(big.unsigned_value, v);
    }
    let swapped = extract(&0x0102030405060708u64.to_le_bytes(), &whole(Endian::Big)).unwrap();
    assert_eq!(swapped.unsigned_value, 0x0807060504030201);
}

#[test]
fn signed_and_unsigned_agree_below_the_top_bit() {
    let clear = extract(&[0xFF, 0xFF, 0xFF, 0xFF, 0xFF, 0xFF, 0xFF, 0x7F], &whole(Endian::Little)).unwrap();
    assert_eq!(clear.unsigned_value, 0x7FFF_FFFF_FFFF_FFFF);
    assert_eq!(clear.signed_value, 0x7FFF_FFFF_FFFF_FFFF);
    let set = extract(&[0x00, 0x00, 0x00, 0x00, 0x00, 0x00, 0x00, 0x80], &whole(Endian::Little)).unwrap();
    assert_eq!(set.unsigned_value, 1 << 63);
    assert_eq!(set.signed_value, i64::MIN);
    assert_eq!(set.signed_value as i128, set.unsigned_value as i128 - (1i128 << 64));
    let ones = extract(&[0xFF; 8], &whole(Endian::Big)).unwrap();
    assert_eq!(ones.unsigned_value, u64::MAX);
    assert_eq!(ones.signed_value, -1);
    let big = extract(&[0x80, 0, 0, 0, 0, 0, 0, 1], &whole(Endian::Big)).unwrap();
    assert_eq!(big.signed_value, i64::MIN + 1);
    let big_clear = extract(&[0x7F, 0, 0, 0, 0, 0, 0, 0x80], &whole(Endian::Big)).unwrap();
    assert_eq!(big_clear.signed_value as i128, big_clear.unsigned_value as i128);
}

#[test]
fn short_selections_are_never_negative() {
    let x = extract(&[0xFF, 0xFF, 0xFF], &config(Endian::Little, 0, 0xFF, 2, 0xFF)).unwrap();
    assert_eq!(x.unsigned_value, 0xFFFFFF);
    assert_eq!(x.signed_value, 0xFFFFFF);
}

#[test]
fn linear_scaling_of_an_extracted_value() {
    let payload = [0x88, 0x13];
    let x = extract(&payload, &config(Endian::Little, 0, 0xFF, 7, 0xFF)).unwrap();
    assert_eq!(x.unsigned_value, 5000);
    let physical = x.unsigned_value as f64 * 0.01 + -40.0;
    assert_eq!(format!("{:.6}", physical), "10.000000");
    let signed = x.signed_value as f64 * 0.01 + -40.0;
    assert_eq!(format!("{:.6}", signed), "10.000000");
}

#[test]
fn extraction_compares_by_its_fields() {
    let a = extract(&[0x01], &whole(Endian::Little)).unwrap();
    let b = Extraction { selected_hex: String::from("01"), unsigned_value: 1, signed_value: 1 };
    assert_eq!(a, b);
}

#[test]
fn words_are_padded_at_the_most_significant_end() {
    assert_eq!(pad_word(&[1, 2, 3], Endian::Little), Ok([1, 2, 3, 0, 0, 0, 0, 0]));
    assert_eq!(pad_word(&[1, 2, 3], Endian::Big), Ok([0, 0, 0, 0, 0, 1, 2, 3]));
    assert_eq!(pad_word(&[], Endian::Big), Ok([0; 8]));
    assert_eq!(pad_word(&[9; 8], Endian::Little), Ok([9; 8]));
    assert_eq!(pad_word(&[9; 9], Endian::Little), Err(CanError::Config));
}

#[test]
fn words_are_read_in_either_order() {
    let word = [0x01, 0x02, 0x03, 0x04, 0x05, 0x06, 0x07, 0x08];
    assert_eq!(word_unsigned(&word, Endian::Little), 0x0807060504030201);
    assert_eq!(word_unsigned(&word, Endian::Big), 0x0102030405060708);
    assert_eq!(word_unsigned(&word, Endian::Little), u64::from_le_bytes(word));
    assert_eq!(word_unsigned(&word, Endian::Big), u64::from_be_bytes(word));
    assert_eq!(word_unsigned(&[0xFF; 8], Endian::Big), u64::MAX);
}

#[test]
fn twos_complement_reading() {
    assert_eq!(signed_of(0), 0);
    assert_eq!(signed_of(1), 1);
    assert_eq!(signed_of(0x7FFF_FFFF_FFFF_FFFF), i64::MAX);
    assert_eq!(signed_of(0x8000_0000_0000_0000), i64::MIN);
    assert_eq!(signed_of(u64::MAX), -1);
    assert_eq!(signed_of(u64::MAX - 41), -42);
}
