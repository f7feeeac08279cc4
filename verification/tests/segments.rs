use qrcode_lib::encode::{assemble_data_codewords, boost_level, choose_version, pack_bits};
use qrcode_lib::{
    BitBuffer, DataTooLong, Mask, QrCode, QrCodeEcc, QrError, QrSegment, QrSegmentMode, Version,
};

fn bits(text: &str) -> Vec<bool> {
    text.chars().filter(|c| *c != ' ').map(|c| c == '1').collect()
}

#[test]
fn append_bits_puts_the_highest_bit_first() {
    let mut bb = BitBuffer(Vec::new());
    bb.append_bits(0b1011, 4);
    bb.append_bits(1, 3);
    bb.append_bits(0, 0);
    assert_eq!(bb.0, bits("1011 001"));
}

#[test]
fn numeric_segment_packs_three_digits_into_ten_bits() {
    let seg = QrSegment::make_numeric("123456");
    assert_eq!(seg.mode(), QrSegmentMode::Numeric);
    assert_eq!(seg.num_chars(), 6);
    assert_eq!(*seg.data(), bits("0001111011 0111001000"));
}

#[test]
fn numeric_segment_packs_the_rest_into_seven_or_four_bits() {
    assert_eq!(*QrSegment::make_numeric("12345").data(), bits("0001111011 0101101"));
    assert_eq!(*QrSegment::make_numeric("1234").data(), bits("0001111011 0100"));
    assert_eq!(QrSegment::make_numeric("").data().len(), 0);
}

#[test]
fn alphanumeric_segment_packs_two_characters_into_eleven_bits() {
    let seg = QrSegment::make_alphanumeric("AB");
    assert_eq!(seg.mode(), QrSegmentMode::Alphanumeric);
    assert_eq!(seg.num_chars(), 2);
    // 10 * 45 + 11 = 461
    assert_eq!(*seg.data(), bits("00111001101"));
}

#[test]
fn alphanumeric_segment_knows_the_whole_character_set() {
    let set = "0123456789ABCDEFGHIJKLMNOPQRSTUVWXYZ $%*+-./:";
    for (i, c) in set.chars().enumerate() {
        let text = c.to_string();
        assert!(QrSegment::is_alphanumeric(&text));
        let seg = QrSegment::make_alphanumeric(&text);
        let mut value = 0;
        for b in seg.data() {
            value = value * 2 + (*b as usize);
        }
        assert_eq!(seg.data().len(), 6);
        assert_eq!(value, i);
    }
    assert!(!QrSegment::is_alphanumeric("a"));
    assert!(!QrSegment::is_alphanumeric("A,B"));
    assert!(!QrSegment::is_alphanumeric("É"));
}

#[test]
fn numeric_test_accepts_digits_only() {
    assert!(QrSegment::is_numeric("0123456789"));
    assert!(QrSegment::is_numeric(""));
    assert!(!QrSegment::is_numeric("12a"));
    assert!(!QrSegment::is_numeric("１２"));
}

#[test]
fn byte_segment_packs_each_byte_into_eight_bits() {
    let seg = QrSegment::make_bytes(&[0x80, 0x01, 0xFF]);
    assert_eq!(seg.mode(), QrSegmentMode::Byte);
    assert_eq!(seg.num_chars(), 3);
    assert_eq!(*seg.data(), bits("10000000 00000001 11111111"));
}

#[test]
fn eci_segment_uses_one_two_or_three_bytes() {
    assert_eq!(*QrSegment::make_eci(127).data(), bits("01111111"));
    assert_eq!(*QrSegment::make_eci(128).data(), bits("10 00000010000000"));
    assert_eq!(*QrSegment::make_eci(16383).data(), bits("10 11111111111111"));
    assert_eq!(*QrSegment::make_eci(16384).data(), bits("110 000000100000000000000"));
    let seg = QrSegment::make_eci(999999);
    assert_eq!(seg.mode(), QrSegmentMode::Eci);
    assert_eq!(seg.num_chars(), 0);
    assert_eq!(*seg.data(), bits("110 011110100001000111111"));
}

#[test]
fn make_segments_chooses_one_mode_for_the_whole_text() {
    assert_eq!(QrSegment::make_segments("").len(), 0);
    let n = QrSegment::make_segments("0123");
    assert_eq!(n.len(), 1);
    assert_eq!(n[0].mode(), QrSegmentMode::Numeric);
    let a = QrSegment::make_segments("HELLO WORLD 123");
    assert_eq!(a[0].mode(), QrSegmentMode::Alphanumeric);
    let b = QrSegment::make_segments("Hello, World!");
    assert_eq!(b.len(), 1);
    assert_eq!(b[0].mode(), QrSegmentMode::Byte);
    assert_eq!(b[0].num_chars(), 13);
    let u = QrSegment::make_segments("é");
    assert_eq!(u[0].mode(), QrSegmentMode::Byte);
    assert_eq!(u[0].num_chars(), 2);
    assert_eq!(*u[0].data(), bits("11000011 10101001"));
}

#[test]
fn mode_bits_and_count_field_widths() {
    assert_eq!(QrSegmentMode::Numeric.mode_bits(), 1);
    assert_eq!(QrSegmentMode::Alphanumeric.mode_bits(), 2);
    assert_eq!(QrSegmentMode::Byte.mode_bits(), 4);
    assert_eq!(QrSegmentMode::Kanji.mode_bits(), 8);
    assert_eq!(QrSegmentMode::Eci.mode_bits(), 7);
    let widths = [
        (QrSegmentMode::Numeric, [10, 12, 14]),
        (QrSegmentMode::Alphanumeric, [9, 11, 13]),
        (QrSegmentMode::Byte, [8, 16, 16]),
        (QrSegmentMode::Kanji, [8, 10, 12]),
        (QrSegmentMode::Eci, [0, 0, 0]),
    ];
    for (mode, w) in widths {
        assert_eq!(mode.num_char_count_bits(Version::new(1)), w[0]);
        assert_eq!(mode.num_char_count_bits(Version::new(9)), w[0]);
        assert_eq!(mode.num_char_count_bits(Version::new(10)), w[1]);
        assert_eq!(mode.num_char_count_bits(Version::new(26)), w[1]);
        assert_eq!(mode.num_char_count_bits(Version::new(27)), w[2]);
        assert_eq!(mode.num_char_count_bits(Version::new(40)), w[2]);
    }
}

#[test]
fn total_bits_counts_mode_count_field_and_data() {
    let segs = [QrSegment::make_numeric("123456"), QrSegment::make_bytes(&[1, 2])];
    assert_eq!(
        QrSegment::get_total_bits(&segs, Version::new(1)),
        Some(4 + 10 + 20 + 4 + 8 + 16)
    );
    assert_eq!(
        QrSegment::get_total_bits(&segs, Version::new(40)),
        Some(4 + 14 + 20 + 4 + 16 + 16)
    );
    assert_eq!(QrSegment::get_total_bits(&[], Version::new(1)), Some(0));
}

#[test]
fn total_bits_is_nothing_where_a_count_does_not_fit() {
    let long = [QrSegment::new(QrSegmentMode::Byte, 256, Vec::new())];
    assert_eq!(QrSegment::get_total_bits(&long, Version::new(9)), None);
    assert_eq!(QrSegment::get_total_bits(&long, Version::new(10)), Some(20));
    let edge = [QrSegment::new(QrSegmentMode::Byte, 255, Vec::new())];
    assert_eq!(QrSegment::get_total_bits(&edge, Version::new(9)), Some(12));
    let eci = [QrSegment::new(QrSegmentMode::Eci, 1, Vec::new())];
    assert_eq!(QrSegment::get_total_bits(&eci, Version::new(40)), None);
}

#[test]
fn hello_world_data_codewords_at_version_one_medium() {
    let segs = [QrSegment::make_alphanumeric("HELLO WORLD")];
    let data = assemble_data_codewords(&segs, Version::new(1), QrCodeEcc::Medium);
    assert_eq!(
        data,
        vec![32, 91, 11, 120, 209, 114, 220, 77, 67, 64, 236, 17, 236, 17, 236, 17]
    );
}

#[test]
fn data_codewords_end_with_terminator_and_pad_bytes() {
    // 4 + 8 + 8 = 20 bits, then four zero bits, then pad bytes up to 19 codewords
    let segs = [QrSegment::make_bytes(&[0xAB])];
    let data = assemble_data_codewords(&segs, Version::new(1), QrCodeEcc::Low);
    let mut expected = vec![0x40, 0x1A, 0xB0];
    for k in 0..16 {
        expected.push(if k % 2 == 0 { 0xEC } else { 0x11 });
    }
    assert_eq!(data, expected);
}

#[test]
fn data_codewords_fill_the_capacity_exactly() {
    // 17 bytes at version 1, low: 4 + 8 + 136 = 148 bits of 152
    let segs = [QrSegment::make_bytes(&[0xFF; 17])];
    let data = assemble_data_codewords(&segs, Version::new(1), QrCodeEcc::Low);
    assert_eq!(data.len(), 19);
    assert_eq!(data[0], 0x41);
    assert_eq!(data[1], 0x1F);
    assert_eq!(data[18], 0xF0);
}

#[test]
fn pack_bits_counts_the_first_bit_most() {
    assert_eq!(pack_bits(&bits("10000000 00000001 01010101")), vec![0x80, 0x01, 0x55]);
    assert_eq!(pack_bits(&Vec::new()), Vec::<u8>::new());
}

#[test]
fn choose_version_takes_the_smallest_that_fits() {
    let segs = [QrSegment::make_bytes(&[0; 17])];
    let (v, used) = choose_version(&segs, QrCodeEcc::Low, Version::new(1), Version::new(40)).unwrap();
    assert_eq!(v.value(), 1);
    assert_eq!(used, 148);
    let segs = [QrSegment::make_bytes(&[0; 18])];
    let (v, _) = choose_version(&segs, QrCodeEcc::Low, Version::new(1), Version::new(40)).unwrap();
    assert_eq!(v.value(), 2);
    let (v, _) = choose_version(&segs, QrCodeEcc::Low, Version::new(5), Version::new(7)).unwrap();
    assert_eq!(v.value(), 5);
}

#[test]
fn choose_version_says_why_nothing_fits() {
    let segs = [QrSegment::make_bytes(&[0; 18])];
    let r = choose_version(&segs, QrCodeEcc::Low, Version::new(1), Version::new(1));
    assert_eq!(r.unwrap_err(), DataTooLong::DataOverCapacity(156, 152));
    let long = [QrSegment::new(QrSegmentMode::Byte, 70000, Vec::new())];
    let r = choose_version(&long, QrCodeEcc::Low, Version::new(1), Version::new(40));
    assert_eq!(r.unwrap_err(), DataTooLong::SegmentTooLong);
}

#[test]
fn boost_raises_the_level_as_far_as_the_data_fits() {
    // version 1 holds 152, 128, 104 and 72 bits
    let v = Version::new(1);
    assert_eq!(boost_level(72, v, QrCodeEcc::Low, true), QrCodeEcc::High);
    assert_eq!(boost_level(73, v, QrCodeEcc::Low, true), QrCodeEcc::Quartile);
    assert_eq!(boost_level(105, v, QrCodeEcc::Low, true), QrCodeEcc::Medium);
    assert_eq!(boost_level(129, v, QrCodeEcc::Low, true), QrCodeEcc::Low);
    assert_eq!(boost_level(72, v, QrCodeEcc::Low, false), QrCodeEcc::Low);
    assert_eq!(boost_level(100, v, QrCodeEcc::Quartile, true), QrCodeEcc::Quartile);
}

#[test]
fn text_beyond_the_largest_symbol_is_over_capacity() {
    // byte mode at version 40: 4 + 16 + 8 * 2954 = 23652 bits, more than 23648
    let text = "a".repeat(2954);
    match QrCode::encode_text(&text, QrCodeEcc::Low) {
        Err(DataTooLong::DataOverCapacity(used, available)) => {
            assert_eq!(used, 23652);
            assert_eq!(available, 23648);
        }
        _ => panic!("the text must not fit"),
    }
    let fits = "a".repeat(2953);
    let qr = QrCode::encode_text(&fits, QrCodeEcc::Low).unwrap();
    assert_eq!(qr.version().value(), 40);
    assert_eq!(qr.size(), 177);
}

#[test]
fn too_long_segment_is_reported_as_such() {
    let long = [QrSegment::new(QrSegmentMode::Byte, 70000, Vec::new())];
    match QrCode::encode_segments(&long, QrCodeEcc::Low) {
        Err(DataTooLong::SegmentTooLong) => {}
        _ => panic!("the segment must be too long"),
    }
}

#[test]
fn error_messages() {
    assert_eq!(DataTooLong::SegmentTooLong.message(), "Segment too long");
    assert_eq!(
        DataTooLong::DataOverCapacity(23652, 23648).message(),
        "Data length = 23652 bits, Max capacity = 23648 bits"
    );
    assert_eq!(
        DataTooLong::DataOverCapacity(0, 7).message(),
        "Data length = 0 bits, Max capacity = 7 bits"
    );
}

#[test]
fn advanced_encoding_keeps_version_level_and_mask() {
    let segs = QrSegment::make_segments("3141592653589793238462643383");
    let qr = QrCode::encode_segments_advanced(
        &segs,
        QrCodeEcc::High,
        Version::new(5),
        Version::new(5),
        Some(Mask::new(2)),
        false,
    )
    .unwrap();
    assert_eq!(qr.version().value(), 5);
    assert_eq!(qr.size(), 37);
    assert_eq!(qr.error_correction_level(), QrCodeEcc::High);
    assert_eq!(qr.mask().value(), 2);
}

#[test]
fn encoding_boosts_the_level_of_short_data() {
    let qr = QrCode::encode_text("A", QrCodeEcc::Low).unwrap();
    assert_eq!(qr.version().value(), 1);
    assert_eq!(qr.error_correction_level(), QrCodeEcc::High);
    let qr = QrCode::encode_binary(&[0; 17], QrCodeEcc::Low).unwrap();
    assert_eq!(qr.version().value(), 1);
    assert_eq!(qr.error_correction_level(), QrCodeEcc::Low);
}

#[test]
fn empty_text_gives_the_smallest_symbol() {
    let qr = QrCode::encode_text("", QrCodeEcc::Medium).unwrap();
    assert_eq!(qr.version().value(), 1);
    assert_eq!(qr.error_correction_level(), QrCodeEcc::High);
}

#[test]
fn values_out_of_range_are_refused() {
    assert_eq!(Version::try_new(0).unwrap_err(), QrError::OutOfRange);
    assert_eq!(Version::try_new(41).unwrap_err(), QrError::OutOfRange);
    assert_eq!(Version::try_new(1).unwrap().value(), 1);
    assert_eq!(Version::try_new(40).unwrap().value(), 40);
    assert_eq!(Mask::try_new(8).unwrap_err(), QrError::OutOfRange);
    assert_eq!(Mask::try_new(7).unwrap().value(), 7);
    assert_eq!(QrSegment::try_make_eci(1_000_000).unwrap_err(), QrError::OutOfRange);
    assert_eq!(*QrSegment::try_make_eci(127).unwrap().data(), bits("01111111"));
}

#[test]
fn bits_that_do_not_fit_are_refused() {
    let mut bb = BitBuffer(vec![true]);
    assert_eq!(bb.try_append_bits(4, 2), Err(QrError::OutOfRange));
    assert_eq!(bb.try_append_bits(0, 32), Err(QrError::OutOfRange));
    assert_eq!(bb.try_append_bits(1, 0), Err(QrError::OutOfRange));
    assert_eq!(bb.0, vec![true]);
    assert_eq!(bb.try_append_bits(3, 2), Ok(()));
    assert_eq!(bb.try_append_bits(0x7FFF_FFFF, 31), Ok(()));
    assert_eq!(bb.0.len(), 34);
    assert_eq!(&bb.0[0..4], &[true, true, true, true]);
}

#[test]
fn characters_outside_the_mode_are_refused() {
    assert_eq!(QrSegment::try_make_numeric("12a").unwrap_err(), QrError::InvalidCharacter);
    assert_eq!(QrSegment::try_make_alphanumeric("ab").unwrap_err(), QrError::InvalidCharacter);
    assert_eq!(
        *QrSegment::try_make_numeric("123456").unwrap().data(),
        bits("0001111011 0111001000")
    );
    assert_eq!(*QrSegment::try_make_alphanumeric("AB").unwrap().data(), bits("00111001101"));
}

#[test]
fn contradicting_versions_are_refused() {
    let segs = QrSegment::make_segments("HELLO");
    let r = QrCode::try_encode_segments_advanced(
        &segs,
        QrCodeEcc::Low,
        Version::new(3),
        Version::new(2),
        None,
        true,
    );
    assert_eq!(r.unwrap_err(), QrError::InvalidArgument);
    let r = QrCode::try_encode_segments_advanced(
        &segs,
        QrCodeEcc::Low,
        Version::new(2),
        Version::new(3),
        None,
        true,
    );
    assert_eq!(r.unwrap().version().value(), 2);
    let long = [QrSegment::make_bytes(&[0; 100])];
    let r = QrCode::try_encode_segments_advanced(
        &long,
        QrCodeEcc::High,
        Version::new(1),
        Version::new(2),
        None,
        true,
    );
    assert_eq!(
        r.unwrap_err(),
        QrError::DataTooLong(DataTooLong::DataOverCapacity(812, 128))
    );
}

#[test]
fn text_too_long_for_its_count_field_is_a_too_long_segment() {
    let text = "a".repeat(65536);
    match QrCode::encode_text(&text, QrCodeEcc::Low) {
        Err(DataTooLong::SegmentTooLong) => {}
        _ => panic!("the count field must not hold the text"),
    }
    let text = "a".repeat(65535);
    match QrCode::encode_text(&text, QrCodeEcc::Low) {
        Err(DataTooLong::DataOverCapacity(used, available)) => {
            assert_eq!(used, 4 + 16 + 8 * 65535);
            assert_eq!(available, 23648);
        }
        _ => panic!("the text must not fit"),
    }
}
